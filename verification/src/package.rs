//! Package records: identity, metadata, and status flags.
//!
//! A package is an immutable value record. Its `id` is an opaque, stable
//! identifier distinguishing a specific build of a specific version from
//! every other; equality of packages is equality of ids. Capability tokens
//! ("providers") are plain strings: a package exports the providers in its
//! metadata and requires the providers in its dependency list.

use vstd::prelude::*;

verus! {

/// Status flags of a package, also used as a query filter: a filter value
/// asks for the packages that have every flag it sets.
#[derive(Clone, Copy, PartialEq, Eq, Structural, Debug)]
pub struct Flags {
    pub explicit: bool,
    pub installed: bool,
    pub available: bool,
}

impl Flags {
    /// The empty filter: matches every package.
    pub fn new() -> (r: Flags)
        ensures
            r == (Flags { explicit: false, installed: false, available: false }),
    {
        Flags { explicit: false, installed: false, available: false }
    }

    pub fn with_explicit(self) -> (r: Flags)
        ensures
            r == (Flags { explicit: true, ..self }),
    {
        Flags { explicit: true, ..self }
    }

    pub fn with_installed(self) -> (r: Flags)
        ensures
            r == (Flags { installed: true, ..self }),
    {
        Flags { installed: true, ..self }
    }

    pub fn with_available(self) -> (r: Flags)
        ensures
            r == (Flags { available: true, ..self }),
    {
        Flags { available: true, ..self }
    }

    /// Does a package carrying flags `have` satisfy this filter?
    pub open spec fn spec_matches(self, have: Flags) -> bool {
        &&& (self.explicit ==> have.explicit)
        &&& (self.installed ==> have.installed)
        &&& (self.available ==> have.available)
    }

    pub fn matches(self, have: Flags) -> (r: bool)
        ensures
            r == self.spec_matches(have),
    {
        (!self.explicit || have.explicit) && (!self.installed || have.installed)
            && (!self.available || have.available)
    }
}

impl Default for Flags {
    fn default() -> (r: Flags)
        ensures
            r == (Flags { explicit: false, installed: false, available: false }),
    {
        Flags { explicit: false, installed: false, available: false }
    }
}

/// Mathematical model of [`Meta`].
#[verifier::ext_equal]
pub struct SpecMeta {
    pub name: Seq<char>,
    pub version_identifier: Seq<char>,
    pub source_release: u64,
    pub build_release: u64,
    pub providers: Seq<Seq<char>>,
    pub dependencies: Seq<Seq<char>>,
}

/// Package metadata: the human-facing name, version identifiers, the
/// capability tokens the package exports, and those it requires.
#[derive(Debug)]
pub struct Meta {
    pub name: String,
    pub version_identifier: String,
    /// Monotonic integer, bumped per source revision.
    pub source_release: u64,
    /// Monotonic integer, bumped per rebuild of the same source revision.
    pub build_release: u64,
    /// Capability tokens this package exports.
    pub providers: Vec<String>,
    /// Capability tokens this package requires at run time.
    pub dependencies: Vec<String>,
}

impl View for Meta {
    type V = SpecMeta;

    open spec fn view(&self) -> SpecMeta {
        SpecMeta {
            name: self.name@,
            version_identifier: self.version_identifier@,
            source_release: self.source_release,
            build_release: self.build_release,
            providers: self.providers.deep_view(),
            dependencies: self.dependencies.deep_view(),
        }
    }
}

impl DeepView for Meta {
    type V = SpecMeta;

    open spec fn deep_view(&self) -> SpecMeta {
        self.view()
    }
}

impl Clone for Meta {
    fn clone(&self) -> (r: Meta)
        ensures
            r@ == self@,
    {
        Meta {
            name: self.name.clone(),
            version_identifier: self.version_identifier.clone(),
            source_release: self.source_release,
            build_release: self.build_release,
            providers: clone_strings(&self.providers),
            dependencies: clone_strings(&self.dependencies),
        }
    }
}

/// Clones a list of strings, keeping its contents.
pub fn clone_strings(v: &Vec<String>) -> (r: Vec<String>)
    ensures
        r.deep_view() == v.deep_view(),
{
    let mut r: Vec<String> = Vec::new();
    let mut i: usize = 0;
    while i < v.len()
        invariant
            i <= v.len(),
            r@.len() == i,
            forall|k: int| 0 <= k < i ==> r@[k]@ == v@[k]@,
        decreases v.len() - i,
    {
        r.push(v[i].clone());
        i += 1;
    }
    proof {
        assert forall|k: int| 0 <= k < v@.len() implies
            r.deep_view()[k] == v.deep_view()[k] by {
            assert(r@[k]@ == v@[k]@);
        }
        assert(r.deep_view() =~= v.deep_view());
    }
    r
}

/// Mathematical model of [`Package`].
#[verifier::ext_equal]
pub struct SpecPackage {
    pub id: Seq<char>,
    pub meta: SpecMeta,
    pub flags: Flags,
    pub priority: u64,
}

impl SpecPackage {
    /// Does the package export capability token `token`?
    pub open spec fn provides(self, token: Seq<char>) -> bool {
        self.meta.providers.contains(token)
    }
}

/// An immutable package record, as the registry knows it.
#[derive(Debug)]
pub struct Package {
    /// Opaque, stable identifier of this exact build.
    pub id: String,
    pub meta: Meta,
    pub flags: Flags,
    /// Priority of the repository the record came from; higher wins.
    pub priority: u64,
}

impl View for Package {
    type V = SpecPackage;

    open spec fn view(&self) -> SpecPackage {
        SpecPackage { id: self.id@, meta: self.meta@, flags: self.flags, priority: self.priority }
    }
}

impl DeepView for Package {
    type V = SpecPackage;

    open spec fn deep_view(&self) -> SpecPackage {
        self.view()
    }
}

impl Clone for Package {
    fn clone(&self) -> (r: Package)
        ensures
            r@ == self@,
    {
        Package {
            id: self.id.clone(),
            meta: self.meta.clone(),
            flags: self.flags,
            priority: self.priority,
        }
    }
}

/// Does some package in `s` export `token`?
pub open spec fn spec_any_provides(s: Seq<SpecPackage>, token: Seq<char>) -> bool {
    exists|k: int| 0 <= k < s.len() && s[k].provides(token)
}

/// Does a package in `s` carry id `id`?
pub open spec fn spec_contains_id(s: Seq<SpecPackage>, id: Seq<char>) -> bool {
    exists|k: int| 0 <= k < s.len() && s[k].id == id
}

/// Does a member of `pkgs` carry id `id`?
pub fn contains_pkg_id(pkgs: &Vec<Package>, id: &String) -> (r: bool)
    ensures
        r == spec_contains_id(pkgs.deep_view(), id@),
{
    let mut i: usize = 0;
    while i < pkgs.len()
        invariant
            i <= pkgs.len(),
            forall|k: int| 0 <= k < i ==> pkgs.deep_view()[k].id != id@,
        decreases pkgs.len() - i,
    {
        if pkgs[i].id == *id {
            proof {
                assert(pkgs.deep_view()[i as int].id == id@);
            }
            return true;
        }
        i += 1;
    }
    false
}

/// Is some package of `s` named `name`?
pub open spec fn spec_contains_name(s: Seq<SpecPackage>, name: Seq<char>) -> bool {
    exists|k: int| 0 <= k < s.len() && s[k].meta.name == name
}

/// Does a member of `pkgs` carry name `name`?
pub fn contains_pkg_name(pkgs: &Vec<Package>, name: &String) -> (r: bool)
    ensures
        r == spec_contains_name(pkgs.deep_view(), name@),
{
    let mut i: usize = 0;
    while i < pkgs.len()
        invariant
            i <= pkgs.len(),
            forall|k: int| 0 <= k < i ==> pkgs.deep_view()[k].meta.name != name@,
        decreases pkgs.len() - i,
    {
        if pkgs[i].meta.name == *name {
            proof {
                assert(pkgs.deep_view()[i as int].meta.name == name@);
            }
            return true;
        }
        i += 1;
    }
    proof {
        if spec_contains_name(pkgs.deep_view(), name@) {
            let k = choose|k: int|
                0 <= k < pkgs.deep_view().len() && pkgs.deep_view()[k].meta.name == name@;
        }
    }
    false
}

/// Does the capability list `provs` contain `token`?  Executable companion
/// of `Seq::contains` on string views.
pub fn contains_token(provs: &Vec<String>, token: &String) -> (r: bool)
    ensures
        r == provs.deep_view().contains(token@),
{
    let mut i: usize = 0;
    while i < provs.len()
        invariant
            i <= provs.len(),
            forall|k: int| 0 <= k < i ==> provs.deep_view()[k] != token@,
        decreases provs.len() - i,
    {
        if provs[i] == *token {
            proof {
                assert(provs.deep_view()[i as int] == token@);
            }
            return true;
        }
        i += 1;
    }
    proof {
        assert(forall|k: int| 0 <= k < provs.deep_view().len() ==> provs.deep_view()[k] != token@);
    }
    false
}

} // verus!

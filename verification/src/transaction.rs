//! The resolver: expands a seed set of package ids into a complete,
//! consistent install set in which every required capability token is
//! exported by some member of the set.
//!
//! A [`Transaction`] accumulates seed packages (rejecting unknown ids and
//! duplicates), then [`Transaction::finalize`] closes the set over
//! dependencies: for each member, in order, each required token that no
//! member yet exports is resolved through the registry under the chosen
//! [`Lookup`] strategy, and the chosen candidate joins the set. Cycles are
//! broken by the membership check, so the closure is a fixed point, not
//! depth-limited. The whole computation is a function of the registry
//! contents and the seed list alone, which the contracts here pin down
//! exactly.

use vstd::prelude::*;

use crate::package::{Package, SpecPackage, spec_any_provides, spec_contains_id};
use crate::registry::{Registry, spec_by_id, spec_filter, lemma_filter_add, lemma_filter_membership};

verus! {

/// How unresolved dependencies are filled.
#[derive(Clone, Copy, PartialEq, Eq, Structural, Debug)]
pub enum Lookup {
    /// Prefer a package already installed when one exports the token; fall
    /// back to the highest-priority available candidate.
    PreferAvailable,
    /// Resolve strictly from repository-advertised (available) packages,
    /// ignoring installed state.
    AvailableOnly,
}

/// Mathematical model of [`Error`].
pub enum SpecTxError {
    UnknownSeed(Seq<char>),
    DuplicateSeed(Seq<char>),
    MissingProvider(Seq<char>),
}

/// A failed resolution.
#[derive(Debug, PartialEq, Eq)]
pub enum Error {
    /// A seed id that no registry record carries.
    UnknownSeed(String),
    /// A seed id handed to [`Transaction::add`] twice.
    DuplicateSeed(String),
    /// A required capability token that no candidate exports.
    MissingProvider(String),
}

impl View for Error {
    type V = SpecTxError;

    open spec fn view(&self) -> SpecTxError {
        match self {
            Error::UnknownSeed(id) => SpecTxError::UnknownSeed(id@),
            Error::DuplicateSeed(id) => SpecTxError::DuplicateSeed(id@),
            Error::MissingProvider(t) => SpecTxError::MissingProvider(t@),
        }
    }
}

/// Packages already installed that export `token`.
pub open spec fn inst_pred(token: Seq<char>) -> spec_fn(SpecPackage) -> bool {
    |p: SpecPackage| p.provides(token) && p.flags.installed
}

/// Repository-advertised packages that export `token`.
pub open spec fn avail_pred(token: Seq<char>) -> spec_fn(SpecPackage) -> bool {
    |p: SpecPackage| p.provides(token) && p.flags.available
}

/// The first (highest-priority) record of `s` satisfying `pred`.
pub open spec fn spec_first(s: Seq<SpecPackage>, pred: spec_fn(SpecPackage) -> bool) -> Option<
    SpecPackage,
> {
    if spec_filter(s, pred).len() > 0 {
        Some(spec_filter(s, pred)[0])
    } else {
        None
    }
}

/// The candidate a strategy picks for `token`: the first match of the
/// registry, preferring installed exporters under
/// [`Lookup::PreferAvailable`].
pub open spec fn spec_candidate(reg: Seq<SpecPackage>, lk: Lookup, token: Seq<char>) -> Option<
    SpecPackage,
> {
    match lk {
        Lookup::PreferAvailable => if spec_first(reg, inst_pred(token)) is Some {
            spec_first(reg, inst_pred(token))
        } else {
            spec_first(reg, avail_pred(token))
        },
        Lookup::AvailableOnly => spec_first(reg, avail_pred(token)),
    }
}

/// One resolution state: `done` is the set built so far, the dependencies
/// of its first `i` members are satisfied, and of member `i` the first `j`
/// are. `fuel` bounds the number of additions still possible; with the
/// fuel [`spec_finalize`] supplies it never runs out, since additions are
/// distinct registry records.
pub open spec fn fin_from(
    reg: Seq<SpecPackage>,
    lk: Lookup,
    done: Seq<SpecPackage>,
    i: int,
    j: int,
    fuel: nat,
) -> Option<Result<Seq<SpecPackage>, Seq<char>>>
    decreases fuel, done.len() - i, (if i < done.len() {
        done[i].meta.dependencies.len() - j
    } else {
        0
    }),
{
    if i >= done.len() {
        Some(Ok(done))
    } else {
        let deps = done[i].meta.dependencies;
        if j >= deps.len() {
            fin_from(reg, lk, done, i + 1, 0, fuel)
        } else {
            let token = deps[j];
            if spec_any_provides(done, token) {
                fin_from(reg, lk, done, i, j + 1, fuel)
            } else {
                match spec_candidate(reg, lk, token) {
                    None => Some(Err(token)),
                    Some(p) => if fuel == 0 {
                        None
                    } else {
                        fin_from(reg, lk, done.push(p), i, j + 1, (fuel - 1) as nat)
                    },
                }
            }
        }
    }
}

/// The completed, ordered package list a finalization of `seeds` against
/// `reg` yields, or the first token found unsatisfiable. The supplied fuel
/// suffices for every reachable state, so the result is never `None` for a
/// duplicate-free seed list; the executable resolver proves as much by
/// returning a value this function equals.
pub open spec fn spec_finalize(reg: Seq<SpecPackage>, lk: Lookup, seeds: Seq<SpecPackage>) -> Option<
    Result<Seq<SpecPackage>, Seq<char>>,
> {
    fin_from(reg, lk, seeds, 0, 0, (reg.len() + 1) as nat)
}

/// Seeds looked up left to right: unknown ids and duplicates are refused,
/// each found package is appended.
pub open spec fn spec_add(
    reg: Seq<SpecPackage>,
    seeds: Seq<SpecPackage>,
    ids: Seq<Seq<char>>,
) -> Result<Seq<SpecPackage>, SpecTxError>
    decreases ids.len(),
{
    if ids.len() == 0 {
        Ok(seeds)
    } else if spec_contains_id(seeds, ids[0]) {
        Err(SpecTxError::DuplicateSeed(ids[0]))
    } else {
        match spec_by_id(reg, ids[0]) {
            None => Err(SpecTxError::UnknownSeed(ids[0])),
            Some(p) => spec_add(reg, seeds.push(p), ids.skip(1)),
        }
    }
}

/// Are all members of `done` drawn from `init` or `reg`?
pub open spec fn members_of(
    done: Seq<SpecPackage>,
    init: Seq<SpecPackage>,
    reg: Seq<SpecPackage>,
) -> bool {
    forall|k: int|
        0 <= k < done.len() ==> init.contains(#[trigger] done[k]) || reg.contains(done[k])
}

/// A duplicate-free list drawn from `init` and `reg` is no longer than the
/// two together.
pub proof fn lemma_done_len_bound(
    done: Seq<SpecPackage>,
    init: Seq<SpecPackage>,
    reg: Seq<SpecPackage>,
)
    requires
        done.no_duplicates(),
        members_of(done, init, reg),
    ensures
        done.len() <= init.len() + reg.len(),
{
    broadcast use vstd::seq_lib::seq_to_set_is_finite;

    done.unique_seq_to_set();
    init.lemma_cardinality_of_set();
    reg.lemma_cardinality_of_set();
    let u = init.to_set().union(reg.to_set());
    assert forall|x: SpecPackage| done.to_set().contains(x) implies u.contains(x) by {
        assert(done.contains(x));
        let k = choose|k: int| 0 <= k < done.len() && done[k] == x;
        assert(init.contains(done[k]) || reg.contains(done[k]));
    }
    assert(done.to_set().subset_of(u));
    vstd::set_lib::lemma_len_union(init.to_set(), reg.to_set());
    vstd::set_lib::lemma_len_subset(done.to_set(), u);
}

/// The first match of `s` under `pred`, executably.
fn first_match(reg: &Registry, token: &String, want_installed: bool) -> (r: Option<Package>)
    ensures
        r.deep_view() == spec_first(
            reg@,
            if want_installed {
                inst_pred(token@)
            } else {
                avail_pred(token@)
            },
        ),
{
    let ghost pred = if want_installed {
        inst_pred(token@)
    } else {
        avail_pred(token@)
    };
    let mut i: usize = 0;
    while i < reg.packages.len()
        invariant
            i <= reg.packages.len(),
            pred == (if want_installed {
                inst_pred(token@)
            } else {
                avail_pred(token@)
            }),
            spec_filter(reg@.take(i as int), pred).len() == 0,
        decreases reg.packages.len() - i,
    {
        let ghost prefix = reg@.take(i as int);
        let ghost cur = reg@[i as int];
        proof {
            assert(reg@.take(i + 1).drop_last() =~= prefix);
            assert(reg@.take(i + 1).last() == cur);
        }
        let flag_ok = if want_installed {
            reg.packages[i].flags.installed
        } else {
            reg.packages[i].flags.available
        };
        if flag_ok && crate::package::contains_token(&reg.packages[i].meta.providers, token) {
            let p = reg.packages[i].clone();
            proof {
                assert(pred(cur));
                assert(spec_filter(reg@.take(i + 1), pred) == spec_filter(prefix, pred).push(cur));
                assert(reg@ =~= reg@.take(i + 1) + reg@.skip(i + 1));
                lemma_filter_add(reg@.take(i + 1), reg@.skip(i + 1), pred);
                assert(spec_filter(reg@, pred)[0] == cur);
            }
            return Some(p);
        }
        proof {
            assert(!pred(cur));
            assert(spec_filter(reg@.take(i + 1), pred) == spec_filter(prefix, pred));
        }
        i += 1;
    }
    proof {
        assert(reg@.take(reg@.len() as int) =~= reg@);
    }
    None
}

/// The candidate the strategy picks for `token`, executably.
fn lookup_candidate(reg: &Registry, lk: Lookup, token: &String) -> (r: Option<Package>)
    ensures
        r.deep_view() == spec_candidate(reg@, lk, token@),
{
    match lk {
        Lookup::PreferAvailable => {
            let installed = first_match(reg, token, true);
            match installed {
                Some(p) => Some(p),
                None => first_match(reg, token, false),
            }
        },
        Lookup::AvailableOnly => first_match(reg, token, false),
    }
}

/// Does some member of `pkgs` export `token`?
fn provided_in(pkgs: &Vec<Package>, token: &String) -> (r: bool)
    ensures
        r == spec_any_provides(pkgs.deep_view(), token@),
{
    let mut i: usize = 0;
    while i < pkgs.len()
        invariant
            i <= pkgs.len(),
            forall|k: int| 0 <= k < i ==> !pkgs.deep_view()[k].provides(token@),
        decreases pkgs.len() - i,
    {
        if crate::package::contains_token(&pkgs[i].meta.providers, token) {
            proof {
                assert(pkgs.deep_view()[i as int].provides(token@));
            }
            return true;
        }
        i += 1;
    }
    false
}

/// Clones a package list, keeping its contents.
pub fn clone_packages(v: &Vec<Package>) -> (r: Vec<Package>)
    ensures
        r.deep_view() == v.deep_view(),
{
    let mut r: Vec<Package> = Vec::new();
    let mut i: usize = 0;
    while i < v.len()
        invariant
            i <= v.len(),
            r@.len() == i,
            forall|k: int| 0 <= k < i ==> r@[k]@ == v@[k]@,
        decreases v.len() - i,
    {
        r.push(v[i].clone());
        i += 1;
    }
    proof {
        assert forall|k: int| 0 <= k < v@.len() implies r.deep_view()[k] == v.deep_view()[k] by {
            assert(r@[k]@ == v@[k]@);
        }
        assert(r.deep_view() =~= v.deep_view());
    }
    r
}

/// An in-progress resolution: the lookup strategy and the seed packages
/// accumulated so far, pairwise distinct by id.
#[derive(Debug)]
pub struct Transaction {
    pub lookup: Lookup,
    pub seeds: Vec<Package>,
}

impl Transaction {
    /// Seed ids are pairwise distinct.
    pub open spec fn wf(self) -> bool {
        crate::registry::spec_unique_ids(self.seeds.deep_view())
    }

    /// Appends the packages the registry holds under `ids`, left to right.
    /// Fails on an id the registry does not know and on an id already
    /// seeded; on failure the transaction is unchanged.
    pub fn add(&mut self, reg: &Registry, ids: &Vec<String>) -> (r: Result<(), Error>)
        requires
            old(self).wf(),
        ensures
            final(self).wf(),
            final(self).lookup == old(self).lookup,
            match r {
                Ok(()) => spec_add(reg@, old(self).seeds.deep_view(), ids.deep_view()) == Ok::<
                    _,
                    SpecTxError,
                >(final(self).seeds.deep_view()),
                Err(e) => spec_add(reg@, old(self).seeds.deep_view(), ids.deep_view()) == Err::<
                    Seq<SpecPackage>,
                    _,
                >(e@) && *final(self) == *old(self),
            },
    {
        let ghost regv = reg@;
        let ghost init = self.seeds.deep_view();
        let ghost idsv = ids.deep_view();
        let mut acc = clone_packages(&self.seeds);
        proof {
            assert(idsv.skip(0) =~= idsv);
        }
        let mut i: usize = 0;
        while i < ids.len()
            invariant
                i <= ids.len(),
                regv == reg@,
                idsv == ids.deep_view(),
                init == old(self).seeds.deep_view(),
                *self == *old(self),
                old(self).wf(),
                crate::registry::spec_unique_ids(acc.deep_view()),
                spec_add(regv, init, idsv) == spec_add(regv, acc.deep_view(), idsv.skip(i as int)),
            decreases ids.len() - i,
        {
            let ghost accv = acc.deep_view();
            proof {
                assert(idsv.skip(i as int)[0] == idsv[i as int]);
                assert(idsv.skip(i as int).skip(1) =~= idsv.skip(i + 1));
            }
            if crate::package::contains_pkg_id(&acc, &ids[i]) {
                return Err(Error::DuplicateSeed(ids[i].clone()));
            }
            match reg.by_id(&ids[i]) {
                None => {
                    return Err(Error::UnknownSeed(ids[i].clone()));
                },
                Some(p) => {
                    let ghost pv = p@;
                    acc.push(p);
                    proof {
                        assert forall|k: int| 0 <= k < accv.push(pv).len() implies acc.deep_view()[k]
                            == accv.push(pv)[k] by {}
                        assert(acc.deep_view() =~= accv.push(pv));
                        assert forall|a: int, b: int|
                            0 <= a < b < acc.deep_view().len() implies acc.deep_view()[a].id
                            != acc.deep_view()[b].id by {
                            if b == accv.len() {
                                assert(!spec_contains_id(accv, idsv[i as int]));
                                assert(acc.deep_view()[b].id == idsv[i as int]);
                            }
                        }
                    }
                },
            }
            i += 1;
        }
        proof {
            assert(idsv.skip(idsv.len() as int).len() == 0);
        }
        self.seeds = acc;
        Ok(())
    }

    /// Closes the seed set over dependencies under this transaction's
    /// strategy. The result — the completed ordered list, or the first
    /// unsatisfiable token as `Error::MissingProvider` — is exactly what
    /// [`spec_finalize`] names for this registry and seed list.
    pub fn finalize(&self, reg: &Registry) -> (r: Result<Vec<Package>, Error>)
        requires
            self.wf(),
        ensures
            match r {
                Ok(v) => spec_finalize(reg@, self.lookup, self.seeds.deep_view()) == Some(Ok::<
                    _,
                    Seq<char>,
                >(v.deep_view())),
                Err(e) => e matches Error::MissingProvider(t) && spec_finalize(
                    reg@,
                    self.lookup,
                    self.seeds.deep_view(),
                ) == Some(Err::<Seq<SpecPackage>, _>(t@)),
            },
    {
        let ghost regv = reg@;
        let ghost lk = self.lookup;
        let ghost init = self.seeds.deep_view();
        let ghost fuel0: nat = (regv.len() + 1) as nat;
        let mut result = clone_packages(&self.seeds);
        proof {
            assert forall|a: int, b: int|
                0 <= a < b < init.len() implies init[a] != init[b] by {
                assert(init[a].id != init[b].id);
            }
            assert(init.no_duplicates());
            assert(members_of(init, init, regv));
        }
        let mut i: usize = 0;
        while i < result.len()
            invariant
                regv == reg@,
                lk == self.lookup,
                init == self.seeds.deep_view(),
                fuel0 == (regv.len() + 1) as nat,
                i <= result.len(),
                result.deep_view().no_duplicates(),
                members_of(result.deep_view(), init, regv),
                init.len() <= result.deep_view().len(),
                result.deep_view().len() <= init.len() + regv.len(),
                fin_from(regv, lk, init, 0, 0, fuel0) == fin_from(
                    regv,
                    lk,
                    result.deep_view(),
                    i as int,
                    0,
                    (fuel0 - (result.deep_view().len() - init.len())) as nat,
                ),
            decreases init.len() + regv.len() - i,
        {
            let deps = crate::package::clone_strings(&result[i].meta.dependencies);
            let mut j: usize = 0;
            proof {
                assert(deps.deep_view() == result.deep_view()[i as int].meta.dependencies);
            }
            while j < deps.len()
                invariant
                    regv == reg@,
                    lk == self.lookup,
                    init == self.seeds.deep_view(),
                    fuel0 == (regv.len() + 1) as nat,
                    i < result.len(),
                    j <= deps.len(),
                    deps.deep_view() == result.deep_view()[i as int].meta.dependencies,
                    result.deep_view().no_duplicates(),
                    members_of(result.deep_view(), init, regv),
                    init.len() <= result.deep_view().len(),
                    result.deep_view().len() <= init.len() + regv.len(),
                    fin_from(regv, lk, init, 0, 0, fuel0) == fin_from(
                        regv,
                        lk,
                        result.deep_view(),
                        i as int,
                        j as int,
                        (fuel0 - (result.deep_view().len() - init.len())) as nat,
                    ),
                decreases deps.len() - j,
            {
                let ghost dv = result.deep_view();
                let ghost fuel_now: nat = (fuel0 - (dv.len() - init.len())) as nat;
                let token = &deps[j];
                let ghost tokv = deps.deep_view()[j as int];
                proof {
                    assert(token@ == tokv);
                    assert(dv[i as int].meta.dependencies[j as int] == tokv);
                }
                if !provided_in(&result, token) {
                    match lookup_candidate(reg, self.lookup, token) {
                        None => {
                            proof {
                                assert(fin_from(regv, lk, dv, i as int, j as int, fuel_now)
                                    == Some(Err::<Seq<SpecPackage>, _>(tokv)));
                            }
                            return Err(Error::MissingProvider(token.clone()));
                        },
                        Some(c) => {
                            let ghost cv = c@;
                            proof {
                                // the candidate exports the token, so it is
                                // none of the current members
                                lemma_filter_membership(
                                    regv,
                                    match lk {
                                        Lookup::PreferAvailable => if spec_first(
                                            regv,
                                            inst_pred(tokv),
                                        ) is Some {
                                            inst_pred(tokv)
                                        } else {
                                            avail_pred(tokv)
                                        },
                                        Lookup::AvailableOnly => avail_pred(tokv),
                                    },
                                );
                                assert(regv.contains(cv));
                                assert(cv.provides(tokv));
                                assert forall|k: int| 0 <= k < dv.len() implies dv[k] != cv by {
                                    assert(!dv[k].provides(tokv));
                                }
                                lemma_done_len_bound(dv, init, regv);
                            }
                            let ghost rv = result@;
                            result.push(c);
                            proof {
                                assert forall|k: int|
                                    0 <= k < dv.push(cv).len() implies result.deep_view()[k]
                                    == dv.push(cv)[k] by {
                                    if k < dv.len() {
                                        assert(result@[k] == rv[k]);
                                    }
                                }
                                assert(result.deep_view() =~= dv.push(cv));
                                let dv2 = result.deep_view();
                                assert forall|a: int, b: int|
                                    0 <= a < b < dv2.len() implies dv2[a] != dv2[b] by {
                                    if b == dv.len() {
                                        assert(dv2[a] == dv[a] && dv2[b] == cv);
                                    }
                                }
                                assert(dv2.no_duplicates());
                                lemma_done_len_bound(dv2, init, regv);
                                assert(fuel_now >= 1);
                                assert(fin_from(regv, lk, dv, i as int, j as int, fuel_now)
                                    == fin_from(
                                    regv,
                                    lk,
                                    dv2,
                                    i as int,
                                    j + 1,
                                    (fuel_now - 1) as nat,
                                ));
                                assert(dv2[i as int] == dv[i as int]);
                            }
                        },
                    }
                } else {
                    proof {
                        assert(fin_from(regv, lk, dv, i as int, j as int, fuel_now) == fin_from(
                            regv,
                            lk,
                            dv,
                            i as int,
                            j + 1,
                            fuel_now,
                        ));
                    }
                }
                j += 1;
            }
            proof {
                let dv = result.deep_view();
                let fuel_now: nat = (fuel0 - (dv.len() - init.len())) as nat;
                assert(fin_from(regv, lk, dv, i as int, deps.len() as int, fuel_now) == fin_from(
                    regv,
                    lk,
                    dv,
                    i + 1,
                    0,
                    fuel_now,
                ));
            }
            i += 1;
        }
        proof {
            let dv = result.deep_view();
            let fuel_now: nat = (fuel0 - (dv.len() - init.len())) as nat;
            assert(fin_from(regv, lk, dv, i as int, 0, fuel_now) == Some(Ok::<_, Seq<char>>(dv)));
        }
        Ok(result)
    }
}

impl Registry {
    /// Begins a new resolution context under strategy `lookup`.
    pub fn transaction(&self, lookup: Lookup) -> (tx: Transaction)
        ensures
            tx.wf(),
            tx.lookup == lookup,
            tx.seeds.deep_view() == Seq::<SpecPackage>::empty(),
    {
        let tx = Transaction { lookup, seeds: Vec::new() };
        proof {
            assert(tx.seeds.deep_view() =~= Seq::<SpecPackage>::empty());
        }
        tx
    }
}

} // verus!

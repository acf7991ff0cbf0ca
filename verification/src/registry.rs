//! The package registry: a read-only index over the full known package
//! universe (installed packages and every enabled repository's
//! advertisements), answering identity, name, and capability queries.
//!
//! The registry keeps its records ordered by repository priority, highest
//! first, records with equal priority staying in insertion order; ids are
//! unique. Every query preserves that order, so the first hit of a query is
//! always a highest-priority match.

use vstd::prelude::*;

use crate::package::{Flags, Package, SpecPackage};

verus! {

/// Keeps the elements of `s` that satisfy `pred`, in order.
pub open spec fn spec_filter<A>(s: Seq<A>, pred: spec_fn(A) -> bool) -> Seq<A>
    decreases s.len(),
{
    if s.len() == 0 {
        Seq::empty()
    } else {
        let rest = spec_filter(s.drop_last(), pred);
        if pred(s.last()) {
            rest.push(s.last())
        } else {
            rest
        }
    }
}

/// The first element of `s` satisfying `pred`, if any.
pub open spec fn spec_find<A>(s: Seq<A>, pred: spec_fn(A) -> bool) -> Option<A>
    decreases s.len(),
{
    if s.len() == 0 {
        None
    } else if pred(s[0]) {
        Some(s[0])
    } else {
        spec_find(s.skip(1), pred)
    }
}

/// Skipping elements that do not match leaves the search unchanged.
pub proof fn lemma_find_skip<A>(s: Seq<A>, pred: spec_fn(A) -> bool, n: int)
    requires
        0 <= n <= s.len(),
        forall|k: int| 0 <= k < n ==> !pred(#[trigger] s[k]),
    ensures
        spec_find(s, pred) == spec_find(s.skip(n), pred),
    decreases n,
{
    if n == 0 {
        assert(s.skip(0) =~= s);
    } else {
        assert(!pred(s[0]));
        assert(forall|k: int| 0 <= k < n - 1 ==> #[trigger] s.skip(1)[k] == s[k + 1]);
        lemma_find_skip(s.skip(1), pred, n - 1);
        assert(s.skip(1).skip(n - 1) =~= s.skip(n));
    }
}

/// Is `s` ordered by priority, highest first?
pub open spec fn spec_sorted_by_priority(s: Seq<SpecPackage>) -> bool {
    forall|i: int, j: int| 0 <= i < j < s.len() ==> s[i].priority >= s[j].priority
}

/// Are the ids of `s` pairwise distinct?
pub open spec fn spec_unique_ids(s: Seq<SpecPackage>) -> bool {
    forall|i: int, j: int| 0 <= i < j < s.len() ==> s[i].id != s[j].id
}

pub proof fn lemma_filter_add<A>(a: Seq<A>, b: Seq<A>, pred: spec_fn(A) -> bool)
    ensures
        spec_filter(a + b, pred) == spec_filter(a, pred) + spec_filter(b, pred),
    decreases b.len(),
{
    if b.len() == 0 {
        assert(a + b =~= a);
        assert(spec_filter(a, pred) + spec_filter(b, pred) =~= spec_filter(a, pred));
    } else {
        lemma_filter_add(a, b.drop_last(), pred);
        assert((a + b).drop_last() =~= a + b.drop_last());
        assert((a + b).last() == b.last());
        if pred(b.last()) {
            assert(spec_filter(a, pred) + spec_filter(b, pred) =~= (spec_filter(a, pred)
                + spec_filter(b.drop_last(), pred)).push(b.last()));
        }
    }
}

/// Every kept element comes from `s` and satisfies `pred`; every element of
/// `s` satisfying `pred` is kept.
pub proof fn lemma_filter_membership<A>(s: Seq<A>, pred: spec_fn(A) -> bool)
    ensures
        forall|j: int|
            0 <= j < spec_filter(s, pred).len() ==> pred(#[trigger] spec_filter(s, pred)[j])
                && s.contains(spec_filter(s, pred)[j]),
        forall|k: int| 0 <= k < s.len() && pred(#[trigger] s[k]) ==> spec_filter(s, pred).contains(
            s[k],
        ),
    decreases s.len(),
{
    if s.len() > 0 {
        lemma_filter_membership(s.drop_last(), pred);
        let f = spec_filter(s, pred);
        let fr = spec_filter(s.drop_last(), pred);
        assert forall|j: int| 0 <= j < f.len() implies pred(#[trigger] f[j]) && s.contains(
            f[j],
        ) by {
            if j < fr.len() {
                assert(f[j] == fr[j]);
                let k = choose|k: int| 0 <= k < s.drop_last().len() && s.drop_last()[k] == fr[j];
                assert(s[k] == fr[j]);
            } else {
                assert(s[s.len() - 1] == s.last());
            }
        }
        assert forall|k: int| 0 <= k < s.len() && pred(#[trigger] s[k]) implies f.contains(
            s[k],
        ) by {
            if k < s.len() - 1 {
                assert(s.drop_last()[k] == s[k]);
                let j = choose|j: int| 0 <= j < fr.len() && fr[j] == s[k];
                assert(f[j] == s[k]);
            } else {
                assert(f.last() == s[k]);
            }
        }
    }
}

/// Nothing is kept exactly when nothing satisfies `pred`.
pub proof fn lemma_filter_empty<A>(s: Seq<A>, pred: spec_fn(A) -> bool)
    ensures
        spec_filter(s, pred).len() == 0 <==> (forall|k: int| 0 <= k < s.len() ==> !pred(
            #[trigger] s[k],
        )),
{
    lemma_filter_membership(s, pred);
    if spec_filter(s, pred).len() > 0 {
        assert(s.contains(spec_filter(s, pred)[0]));
    }
}

/// A filter whose predicate holds everywhere keeps everything.
pub proof fn lemma_filter_all<A>(s: Seq<A>, pred: spec_fn(A) -> bool)
    requires
        forall|k: int| 0 <= k < s.len() ==> pred(#[trigger] s[k]),
    ensures
        spec_filter(s, pred) == s,
    decreases s.len(),
{
    if s.len() > 0 {
        assert(forall|k: int| 0 <= k < s.drop_last().len() ==> #[trigger] s.drop_last()[k] == s[k]);
        lemma_filter_all(s.drop_last(), pred);
        assert(spec_filter(s, pred) =~= s);
    }
}

/// Filtering keeps the priority order.
pub proof fn lemma_filter_sorted(s: Seq<SpecPackage>, pred: spec_fn(SpecPackage) -> bool)
    requires
        spec_sorted_by_priority(s),
    ensures
        spec_sorted_by_priority(spec_filter(s, pred)),
    decreases s.len(),
{
    if s.len() > 0 {
        assert(spec_sorted_by_priority(s.drop_last())) by {
            assert(forall|i: int, j: int|
                0 <= i < j < s.drop_last().len() ==> s.drop_last()[i] == s[i]
                    && s.drop_last()[j] == s[j]);
        }
        lemma_filter_sorted(s.drop_last(), pred);
        lemma_filter_membership(s.drop_last(), pred);
        if pred(s.last()) {
            let fr = spec_filter(s.drop_last(), pred);
            assert forall|i: int, j: int|
                0 <= i < j < fr.push(s.last()).len() implies fr.push(s.last())[i].priority
                >= fr.push(s.last())[j].priority by {
                if j == fr.len() {
                    let k = choose|k: int|
                        0 <= k < s.drop_last().len() && s.drop_last()[k] == fr[i];
                    assert(s[k] == fr[i]);
                    assert(s[k].priority >= s[s.len() - 1].priority);
                }
            }
        }
    }
}

/// The head of a non-empty filtered list carries a priority at least that of
/// every element of `s` satisfying `pred`.
pub proof fn lemma_filter_first_max_priority(
    s: Seq<SpecPackage>,
    pred: spec_fn(SpecPackage) -> bool,
)
    requires
        spec_sorted_by_priority(s),
        spec_filter(s, pred).len() > 0,
    ensures
        forall|k: int|
            0 <= k < s.len() && pred(#[trigger] s[k]) ==> spec_filter(s, pred)[0].priority
                >= s[k].priority,
{
    lemma_filter_sorted(s, pred);
    lemma_filter_membership(s, pred);
    assert forall|k: int|
        0 <= k < s.len() && pred(#[trigger] s[k]) implies spec_filter(s, pred)[0].priority
        >= s[k].priority by {
        let f = spec_filter(s, pred);
        assert(f.contains(s[k]));
        let j = choose|j: int| 0 <= j < f.len() && f[j] == s[k];
        if j > 0 {
            assert(f[0].priority >= f[j].priority);
        }
    }
}

/// The index the registry stores a new record of priority `pr` at: after
/// every record of priority `pr` or higher.
pub open spec fn spec_insert_pos(s: Seq<SpecPackage>, pr: u64) -> int
    decreases s.len(),
{
    if s.len() == 0 {
        0
    } else if s[0].priority < pr {
        0
    } else {
        1 + spec_insert_pos(s.skip(1), pr)
    }
}

pub proof fn lemma_insert_pos_bounds(s: Seq<SpecPackage>, pr: u64)
    ensures
        0 <= spec_insert_pos(s, pr) <= s.len(),
        forall|i: int| 0 <= i < spec_insert_pos(s, pr) ==> #[trigger] s[i].priority >= pr,
        spec_insert_pos(s, pr) < s.len() ==> s[spec_insert_pos(s, pr)].priority < pr,
    decreases s.len(),
{
    if s.len() > 0 && s[0].priority >= pr {
        lemma_insert_pos_bounds(s.skip(1), pr);
        let pos = spec_insert_pos(s, pr);
        assert forall|i: int| 0 <= i < pos implies #[trigger] s[i].priority >= pr by {
            if i > 0 {
                assert(s.skip(1)[i - 1] == s[i]);
                assert(s.skip(1)[i - 1].priority >= pr);
            }
        }
        if pos < s.len() {
            assert(s.skip(1)[pos - 1] == s[pos]);
        }
    }
}

/// A position with the characteristic property is the insertion position.
pub proof fn lemma_insert_pos_unique(s: Seq<SpecPackage>, pr: u64, k: int)
    requires
        0 <= k <= s.len(),
        forall|i: int| 0 <= i < k ==> #[trigger] s[i].priority >= pr,
        k < s.len() ==> s[k].priority < pr,
    ensures
        spec_insert_pos(s, pr) == k,
    decreases s.len(),
{
    if s.len() > 0 {
        if k == 0 {
            if s[0].priority >= pr {
                // then k < s.len() and s[0].priority < pr: contradiction
                assert(s[0].priority < pr);
            }
        } else {
            assert(s[0].priority >= pr);
            assert(forall|i: int| 0 <= i < k - 1 ==> #[trigger] s.skip(1)[i] == s[i + 1]);
            if k - 1 < s.skip(1).len() {
                assert(s.skip(1)[k - 1] == s[k]);
            }
            lemma_insert_pos_unique(s.skip(1), pr, k - 1);
        }
    }
}

/// The first record of `s` whose id is `id`, if any.
pub open spec fn spec_by_id(s: Seq<SpecPackage>, id: Seq<char>) -> Option<SpecPackage>
    decreases s.len(),
{
    if s.len() == 0 {
        None
    } else if s[0].id == id {
        Some(s[0])
    } else {
        spec_by_id(s.skip(1), id)
    }
}

/// Skipping records that do not match leaves the lookup unchanged.
pub proof fn lemma_by_id_skip(s: Seq<SpecPackage>, id: Seq<char>, n: int)
    requires
        0 <= n <= s.len(),
        forall|k: int| 0 <= k < n ==> s[k].id != id,
    ensures
        spec_by_id(s, id) == spec_by_id(s.skip(n), id),
    decreases n,
{
    if n == 0 {
        assert(s.skip(0) =~= s);
    } else {
        assert(s[0].id != id);
        assert(forall|k: int| 0 <= k < n - 1 ==> #[trigger] s.skip(1)[k] == s[k + 1]);
        lemma_by_id_skip(s.skip(1), id, n - 1);
        assert(s.skip(1).skip(n - 1) =~= s.skip(n));
    }
}

/// The registry: every package record known to the system, ordered by
/// repository priority (highest first) with unique ids.
#[derive(Debug)]
pub struct Registry {
    pub packages: Vec<Package>,
}

impl View for Registry {
    type V = Seq<SpecPackage>;

    open spec fn view(&self) -> Seq<SpecPackage> {
        self.packages.deep_view()
    }
}

impl Registry {
    /// Well-formedness: priority order and unique ids.
    pub open spec fn wf(self) -> bool {
        &&& spec_sorted_by_priority(self@)
        &&& spec_unique_ids(self@)
    }

    /// An empty registry.
    pub fn new() -> (r: Registry)
        ensures
            r.wf(),
            r@.len() == 0,
    {
        Registry { packages: Vec::new() }
    }

    /// Adds a record, keeping priority order (after existing records of
    /// equal priority). A record whose id is already present is refused and
    /// nothing changes.
    pub fn add_package(&mut self, p: Package) -> (added: bool)
        requires
            old(self).wf(),
        ensures
            final(self).wf(),
            added == !crate::package::spec_contains_id(old(self)@, p@.id),
            added ==> final(self)@ == old(self)@.insert(
                spec_insert_pos(old(self)@, p@.priority),
                p@,
            ),
            !added ==> final(self)@ == old(self)@,
    {
        let ghost s = old(self)@;
        let mut i: usize = 0;
        // refuse a duplicate id
        while i < self.packages.len()
            invariant
                self@ == old(self)@,
                old(self).wf(),
                i <= self.packages.len(),
                forall|k: int| 0 <= k < i ==> old(self)@[k].id != p@.id,
            decreases self.packages.len() - i,
        {
            if self.packages[i].id == p.id {
                proof {
                    assert(old(self)@[i as int].id == p@.id);
                }
                return false;
            }
            i += 1;
        }
        // find the insertion position
        let mut pos: usize = 0;
        while pos < self.packages.len() && self.packages[pos].priority >= p.priority
            invariant
                self@ == old(self)@,
                pos <= self.packages.len(),
                forall|k: int| 0 <= k < pos ==> #[trigger] old(self)@[k].priority >= p@.priority,
            decreases self.packages.len() - pos,
        {
            pos += 1;
        }
        proof {
            lemma_insert_pos_unique(s, p@.priority, pos as int);
        }
        self.packages.insert(pos, p);
        proof {
            let t = self@;
            let q = s.insert(pos as int, p@);
            assert forall|k: int| 0 <= k < t.len() implies t[k] == q[k] by {
                assert(t[k] == self.packages@[k]@);
                if k < pos {
                    assert(self.packages@[k]@ == s[k]);
                } else if k > pos {
                    assert(self.packages@[k]@ == s[k - 1]);
                }
            }
            assert(t =~= q);
            lemma_insert_pos_bounds(s, p@.priority);
            assert forall|a: int, b: int| 0 <= a < b < t.len() implies t[a].priority
                >= t[b].priority by {
                let pi = pos as int;
                if a < pi && b > pi {
                    assert(t[a] == s[a] && t[b] == s[b - 1]);
                    if b - 1 > a {
                        assert(s[a].priority >= s[b - 1].priority);
                    }
                } else if a == pi && b > pi {
                    assert(t[b] == s[b - 1] && b - 1 >= pi);
                    if b - 1 == pi {
                        assert(s[pi].priority < p@.priority);
                    } else {
                        assert(s[pi].priority >= s[b - 1].priority);
                    }
                } else if a < pi && b == pi {
                    assert(t[a] == s[a] && s[a].priority >= p@.priority);
                } else if a > pi && b > pi {
                    assert(t[a] == s[a - 1] && t[b] == s[b - 1]);
                }
            }
            assert forall|a: int, b: int| 0 <= a < b < t.len() implies t[a].id != t[b].id by {
                let pi = pos as int;
                if a == pi {
                    assert(t[b] == s[b - 1]);
                    assert(!crate::package::spec_contains_id(s, p@.id));
                } else if b == pi {
                    assert(t[a] == s[a]);
                    assert(!crate::package::spec_contains_id(s, p@.id));
                }
            }
        }
        true
    }

    /// Exact identity lookup: the first record with id `id`, if any (with a
    /// well-formed registry, the only one).
    pub fn by_id(&self, id: &String) -> (r: Option<Package>)
        ensures
            r.deep_view() == spec_by_id(self@, id@),
            r matches Some(p) ==> p@.id == id@ && self@.contains(p@),
            r is None <==> !crate::package::spec_contains_id(self@, id@),
    {
        let mut i: usize = 0;
        while i < self.packages.len()
            invariant
                i <= self.packages.len(),
                forall|k: int| 0 <= k < i ==> self@[k].id != id@,
            decreases self.packages.len() - i,
        {
            if self.packages[i].id == *id {
                let p = self.packages[i].clone();
                proof {
                    lemma_by_id_skip(self@, id@, i as int);
                    assert(self@.skip(i as int)[0] == self@[i as int]);
                    assert(self@[i as int] == p@ && p@.id == id@);
                    assert(self@.contains(p@));
                }
                return Some(p);
            }
            i += 1;
        }
        proof {
            lemma_by_id_skip(self@, id@, self@.len() as int);
            assert(self@.skip(self@.len() as int).len() == 0);
            if crate::package::spec_contains_id(self@, id@) {
                let k = choose|k: int| 0 <= k < self@.len() && self@[k].id == id@;
            }
        }
        None
    }

    /// The query predicate of [`Registry::by_name`].
    pub open spec fn name_pred(name: Seq<char>, flags: Flags) -> spec_fn(SpecPackage) -> bool {
        |p: SpecPackage| p.meta.name == name && flags.spec_matches(p.flags)
    }

    /// All records named `name` that carry the requested flags, in priority
    /// order (highest first).
    pub fn by_name(&self, name: &String, flags: Flags) -> (r: Vec<Package>)
        ensures
            r.deep_view() == spec_filter(self@, Registry::name_pred(name@, flags)),
    {
        let mut r: Vec<Package> = Vec::new();
        let ghost pred = Registry::name_pred(name@, flags);
        let mut i: usize = 0;
        while i < self.packages.len()
            invariant
                i <= self.packages.len(),
                pred == Registry::name_pred(name@, flags),
                r.deep_view() == spec_filter(self@.take(i as int), pred),
            decreases self.packages.len() - i,
        {
            let ghost prefix = self@.take(i as int);
            let ghost cur = self@[i as int];
            proof {
                assert(self@.take(i + 1).drop_last() =~= prefix);
                assert(self@.take(i + 1).last() == cur);
            }
            if self.packages[i].meta.name == *name && flags.matches(self.packages[i].flags) {
                let ghost before = r.deep_view();
                let ghost rv = r@;
                r.push(self.packages[i].clone());
                proof {
                    assert(pred(cur));
                    assert(spec_filter(self@.take(i + 1), pred) == spec_filter(prefix, pred).push(
                        cur,
                    ));
                    assert forall|k: int| 0 <= k < before.push(cur).len() implies r.deep_view()[k]
                        == before.push(cur)[k] by {
                        if k < before.len() {
                            assert(r@[k] == rv[k]);
                            assert(r.deep_view()[k] == rv[k].deep_view());
                        } else {
                            assert(r.deep_view()[k] == r@[k].deep_view());
                        }
                    }
                    assert(r.deep_view() =~= before.push(cur));
                }
            } else {
                proof {
                    assert(!pred(cur));
                    assert(spec_filter(self@.take(i + 1), pred) == spec_filter(prefix, pred));
                }
            }
            i += 1;
        }
        proof {
            assert(self@.take(self@.len() as int) =~= self@);
        }
        r
    }

    /// The query predicate of [`Registry::by_provider_id_only`].
    pub open spec fn provider_pred(token: Seq<char>, flags: Flags) -> spec_fn(SpecPackage) -> bool {
        |p: SpecPackage| p.provides(token) && flags.spec_matches(p.flags)
    }

    /// All records exporting capability `token` that carry the requested
    /// flags, in priority order (highest first).
    pub fn by_provider_id_only(&self, token: &String, flags: Flags) -> (r: Vec<Package>)
        ensures
            r.deep_view() == spec_filter(self@, Registry::provider_pred(token@, flags)),
    {
        let mut r: Vec<Package> = Vec::new();
        let ghost pred = Registry::provider_pred(token@, flags);
        let mut i: usize = 0;
        while i < self.packages.len()
            invariant
                i <= self.packages.len(),
                pred == Registry::provider_pred(token@, flags),
                r.deep_view() == spec_filter(self@.take(i as int), pred),
            decreases self.packages.len() - i,
        {
            let ghost prefix = self@.take(i as int);
            proof {
                assert(self@.take(i + 1).drop_last() =~= prefix);
                assert(self@.take(i + 1).last() == self@[i as int]);
            }
            if crate::package::contains_token(&self.packages[i].meta.providers, token)
                && flags.matches(self.packages[i].flags) {
                let ghost before = r.deep_view();
                r.push(self.packages[i].clone());
                proof {
                    assert(r.deep_view() =~= before.push(self@[i as int]));
                }
            } else {
                proof {
                    assert(!pred(self@[i as int]));
                }
            }
            i += 1;
        }
        proof {
            assert(self@.take(self@.len() as int) =~= self@);
        }
        r
    }

    /// The query predicate of [`Registry::list_installed`].
    pub open spec fn installed_pred() -> spec_fn(SpecPackage) -> bool {
        |p: SpecPackage| p.flags.installed
    }

    /// All records currently applied to the root filesystem, in priority
    /// order (highest first).
    pub fn list_installed(&self) -> (r: Vec<Package>)
        ensures
            r.deep_view() == spec_filter(self@, Registry::installed_pred()),
    {
        let mut r: Vec<Package> = Vec::new();
        let ghost pred = Registry::installed_pred();
        let mut i: usize = 0;
        while i < self.packages.len()
            invariant
                i <= self.packages.len(),
                pred == Registry::installed_pred(),
                r.deep_view() == spec_filter(self@.take(i as int), pred),
            decreases self.packages.len() - i,
        {
            let ghost prefix = self@.take(i as int);
            proof {
                assert(self@.take(i + 1).drop_last() =~= prefix);
                assert(self@.take(i + 1).last() == self@[i as int]);
            }
            if self.packages[i].flags.installed {
                let ghost before = r.deep_view();
                r.push(self.packages[i].clone());
                proof {
                    assert(r.deep_view() =~= before.push(self@[i as int]));
                }
            }
            i += 1;
        }
        proof {
            assert(self@.take(self@.len() as int) =~= self@);
        }
        r
    }
}

} // verus!

//! States (generations): immutable, numbered snapshots of a resolved
//! package selection, and the append-only store that holds them.
//!
//! A state's id is allocated monotonically; once created, a state's
//! selection list never changes. Exactly one state is active at a time;
//! the active pointer lives with the client, not the store. Pruning
//! removes archived states under a strategy and never the active one.

use vstd::prelude::*;

use crate::registry::{spec_filter, spec_find, lemma_find_skip};

verus! {

/// Mathematical model of [`Selection`].
#[verifier::ext_equal]
pub struct SpecSelection {
    pub package: Seq<char>,
    pub explicit: bool,
    pub reason: Option<Seq<char>>,
}

/// Why a package is part of a state: selected directly (`explicit`) or
/// pulled in to satisfy a dependency. The package is referenced by id
/// only and re-resolved against the registry at read time.
#[derive(Debug)]
pub struct Selection {
    pub package: String,
    pub explicit: bool,
    pub reason: Option<String>,
}

impl View for Selection {
    type V = SpecSelection;

    open spec fn view(&self) -> SpecSelection {
        SpecSelection {
            package: self.package@,
            explicit: self.explicit,
            reason: self.reason.deep_view(),
        }
    }
}

impl DeepView for Selection {
    type V = SpecSelection;

    open spec fn deep_view(&self) -> SpecSelection {
        self.view()
    }
}

impl Clone for Selection {
    fn clone(&self) -> (r: Selection)
        ensures
            r@ == self@,
    {
        Selection {
            package: self.package.clone(),
            explicit: self.explicit,
            reason: match &self.reason {
                Some(t) => Some(t.clone()),
                None => None,
            },
        }
    }
}

/// Mathematical model of [`State`].
#[verifier::ext_equal]
pub struct SpecState {
    pub id: u64,
    pub created: u64,
    pub summary: Option<Seq<char>>,
    pub description: Option<Seq<char>>,
    pub selections: Seq<SpecSelection>,
}

/// An immutable, numbered snapshot: id, creation time (seconds since the
/// epoch, supplied by the caller's clock), optional summary and
/// description, and the ordered selection list.
#[derive(Debug)]
pub struct State {
    pub id: u64,
    pub created: u64,
    pub summary: Option<String>,
    pub description: Option<String>,
    pub selections: Vec<Selection>,
}

impl View for State {
    type V = SpecState;

    open spec fn view(&self) -> SpecState {
        SpecState {
            id: self.id,
            created: self.created,
            summary: self.summary.deep_view(),
            description: self.description.deep_view(),
            selections: self.selections.deep_view(),
        }
    }
}

impl DeepView for State {
    type V = SpecState;

    open spec fn deep_view(&self) -> SpecState {
        self.view()
    }
}

/// Clones a selection list, keeping its contents.
pub fn clone_selections(v: &Vec<Selection>) -> (r: Vec<Selection>)
    ensures
        r.deep_view() == v.deep_view(),
{
    let mut r: Vec<Selection> = Vec::new();
    let mut i: usize = 0;
    while i < v.len()
        invariant
            i <= v.len(),
            r@.len() == i,
            forall|k: int| 0 <= k < i ==> r@[k]@ == v@[k]@,
        decreases v.len() - i,
    {
        r.push(v[i].clone());
        i += 1;
    }
    proof {
        assert forall|k: int| 0 <= k < v@.len() implies r.deep_view()[k] == v.deep_view()[k] by {
            assert(r@[k]@ == v@[k]@);
        }
        assert(r.deep_view() =~= v.deep_view());
    }
    r
}

impl Clone for State {
    fn clone(&self) -> (r: State)
        ensures
            r@ == self@,
    {
        State {
            id: self.id,
            created: self.created,
            summary: match &self.summary {
                Some(t) => Some(t.clone()),
                None => None,
            },
            description: match &self.description {
                Some(t) => Some(t.clone()),
                None => None,
            },
            selections: clone_selections(&self.selections),
        }
    }
}

/// A failed state operation.
#[derive(Clone, Copy, PartialEq, Eq, Structural, Debug)]
pub enum Error {
    /// No state carries this id.
    NotFound(u64),
    /// The id names the active state, which can never be removed.
    CannotRemoveActive(u64),
}

/// How archived states are pruned.
#[derive(Clone, Copy, PartialEq, Eq, Structural, Debug)]
pub enum Strategy {
    /// Retain the `keep` most recent removal candidates; unless
    /// `include_newer` is set, states newer than the active one are never
    /// candidates. The active state never is.
    KeepRecent { keep: u64, include_newer: bool },
    /// Remove exactly one archived (non-active) state.
    Remove(u64),
}

/// May `st` be removed at all under a keep-recent prune?
pub open spec fn spec_prune_candidate(st: SpecState, active: Option<u64>, include_newer: bool) -> bool {
    match active {
        None => true,
        Some(a) => st.id != a && (include_newer || st.id < a),
    }
}

/// The removal candidates of a keep-recent prune, oldest first.
pub open spec fn spec_prune_candidates(
    states: Seq<SpecState>,
    active: Option<u64>,
    include_newer: bool,
) -> Seq<SpecState> {
    spec_filter(states, |st: SpecState| spec_prune_candidate(st, active, include_newer))
}

/// What a keep-recent prune removes: all candidates but the `keep` most
/// recent ones.
pub open spec fn spec_keep_recent_victims(
    states: Seq<SpecState>,
    active: Option<u64>,
    keep: u64,
    include_newer: bool,
) -> Seq<SpecState> {
    let c = spec_prune_candidates(states, active, include_newer);
    if c.len() > keep {
        c.take(c.len() - keep)
    } else {
        Seq::empty()
    }
}

/// Are the ids of `s` strictly ascending?
pub open spec fn spec_ids_ascending(s: Seq<SpecState>) -> bool {
    forall|i: int, j: int| 0 <= i < j < s.len() ==> s[i].id < s[j].id
}

/// Filtering keeps ids strictly ascending.
pub proof fn lemma_state_filter_ascending(s: Seq<SpecState>, pred: spec_fn(SpecState) -> bool)
    requires
        spec_ids_ascending(s),
    ensures
        spec_ids_ascending(spec_filter(s, pred)),
    decreases s.len(),
{
    if s.len() > 0 {
        assert(spec_ids_ascending(s.drop_last())) by {
            assert(forall|i: int, j: int|
                0 <= i < j < s.drop_last().len() ==> s.drop_last()[i] == s[i]
                    && s.drop_last()[j] == s[j]);
        }
        lemma_state_filter_ascending(s.drop_last(), pred);
        crate::registry::lemma_filter_membership(s.drop_last(), pred);
        if pred(s.last()) {
            let fr = spec_filter(s.drop_last(), pred);
            assert forall|i: int, j: int|
                0 <= i < j < fr.push(s.last()).len() implies fr.push(s.last())[i].id < fr.push(
                s.last(),
            )[j].id by {
                if j == fr.len() {
                    let k = choose|k: int|
                        0 <= k < s.drop_last().len() && s.drop_last()[k] == fr[i];
                    assert(s[k] == fr[i]);
                    assert(s[k].id < s[s.len() - 1].id);
                }
            }
        }
    }
}

/// With ascending ids, the state at a matching index is the find result.
pub proof fn lemma_find_state_by_id(s: Seq<SpecState>, id: u64, k: int)
    requires
        spec_ids_ascending(s),
        0 <= k < s.len(),
        s[k].id == id,
    ensures
        spec_find(s, |st: SpecState| st.id == id) == Some(s[k]),
{
    let pred = |st: SpecState| st.id == id;
    assert forall|m: int| 0 <= m < k implies !pred(#[trigger] s[m]) by {
        assert(s[m].id < s[k].id);
    }
    lemma_find_skip(s, pred, k);
    assert(s.skip(k)[0] == s[k]);
}

/// A successful find means the id is present.
pub proof fn lemma_find_state_found(s: Seq<SpecState>, id: u64)
    requires
        spec_find(s, |st: SpecState| st.id == id) is Some,
    ensures
        spec_contains_state(s, id),
    decreases s.len(),
{
    let pred = |st: SpecState| st.id == id;
    if s.len() > 0 {
        if pred(s[0]) {
            assert(s[0].id == id);
        } else {
            lemma_find_state_found(s.skip(1), id);
            let k = choose|k: int| 0 <= k < s.skip(1).len() && s.skip(1)[k].id == id;
            assert(s[k + 1].id == id);
        }
    }
}

/// The append-only store of states, ascending by id.
#[derive(Debug)]
pub struct StateDb {
    pub states: Vec<State>,
}

impl View for StateDb {
    type V = Seq<SpecState>;

    open spec fn view(&self) -> Seq<SpecState> {
        self.states.deep_view()
    }
}

/// Does a state of `s` carry id `id`?
pub open spec fn spec_contains_state(s: Seq<SpecState>, id: u64) -> bool {
    exists|k: int| 0 <= k < s.len() && s[k].id == id
}

/// The id the store allocates next.
pub open spec fn spec_next_id(s: Seq<SpecState>) -> u64
    recommends
        s.len() == 0 || s.last().id < u64::MAX,
{
    if s.len() == 0 {
        1u64
    } else {
        (s.last().id + 1) as u64
    }
}

impl StateDb {
    /// Ids are strictly ascending (so unique, newest last).
    pub open spec fn wf(self) -> bool {
        spec_ids_ascending(self@)
    }

    /// An empty store.
    pub fn new() -> (r: StateDb)
        ensures
            r.wf(),
            r@.len() == 0,
    {
        StateDb { states: Vec::new() }
    }

    /// The state with id `id`, as a read-only copy; `Error::NotFound` when
    /// no state carries it.
    pub fn get(&self, id: u64) -> (r: Result<State, Error>)
        ensures
            match r {
                Ok(st) => st@.id == id && self@.contains(st@),
                Err(e) => e == Error::NotFound(id) && !spec_contains_state(self@, id),
            },
    {
        let mut i: usize = 0;
        while i < self.states.len()
            invariant
                i <= self.states.len(),
                forall|k: int| 0 <= k < i ==> self@[k].id != id,
            decreases self.states.len() - i,
        {
            if self.states[i].id == id {
                let st = self.states[i].clone();
                proof {
                    assert(self@[i as int] == st@);
                    assert(self@.contains(st@));
                }
                return Ok(st);
            }
            i += 1;
        }
        proof {
            if spec_contains_state(self@, id) {
                let k = choose|k: int| 0 <= k < self@.len() && self@[k].id == id;
            }
        }
        Err(Error::NotFound(id))
    }

    /// All state ids with their creation times, ascending by id.
    pub fn list_ids(&self) -> (r: Vec<(u64, u64)>)
        ensures
            r@.len() == self@.len(),
            forall|k: int| 0 <= k < r@.len() ==> r@[k] == (self@[k].id, self@[k].created),
    {
        let mut r: Vec<(u64, u64)> = Vec::new();
        let mut i: usize = 0;
        while i < self.states.len()
            invariant
                i <= self.states.len(),
                r@.len() == i,
                forall|k: int| 0 <= k < i ==> r@[k] == (self@[k].id, self@[k].created),
            decreases self.states.len() - i,
        {
            r.push((self.states[i].id, self.states[i].created));
            i += 1;
        }
        r
    }

    /// Appends a new state under the next id — the only way a state is
    /// ever created. Prior states are never touched.
    pub fn new_state(
        &mut self,
        selections: Vec<Selection>,
        summary: Option<String>,
        description: Option<String>,
        created: u64,
    ) -> (st: State)
        requires
            old(self).wf(),
            old(self)@.len() == 0 || old(self)@.last().id < u64::MAX,
        ensures
            final(self).wf(),
            st@.id == spec_next_id(old(self)@),
            st@.created == created,
            st@.summary == summary.deep_view(),
            st@.description == description.deep_view(),
            st@.selections == selections.deep_view(),
            final(self)@ == old(self)@.push(st@),
    {
        let id: u64 = if self.states.len() == 0 {
            1
        } else {
            self.states[self.states.len() - 1].id + 1
        };
        proof {
            if self@.len() > 0 {
                assert(self@.last() == self.states@[self@.len() - 1]@);
            }
        }
        let st = State { id, created, summary, description, selections };
        let copy = st.clone();
        let ghost before = self@;
        self.states.push(st);
        proof {
            assert forall|k: int| 0 <= k < self@.len() implies self@[k] == before.push(copy@)[k] by {
                if k < before.len() {
                    assert(self.states@[k] == old(self).states@[k]);
                }
            }
            assert(self@ =~= before.push(copy@));
            assert forall|i: int, j: int| 0 <= i < j < self@.len() implies self@[i].id
                < self@[j].id by {
                if j == self@.len() - 1 {
                    assert(self@[i] == before[i]);
                    if before.len() > 0 && i < before.len() - 1 {
                        assert(before[i].id < before[before.len() - 1].id);
                    }
                }
            }
        }
        copy
    }

    /// Removes the states named in `victims`, keeping order.
    fn retain_not_in(&mut self, victims: &Vec<u64>)
        requires
            old(self).wf(),
        ensures
            final(self).wf(),
            final(self)@ == spec_filter(old(self)@, |st: SpecState| !victims@.contains(st.id)),
    {
        let ghost pred = |st: SpecState| !victims@.contains(st.id);
        let mut kept: Vec<State> = Vec::new();
        let mut i: usize = 0;
        while i < self.states.len()
            invariant
                i <= self.states.len(),
                *self == *old(self),
                old(self).wf(),
                pred == (|st: SpecState| !victims@.contains(st.id)),
                kept.deep_view() == spec_filter(self@.take(i as int), pred),
            decreases self.states.len() - i,
        {
            let ghost prefix = self@.take(i as int);
            let ghost cur = self@[i as int];
            proof {
                assert(self@.take(i + 1).drop_last() =~= prefix);
                assert(self@.take(i + 1).last() == cur);
            }
            if !contains_u64(victims, self.states[i].id) {
                let ghost before = kept.deep_view();
                let ghost kv = kept@;
                kept.push(self.states[i].clone());
                proof {
                    assert(pred(cur));
                    assert(spec_filter(self@.take(i + 1), pred) == spec_filter(
                        prefix,
                        pred,
                    ).push(cur));
                    assert forall|k: int| 0 <= k < before.push(cur).len() implies kept.deep_view()[k]
                        == before.push(cur)[k] by {
                        if k < before.len() {
                            assert(kept@[k] == kv[k]);
                        }
                    }
                    assert(kept.deep_view() =~= before.push(cur));
                }
            } else {
                proof {
                    assert(!pred(cur));
                    assert(spec_filter(self@.take(i + 1), pred) == spec_filter(prefix, pred));
                }
            }
            i += 1;
        }
        proof {
            assert(self@.take(self@.len() as int) =~= self@);
            lemma_state_filter_ascending(self@, pred);
        }
        self.states = kept;
    }

    /// Prunes under `strategy` with the given active pointer. The returned
    /// ids are what the strategy condemns; they leave the store only when
    /// `confirmed` is set — an unconfirmed prune changes nothing and only
    /// reports. The active state is never condemned; removing it by id is
    /// refused.
    pub fn prune(&mut self, active: Option<u64>, strategy: Strategy, confirmed: bool) -> (r:
        Result<Vec<u64>, Error>)
        requires
            old(self).wf(),
        ensures
            final(self).wf(),
            match r {
                Ok(removed) => {
                    &&& (match strategy {
                        Strategy::KeepRecent { keep, include_newer } => removed@
                            == spec_keep_recent_victims(
                            old(self)@,
                            active,
                            keep,
                            include_newer,
                        ).map_values(|st: SpecState| st.id),
                        Strategy::Remove(id) => removed@ == seq![id] && spec_contains_state(
                            old(self)@,
                            id,
                        ) && active != Some(id),
                    })
                    &&& (confirmed ==> final(self)@ == spec_filter(
                        old(self)@,
                        |st: SpecState| !removed@.contains(st.id),
                    ))
                    &&& (!confirmed ==> final(self)@ == old(self)@)
                },
                Err(e) => {
                    &&& final(self)@ == old(self)@
                    &&& (match strategy {
                        Strategy::KeepRecent { .. } => false,
                        Strategy::Remove(id) => (e == Error::CannotRemoveActive(id) && active
                            == Some(id)) || (e == Error::NotFound(id) && active != Some(id)
                            && !spec_contains_state(old(self)@, id)),
                    })
                },
            },
    {
        let victims: Vec<u64> = match strategy {
            Strategy::KeepRecent { keep, include_newer } => {
                self.keep_recent_victims(active, keep, include_newer)
            },
            Strategy::Remove(id) => {
                if let Some(a) = active {
                    if a == id {
                        return Err(Error::CannotRemoveActive(id));
                    }
                }
                match self.get(id) {
                    Err(_) => {
                        return Err(Error::NotFound(id));
                    },
                    Ok(_) => {},
                }
                let mut v: Vec<u64> = Vec::new();
                v.push(id);
                proof {
                    assert(v@ =~= seq![id]);
                }
                v
            },
        };
        if confirmed {
            self.retain_not_in(&victims);
        }
        Ok(victims)
    }

    /// The victims of a keep-recent prune, oldest first, as ids.
    fn keep_recent_victims(&self, active: Option<u64>, keep: u64, include_newer: bool) -> (r: Vec<
        u64,
    >)
        ensures
            r@ == spec_keep_recent_victims(self@, active, keep, include_newer).map_values(
                |st: SpecState| st.id,
            ),
    {
        let ghost pred = |st: SpecState| spec_prune_candidate(st, active, include_newer);
        let mut cands: Vec<u64> = Vec::new();
        let mut i: usize = 0;
        while i < self.states.len()
            invariant
                i <= self.states.len(),
                pred == (|st: SpecState| spec_prune_candidate(st, active, include_newer)),
                cands@.len() == spec_filter(self@.take(i as int), pred).len(),
                forall|k: int| 0 <= k < cands@.len() ==> cands@[k] == spec_filter(
                    self@.take(i as int),
                    pred,
                )[k].id,
            decreases self.states.len() - i,
        {
            let ghost prefix = self@.take(i as int);
            let ghost cur = self@[i as int];
            proof {
                assert(self@.take(i + 1).drop_last() =~= prefix);
                assert(self@.take(i + 1).last() == cur);
            }
            let st_id = self.states[i].id;
            let is_cand: bool = match active {
                None => true,
                Some(a) => st_id != a && (include_newer || st_id < a),
            };
            if is_cand {
                cands.push(st_id);
                proof {
                    assert(pred(cur));
                    assert(spec_filter(self@.take(i + 1), pred) == spec_filter(
                        prefix,
                        pred,
                    ).push(cur));
                }
            } else {
                proof {
                    assert(!pred(cur));
                    assert(spec_filter(self@.take(i + 1), pred) == spec_filter(prefix, pred));
                }
            }
            i += 1;
        }
        proof {
            assert(self@.take(self@.len() as int) =~= self@);
        }
        let n: usize = if (cands.len() as u64) > keep {
            cands.len() - (keep as usize)
        } else {
            0
        };
        let mut r: Vec<u64> = Vec::new();
        let mut k: usize = 0;
        while k < n
            invariant
                n <= cands.len(),
                k <= n,
                r@.len() == k,
                forall|m: int| 0 <= m < k ==> r@[m] == cands@[m],
            decreases n - k,
        {
            r.push(cands[k]);
            k += 1;
        }
        proof {
            let c = spec_prune_candidates(self@, active, include_newer);
            let v = spec_keep_recent_victims(self@, active, keep, include_newer);
            assert(v.map_values(|st: SpecState| st.id).len() == v.len());
            assert forall|m: int| 0 <= m < r@.len() implies r@[m] == v.map_values(
                |st: SpecState| st.id,
            )[m] by {
                assert(v[m] == c[m]);
                assert(r@[m] == cands@[m]);
            }
            assert(r@ =~= v.map_values(|st: SpecState| st.id));
        }
        r
    }
}


/// Mathematical model of [`Revision`].
#[verifier::ext_equal]
pub struct SpecRevision {
    pub version: Seq<char>,
    pub release: u64,
}

/// A display revision: version identifier and source release.
#[derive(Debug)]
pub struct Revision {
    pub version: String,
    pub release: u64,
}

impl View for Revision {
    type V = SpecRevision;

    open spec fn view(&self) -> SpecRevision {
        SpecRevision { version: self.version@, release: self.release }
    }
}

impl Revision {
    /// The characters this revision takes: version, then the release in
    /// decimal (the separator is counted by the caller).
    pub open spec fn spec_size(self) -> int {
        self@.version.len() + crate::render::spec_digits(self.release as nat).len() as int
    }

    pub fn size(&self) -> (r: usize)
        requires
            self.spec_size() <= usize::MAX,
        ensures
            r == self.spec_size(),
    {
        self.version.as_str().unicode_len() + crate::render::decimal_width(self.release)
    }
}

/// Mathematical model of [`Format`].
#[verifier::ext_equal]
pub struct SpecFormat {
    pub name: Seq<char>,
    pub revision: SpecRevision,
    pub explicit: bool,
}

/// One display row of a state's selections: the package's name, its
/// revision, and whether it was explicitly selected.
#[derive(Debug)]
pub struct Format {
    pub name: String,
    pub revision: Revision,
    pub explicit: bool,
}

impl View for Format {
    type V = SpecFormat;

    open spec fn view(&self) -> SpecFormat {
        SpecFormat { name: self.name@, revision: self.revision@, explicit: self.explicit }
    }
}

impl DeepView for Format {
    type V = SpecFormat;

    open spec fn deep_view(&self) -> SpecFormat {
        self.view()
    }
}

impl Format {
    /// The characters this row's name and revision take together.
    pub open spec fn spec_size(self) -> int {
        self@.name.len() + self.revision.spec_size()
    }


    pub fn size(&self) -> (r: usize)
        requires
            self.spec_size() <= usize::MAX,
        ensures
            r == self.spec_size(),
    {
        self.name.as_str().unicode_len() + self.revision.size()
    }
}

/// The display rows of a selection list: one per selection whose package
/// the registry still knows, in order.
pub open spec fn spec_formats(
    reg: Seq<crate::package::SpecPackage>,
    sels: Seq<SpecSelection>,
) -> Seq<SpecFormat>
    decreases sels.len(),
{
    if sels.len() == 0 {
        Seq::empty()
    } else {
        let rest = spec_formats(reg, sels.drop_last());
        match crate::registry::spec_by_id(reg, sels.last().package) {
            Some(p) => rest.push(
                SpecFormat {
                    name: p.meta.name,
                    revision: SpecRevision {
                        version: p.meta.version_identifier,
                        release: p.meta.source_release,
                    },
                    explicit: sels.last().explicit,
                },
            ),
            None => rest,
        }
    }
}

/// Resolves a state's selections against the registry for display.
pub fn state_selection_formats(
    reg: &crate::registry::Registry,
    selections: &Vec<Selection>,
) -> (r: Vec<Format>)
    ensures
        r.deep_view() == spec_formats(reg@, selections.deep_view()),
{
    let ghost selsv = selections.deep_view();
    let mut r: Vec<Format> = Vec::new();
    let mut i: usize = 0;
    proof {
        assert(r.deep_view() =~= spec_formats(reg@, selsv.take(0)));
    }
    while i < selections.len()
        invariant
            i <= selections.len(),
            selsv == selections.deep_view(),
            r.deep_view() == spec_formats(reg@, selsv.take(i as int)),
        decreases selections.len() - i,
    {
        let ghost prefix = selsv.take(i as int);
        let ghost cur = selsv[i as int];
        proof {
            assert(selsv.take(i + 1).drop_last() =~= prefix);
            assert(selsv.take(i + 1).last() == cur);
        }
        match reg.by_id(&selections[i].package) {
            Some(p) => {
                let f = Format {
                    name: p.meta.name,
                    revision: Revision {
                        version: p.meta.version_identifier,
                        release: p.meta.source_release,
                    },
                    explicit: selections[i].explicit,
                };
                let ghost before = r.deep_view();
                let ghost fv = f@;
                r.push(f);
                proof {
                    assert(crate::registry::spec_by_id(reg@, cur.package) is Some);
                    assert(r.deep_view() =~= before.push(fv));
                }
            },
            None => {
                proof {
                    assert(crate::registry::spec_by_id(reg@, cur.package) is None);
                }
            },
        }
        i += 1;
    }
    proof {
        assert(selsv.take(selsv.len() as int) =~= selsv);
    }
    r
}

/// The widest row of a format list; zero when it is empty.
pub fn max_format_size(formats: &Vec<Format>) -> (r: usize)
    requires
        forall|k: int|
            0 <= k < formats.deep_view().len() ==> (#[trigger] formats.deep_view()[k]).name.len()
                + formats.deep_view()[k].revision.version.len() + crate::render::spec_digits(
                formats.deep_view()[k].revision.release as nat,
            ).len() <= usize::MAX,
    ensures
        formats.deep_view().len() == 0 ==> r == 0,
        forall|k: int|
            0 <= k < formats.deep_view().len() ==> r >= (#[trigger] formats.deep_view()[k]).name.len()
                + formats.deep_view()[k].revision.version.len() + crate::render::spec_digits(
                formats.deep_view()[k].revision.release as nat,
            ).len(),
        formats.deep_view().len() > 0 ==> exists|k: int|
            0 <= k < formats.deep_view().len() && r == (#[trigger] formats.deep_view()[k]).name.len()
                + formats.deep_view()[k].revision.version.len() + crate::render::spec_digits(
                formats.deep_view()[k].revision.release as nat,
            ).len(),
{
    let mut best: usize = 0;
    let mut i: usize = 0;
    while i < formats.len()
        invariant
            i <= formats.len(),
            forall|k: int|
                0 <= k < formats.deep_view().len() ==> (#[trigger] formats.deep_view()[k]).name.len()
                    + formats.deep_view()[k].revision.version.len() + crate::render::spec_digits(
                    formats.deep_view()[k].revision.release as nat,
                ).len() <= usize::MAX,
            i == 0 ==> best == 0,
            forall|k: int| 0 <= k < i ==> best >= (#[trigger] formats.deep_view()[k]).name.len()
                + formats.deep_view()[k].revision.version.len() + crate::render::spec_digits(
                formats.deep_view()[k].revision.release as nat,
            ).len(),
            i > 0 ==> exists|k: int|
                0 <= k < i && best == (#[trigger] formats.deep_view()[k]).name.len()
                    + formats.deep_view()[k].revision.version.len() + crate::render::spec_digits(
                    formats.deep_view()[k].revision.release as nat,
                ).len(),
        decreases formats.len() - i,
    {
        proof {
            let dv = formats.deep_view();
            assert(dv[i as int] == formats@[i as int]@);
        }
        let sz = formats[i].size();
        if i == 0 || sz > best {
            best = sz;
        }
        i += 1;
    }
    best
}

/// Does `v` hold `x`?
pub fn contains_u64(v: &Vec<u64>, x: u64) -> (r: bool)
    ensures
        r == v@.contains(x),
{
    let mut i: usize = 0;
    while i < v.len()
        invariant
            i <= v.len(),
            forall|k: int| 0 <= k < i ==> v@[k] != x,
        decreases v.len() - i,
    {
        if v[i] == x {
            return true;
        }
        i += 1;
    }
    false
}

} // verus!

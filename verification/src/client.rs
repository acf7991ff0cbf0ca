//! The client: the registry, the state store, and the active-state
//! pointer of one installation, with the operations the command surface
//! drives — activate, prune, query, export.
//!
//! Filesystem application (blit), trigger execution, confirmation prompts
//! and the clock are outside collaborators: the operations here take
//! their decisions and timestamps as plain values and hand back plain
//! values to act on.

use vstd::prelude::*;

use crate::package::{Package, SpecPackage};
use crate::registry::{Registry, spec_by_id, spec_filter};
use crate::state::{
    Error, Selection, SpecSelection, SpecState, State, StateDb, Strategy, spec_contains_state,
    spec_keep_recent_victims, spec_next_id,
};
use crate::system_model::SystemModel;

verus! {

/// One installation's view of the world. `active_state` is the single
/// pointer that says which state the filesystem reflects; `ephemeral`
/// marks a client aimed at an alternate root, whose work is never
/// recorded as a state.
#[derive(Debug)]
pub struct Client {
    pub registry: Registry,
    pub state_db: StateDb,
    pub active_state: Option<u64>,
    pub ephemeral: bool,
}

/// The package ids of a selection list, in order.
pub open spec fn spec_sel_ids(s: Seq<SpecSelection>) -> Seq<Seq<char>> {
    s.map_values(|x: SpecSelection| x.package)
}

/// The capability tokens a state's explicit selections export as names:
/// each explicit selection still known to the registry contributes its
/// package name, once.
pub open spec fn spec_export(reg: Seq<SpecPackage>, sels: Seq<SpecSelection>) -> Seq<Seq<char>>
    decreases sels.len(),
{
    if sels.len() == 0 {
        Seq::empty()
    } else {
        let rest = spec_export(reg, sels.drop_last());
        let s = sels.last();
        if s.explicit {
            match spec_by_id(reg, s.package) {
                Some(p) => if rest.contains(p.meta.name) {
                    rest
                } else {
                    rest.push(p.meta.name)
                },
                None => rest,
            }
        } else {
            rest
        }
    }
}

impl Client {
    /// Both indices are well-formed.
    pub open spec fn wf(self) -> bool {
        &&& self.registry.wf()
        &&& self.state_db.wf()
    }

    /// A client over the given registry and store, aimed at the root
    /// filesystem.
    pub fn new(registry: Registry, state_db: StateDb, active_state: Option<u64>) -> (r: Client)
        ensures
            r.registry == registry,
            r.state_db == state_db,
            r.active_state == active_state,
            !r.ephemeral,
    {
        Client { registry, state_db, active_state, ephemeral: false }
    }

    /// The same client aimed at an alternate root: its syncs are applied
    /// there and never recorded as a state.
    pub fn ephemeral(self) -> (r: Client)
        ensures
            r.registry == self.registry,
            r.state_db == self.state_db,
            r.active_state == self.active_state,
            r.ephemeral,
    {
        Client { ephemeral: true, ..self }
    }

    pub fn is_ephemeral(&self) -> (r: bool)
        ensures
            r == self.ephemeral,
    {
        self.ephemeral
    }

    /// Makes state `id` the active one. Returns the previously active id
    /// for display. The filesystem delta and the post-activation triggers
    /// are the caller's collaborators; on `Error::NotFound` nothing
    /// changes, and the pointer is never left between two states.
    pub fn activate_state(&mut self, id: u64) -> (r: Result<Option<u64>, Error>)
        ensures
            final(self).registry == old(self).registry,
            final(self).state_db == old(self).state_db,
            final(self).ephemeral == old(self).ephemeral,
            match r {
                Ok(prev) => spec_contains_state(old(self).state_db@, id) && prev == old(
                    self,
                ).active_state && final(self).active_state == Some(id),
                Err(e) => e == Error::NotFound(id) && !spec_contains_state(old(self).state_db@, id)
                    && final(self).active_state == old(self).active_state,
            },
    {
        match self.state_db.get(id) {
            Ok(_) => {
                let prev = self.active_state;
                self.active_state = Some(id);
                Ok(prev)
            },
            Err(_) => Err(Error::NotFound(id)),
        }
    }

    /// Prunes archived states; see [`StateDb::prune`]. The active state
    /// is taken from this client and is never removed; an unconfirmed
    /// prune only reports.
    pub fn prune_states(&mut self, strategy: Strategy, yes: bool) -> (r: Result<Vec<u64>, Error>)
        requires
            old(self).wf(),
        ensures
            final(self).wf(),
            final(self).registry == old(self).registry,
            final(self).active_state == old(self).active_state,
            final(self).ephemeral == old(self).ephemeral,
            match r {
                Ok(removed) => {
                    &&& (match strategy {
                        Strategy::KeepRecent { keep, include_newer } => removed@
                            == spec_keep_recent_victims(
                            old(self).state_db@,
                            old(self).active_state,
                            keep,
                            include_newer,
                        ).map_values(|st: SpecState| st.id),
                        Strategy::Remove(id) => removed@ == seq![id] && spec_contains_state(
                            old(self).state_db@,
                            id,
                        ) && old(self).active_state != Some(id),
                    })
                    &&& (yes ==> final(self).state_db@ == spec_filter(
                        old(self).state_db@,
                        |st: SpecState| !removed@.contains(st.id),
                    ))
                    &&& (!yes ==> final(self).state_db@ == old(self).state_db@)
                },
                Err(e) => {
                    &&& final(self).state_db@ == old(self).state_db@
                    &&& (match strategy {
                        Strategy::KeepRecent { .. } => false,
                        Strategy::Remove(id) => (e == Error::CannotRemoveActive(id) && old(
                            self,
                        ).active_state == Some(id)) || (e == Error::NotFound(id) && old(
                            self,
                        ).active_state != Some(id) && !spec_contains_state(
                            old(self).state_db@,
                            id,
                        )),
                    })
                },
            },
    {
        let active = self.active_state;
        self.state_db.prune(active, strategy, yes)
    }

    /// Records a new state holding `selections`, allocating the next id,
    /// and makes it active — unless this client is ephemeral, in which
    /// case nothing is recorded at all.
    pub fn new_state(&mut self, selections: &Vec<Selection>, summary: &str, created: u64) -> (r:
        Option<State>)
        requires
            old(self).wf(),
            old(self).state_db@.len() == 0 || old(self).state_db@.last().id < u64::MAX,
        ensures
            final(self).wf(),
            final(self).registry == old(self).registry,
            final(self).ephemeral == old(self).ephemeral,
            old(self).ephemeral ==> r is None && *final(self) == *old(self),
            !old(self).ephemeral ==> (r matches Some(st) && st@.id == spec_next_id(
                old(self).state_db@,
            ) && st@.created == created && st@.summary == Some(summary@) && st@.selections
                == selections.deep_view() && final(self).state_db@ == old(self).state_db@.push(st@)
                && final(self).active_state == Some(st@.id)),
    {
        if self.ephemeral {
            return None;
        }
        let sels = crate::state::clone_selections(selections);
        let st = self.state_db.new_state(sels, Some(summary.to_owned()), None, created);
        self.active_state = Some(st.id);
        Some(st)
    }

    /// Projects state `id`'s explicit selections into a system model:
    /// the name of each explicitly selected package the registry still
    /// knows, without duplicates.
    pub fn export_state(&self, id: u64) -> (r: Result<SystemModel, Error>)
        ensures
            match r {
                Ok(model) => spec_contains_state(self.state_db@, id) && exists|k: int|
                    0 <= k < self.state_db@.len() && self.state_db@[k].id == id && model@
                        == spec_export(self.registry@, (#[trigger] self.state_db@[k]).selections),
                Err(e) => e == Error::NotFound(id) && !spec_contains_state(self.state_db@, id),
            },
    {
        let st = match self.state_db.get(id) {
            Ok(st) => st,
            Err(e) => {
                return Err(e);
            },
        };
        let ghost stv = st@;
        let ghost k = choose|k: int|
            0 <= k < self.state_db@.len() && self.state_db@[k] == stv;
        let mut model = SystemModel::new();
        let ghost regv = self.registry@;
        let ghost selsv = stv.selections;
        let mut i: usize = 0;
        proof {
            assert(spec_export(regv, selsv.take(0)) =~= Seq::<Seq<char>>::empty());
            assert(model@ =~= spec_export(regv, selsv.take(0)));
        }
        while i < st.selections.len()
            invariant
                i <= st.selections.len(),
                regv == self.registry@,
                selsv == st@.selections,
                model@ == spec_export(regv, selsv.take(i as int)),
            decreases st.selections.len() - i,
        {
            let ghost prefix = selsv.take(i as int);
            let ghost cur = selsv[i as int];
            proof {
                assert(selsv.take(i + 1).drop_last() =~= prefix);
                assert(selsv.take(i + 1).last() == cur);
            }
            if st.selections[i].explicit {
                match self.registry.by_id(&st.selections[i].package) {
                    Some(p) => {
                        proof {
                            assert(spec_by_id(regv, cur.package) == Some(p@));
                        }
                        model.add_package(p.meta.name);
                    },
                    None => {
                        proof {
                            assert(spec_by_id(regv, cur.package) is None);
                        }
                    },
                }
            }
            i += 1;
        }
        proof {
            assert(selsv.take(selsv.len() as int) =~= selsv);
            assert(self.state_db@[k].id == id);
        }
        Ok(model)
    }
}

/// The active state, as a read-only copy — `None` when no state is
/// active yet.
pub fn active(client: &Client) -> (r: Result<Option<State>, Error>)
    ensures
        match r {
            Ok(opt) => match client.active_state {
                None => opt is None,
                Some(id) => opt matches Some(st) && st@.id == id && client.state_db@.contains(st@),
            },
            Err(e) => client.active_state matches Some(id) && e == Error::NotFound(id)
                && !spec_contains_state(client.state_db@, id),
        },
{
    match client.active_state {
        None => Ok(None),
        Some(id) => match client.state_db.get(id) {
            Ok(st) => Ok(Some(st)),
            Err(e) => Err(e),
        },
    }
}

/// All known states, newest first.
pub fn list(client: &Client) -> (r: Vec<State>)
    ensures
        r@.len() == client.state_db@.len(),
        forall|k: int|
            0 <= k < r@.len() ==> r.deep_view()[k] == client.state_db@[client.state_db@.len() - 1
                - k],
{
    let mut r: Vec<State> = Vec::new();
    let n = client.state_db.states.len();
    let mut i: usize = 0;
    while i < n
        invariant
            n == client.state_db@.len(),
            i <= n,
            r@.len() == i,
            forall|k: int|
                0 <= k < i ==> r.deep_view()[k] == client.state_db@[client.state_db@.len() - 1 - k],
        decreases n - i,
    {
        let st = client.state_db.states[n - 1 - i].clone();
        let ghost before = r.deep_view();
        r.push(st);
        proof {
            let ghost dbv = client.state_db@;
            assert forall|k: int| 0 <= k < r@.len() implies r.deep_view()[k] == dbv[dbv.len() - 1
                - k] by {
                if k < before.len() {
                    assert(r.deep_view()[k] == before[k]);
                }
            }
        }
        i += 1;
    }
    r
}

/// The package-id delta between two selection lists: what activating
/// `target` over `current` must install, and what it must remove.
pub fn blit_delta(current: &Vec<Selection>, target: &Vec<Selection>) -> (r: (Vec<String>, Vec<
    String,
>))
    ensures
        r.0.deep_view() == spec_filter(
            spec_sel_ids(target.deep_view()),
            |id: Seq<char>| !spec_sel_ids(current.deep_view()).contains(id),
        ),
        r.1.deep_view() == spec_filter(
            spec_sel_ids(current.deep_view()),
            |id: Seq<char>| !spec_sel_ids(target.deep_view()).contains(id),
        ),
{
    let installs = sel_ids_not_in(target, current);
    let removes = sel_ids_not_in(current, target);
    (installs, removes)
}

/// The package ids of `from` whose id no selection of `except` carries.
fn sel_ids_not_in(from: &Vec<Selection>, except: &Vec<Selection>) -> (r: Vec<String>)
    ensures
        r.deep_view() == spec_filter(
            spec_sel_ids(from.deep_view()),
            |id: Seq<char>| !spec_sel_ids(except.deep_view()).contains(id),
        ),
{
    let ghost ids_f = spec_sel_ids(from.deep_view());
    let ghost pred = |id: Seq<char>| !spec_sel_ids(except.deep_view()).contains(id);
    let mut r: Vec<String> = Vec::new();
    let mut i: usize = 0;
    proof {
        assert(ids_f.take(0) =~= Seq::<Seq<char>>::empty());
        assert(r.deep_view() =~= spec_filter(ids_f.take(0), pred));
    }
    while i < from.len()
        invariant
            i <= from.len(),
            ids_f == spec_sel_ids(from.deep_view()),
            pred == (|id: Seq<char>| !spec_sel_ids(except.deep_view()).contains(id)),
            r.deep_view() == spec_filter(ids_f.take(i as int), pred),
        decreases from.len() - i,
    {
        let ghost prefix = ids_f.take(i as int);
        let ghost cur = ids_f[i as int];
        proof {
            assert(ids_f.take(i + 1).drop_last() =~= prefix);
            assert(ids_f.take(i + 1).last() == cur);
            assert(cur == from.deep_view()[i as int].package);
        }
        if !sel_contains_id(except, &from[i].package) {
            let ghost before = r.deep_view();
            r.push(from[i].package.clone());
            proof {
                assert(pred(cur));
                assert(spec_filter(ids_f.take(i + 1), pred) == spec_filter(prefix, pred).push(cur));
                assert forall|k: int| 0 <= k < before.push(cur).len() implies r.deep_view()[k]
                    == before.push(cur)[k] by {}
                assert(r.deep_view() =~= before.push(cur));
            }
        } else {
            proof {
                assert(!pred(cur));
                assert(spec_filter(ids_f.take(i + 1), pred) == spec_filter(prefix, pred));
            }
        }
        i += 1;
    }
    proof {
        assert(ids_f.take(ids_f.len() as int) =~= ids_f);
        assert(from.deep_view().len() == ids_f.len());
    }
    r
}

/// Does some selection of `sels` reference package id `id`?
fn sel_contains_id(sels: &Vec<Selection>, id: &String) -> (r: bool)
    ensures
        r == spec_sel_ids(sels.deep_view()).contains(id@),
{
    let ghost ids = spec_sel_ids(sels.deep_view());
    let mut i: usize = 0;
    while i < sels.len()
        invariant
            i <= sels.len(),
            ids == spec_sel_ids(sels.deep_view()),
            forall|k: int| 0 <= k < i ==> ids[k] != id@,
        decreases sels.len() - i,
    {
        if sels[i].package == *id {
            proof {
                assert(ids[i as int] == id@);
            }
            return true;
        }
        proof {
            assert(ids[i as int] == sels.deep_view()[i as int].package);
        }
        i += 1;
    }
    proof {
        if ids.contains(id@) {
            let k = choose|k: int| 0 <= k < ids.len() && ids[k] == id@;
        }
    }
    false
}

} // verus!

//! Sync: turning the desired package universe into a new committed state.
//!
//! Resolution seeds come either from the currently installed explicit
//! packages (each re-resolved to its highest-priority available candidate)
//! or, when a system model is supplied, from the model's declared
//! providers. The finalized set is diffed against the installed set; an
//! empty diff is a no-op and creates no state. Fetching, confirmation and
//! filesystem application are outside collaborators: the caller runs
//! them between [`plan_sync`] and [`apply_sync_plan`] and hands in the
//! confirmation decision and the clock reading.

use vstd::prelude::*;

use crate::client::Client;
use crate::package::{
    Flags, Package, SpecPackage, spec_contains_id, spec_contains_name,
};
use crate::registry::{Registry, spec_filter, spec_find, lemma_find_skip};
use crate::state::{Selection, SpecSelection, SpecState, State};
use crate::system_model::SystemModel;
use crate::transaction::{Lookup, SpecTxError, spec_add, spec_finalize, spec_first};

verus! {

/// The sync command's options: refresh repositories first; aim at an
/// alternate root (never recorded as a state); resolve against an
/// imported system model instead of the installed set.
#[derive(Debug)]
pub struct Command {
    pub update: bool,
    pub blit_target: Option<String>,
    pub import: Option<String>,
}

/// Wall-clock milliseconds each sync phase took, for display.
#[derive(Clone, Copy, PartialEq, Eq, Structural, Debug)]
pub struct Timing {
    pub resolve: u64,
    pub fetch: u64,
    pub blit: u64,
}

impl Default for Timing {
    fn default() -> (r: Timing)
        ensures
            r == (Timing { resolve: 0, fetch: 0, blit: 0 }),
    {
        Timing { resolve: 0, fetch: 0, blit: 0 }
    }
}

/// Mathematical model of [`Error`].
pub enum SpecSyncError {
    MissingSystemModelPackage(Seq<char>),
    Cancelled,
    Transaction(SpecTxError),
    State(crate::state::Error),
}

/// A failed sync.
#[derive(Debug, PartialEq, Eq)]
pub enum Error {
    /// A provider the system model names that no repository exports.
    MissingSystemModelPackage(String),
    /// The user declined the confirmation prompt.
    Cancelled,
    /// Resolution failed.
    Transaction(crate::transaction::Error),
    /// A state the client points at is gone.
    State(crate::state::Error),
}

impl View for Error {
    type V = SpecSyncError;

    open spec fn view(&self) -> SpecSyncError {
        match self {
            Error::MissingSystemModelPackage(t) => SpecSyncError::MissingSystemModelPackage(t@),
            Error::Cancelled => SpecSyncError::Cancelled,
            Error::Transaction(e) => SpecSyncError::Transaction(e@),
            Error::State(e) => SpecSyncError::State(*e),
        }
    }
}

/// The flag filter of every sync lookup: available packages.
pub open spec fn spec_avail_flags() -> Flags {
    Flags { explicit: false, installed: false, available: true }
}

/// The id an explicit installed package contributes as a seed: its
/// highest-priority available candidate of the same name, when that
/// candidate is not an id already installed; otherwise its own id.
pub open spec fn spec_sync_choice(
    reg: Seq<SpecPackage>,
    all: Seq<SpecPackage>,
    p: SpecPackage,
) -> Seq<char> {
    match spec_first(reg, Registry::name_pred(p.meta.name, spec_avail_flags())) {
        Some(l) => if !spec_contains_id(all, l.id) {
            l.id
        } else {
            p.id
        },
        None => p.id,
    }
}

/// The seed ids of an installed-set sync: one per explicit member of `s`,
/// in order, each chosen by [`spec_sync_choice`] against the full
/// installed list `all`.
pub open spec fn spec_with_sync(
    reg: Seq<SpecPackage>,
    all: Seq<SpecPackage>,
    s: Seq<SpecPackage>,
) -> Seq<Seq<char>>
    decreases s.len(),
{
    if s.len() == 0 {
        Seq::empty()
    } else {
        let rest = spec_with_sync(reg, all, s.drop_last());
        if s.last().flags.explicit {
            rest.push(spec_sync_choice(reg, all, s.last()))
        } else {
            rest
        }
    }
}

/// The seed ids, executably.
fn with_sync_ids(reg: &Registry, packages: &Vec<Package>) -> (r: Vec<String>)
    ensures
        r.deep_view() == spec_with_sync(reg@, packages.deep_view(), packages.deep_view()),
{
    let ghost all = packages.deep_view();
    let mut r: Vec<String> = Vec::new();
    let mut i: usize = 0;
    proof {
        assert(r.deep_view() =~= spec_with_sync(reg@, all, all.take(0)));
    }
    while i < packages.len()
        invariant
            i <= packages.len(),
            all == packages.deep_view(),
            r.deep_view() == spec_with_sync(reg@, all, all.take(i as int)),
        decreases packages.len() - i,
    {
        let ghost prefix = all.take(i as int);
        let ghost cur = all[i as int];
        proof {
            assert(all.take(i + 1).drop_last() =~= prefix);
            assert(all.take(i + 1).last() == cur);
        }
        if packages[i].flags.explicit {
            let cands = reg.by_name(&packages[i].meta.name, Flags::new().with_available());
            let chosen: String = if cands.len() > 0 {
                if !crate::package::contains_pkg_id(packages, &cands[0].id) {
                    cands[0].id.clone()
                } else {
                    packages[i].id.clone()
                }
            } else {
                packages[i].id.clone()
            };
            proof {
                assert(chosen@ == spec_sync_choice(reg@, all, cur));
            }
            let ghost before = r.deep_view();
            r.push(chosen);
            proof {
                assert forall|k: int| 0 <= k < before.push(spec_sync_choice(reg@, all, cur)).len()
                    implies r.deep_view()[k] == before.push(spec_sync_choice(reg@, all, cur))[k]
                by {}
                assert(r.deep_view() =~= before.push(spec_sync_choice(reg@, all, cur)));
            }
        }
        i += 1;
    }
    proof {
        assert(all.take(all.len() as int) =~= all);
    }
    r
}

/// Returns the resolved package set for a sync driven by the installed
/// set: each explicit installed package is re-seeded through
/// [`spec_sync_choice`], and the seeds are closed over dependencies with
/// [`Lookup::PreferAvailable`].
pub fn resolve_with_installed(client: &Client, packages: &Vec<Package>) -> (r: Result<
    Vec<Package>,
    Error,
>)
    ensures
        ({
            let reg = client.registry@;
            let ids = spec_with_sync(reg, packages.deep_view(), packages.deep_view());
            match r {
                Ok(v) => spec_add(reg, Seq::empty(), ids) matches Ok(seeds) && spec_finalize(
                    reg,
                    Lookup::PreferAvailable,
                    seeds,
                ) == Some(Ok::<_, Seq<char>>(v.deep_view())),
                Err(e) => match e {
                    Error::Transaction(te) => spec_add(reg, Seq::empty(), ids) == Err::<
                        Seq<SpecPackage>,
                        _,
                    >(te@) || (spec_add(reg, Seq::empty(), ids) matches Ok(seeds) && (te matches
                    crate::transaction::Error::MissingProvider(t) && spec_finalize(
                        reg,
                        Lookup::PreferAvailable,
                        seeds,
                    ) == Some(Err::<Seq<SpecPackage>, _>(t@)))),
                    _ => false,
                },
            }
        }),
{
    let ids = with_sync_ids(&client.registry, packages);
    let mut tx = client.registry.transaction(Lookup::PreferAvailable);
    match tx.add(&client.registry, &ids) {
        Err(te) => {
            return Err(Error::Transaction(te));
        },
        Ok(()) => {},
    }
    match tx.finalize(&client.registry) {
        Ok(v) => Ok(v),
        Err(te) => Err(Error::Transaction(te)),
    }
}

/// The seed ids a system model yields: for each declared provider, the id
/// of the highest-priority available exporter; the first provider with no
/// exporter fails the whole lookup.
pub open spec fn spec_model_lookup(reg: Seq<SpecPackage>, toks: Seq<Seq<char>>) -> Result<
    Seq<Seq<char>>,
    Seq<char>,
>
    decreases toks.len(),
{
    if toks.len() == 0 {
        Ok(Seq::empty())
    } else {
        match spec_first(reg, Registry::provider_pred(toks[0], spec_avail_flags())) {
            None => Err(toks[0]),
            Some(p) => match spec_model_lookup(reg, toks.skip(1)) {
                Ok(rest) => Ok(seq![p.id] + rest),
                Err(t) => Err(t),
            },
        }
    }
}

/// The ids the first `i` providers yield, when they all resolve.
pub open spec fn spec_model_ids(reg: Seq<SpecPackage>, toks: Seq<Seq<char>>) -> Seq<Seq<char>> {
    toks.map_values(
        |t: Seq<char>| spec_first(reg, Registry::provider_pred(t, spec_avail_flags()))->Some_0.id,
    )
}

/// Splitting the lookup after `i` resolved providers.
proof fn lemma_model_lookup_split(reg: Seq<SpecPackage>, toks: Seq<Seq<char>>, i: int)
    requires
        0 <= i <= toks.len(),
        forall|k: int|
            0 <= k < i ==> spec_first(
                reg,
                Registry::provider_pred(#[trigger] toks[k], spec_avail_flags()),
            ) is Some,
    ensures
        spec_model_lookup(reg, toks) == (match spec_model_lookup(reg, toks.skip(i)) {
            Ok(rest) => Ok::<_, Seq<char>>(spec_model_ids(reg, toks.take(i)) + rest),
            Err(t) => Err(t),
        }),
    decreases i,
{
    if i == 0 {
        assert(toks.skip(0) =~= toks);
        match spec_model_lookup(reg, toks) {
            Ok(rest) => {
                assert(spec_model_ids(reg, toks.take(0)) + rest =~= rest);
            },
            Err(_) => {},
        }
    } else {
        lemma_model_lookup_split(reg, toks, i - 1);
        let s1 = toks.skip(i - 1);
        assert(s1[0] == toks[i - 1]);
        assert(s1.skip(1) =~= toks.skip(i));
        let p = spec_first(reg, Registry::provider_pred(toks[i - 1], spec_avail_flags()))->Some_0;
        match spec_model_lookup(reg, toks.skip(i)) {
            Ok(rest) => {
                assert(spec_model_lookup(reg, s1) == Ok::<_, Seq<char>>(seq![p.id] + rest));
                assert(spec_model_ids(reg, toks.take(i - 1)) + (seq![p.id] + rest) =~= spec_model_ids(
                    reg,
                    toks.take(i),
                ) + rest) by {
                    assert(toks.take(i)[i - 1] == toks[i - 1]);
                    assert forall|m: int| 0 <= m < i implies spec_model_ids(reg, toks.take(i))[m]
                        == (spec_model_ids(reg, toks.take(i - 1)) + seq![p.id])[m] by {
                        assert(toks.take(i)[m] == toks[m]);
                        if m < i - 1 {
                            assert(toks.take(i - 1)[m] == toks[m]);
                        }
                    }
                    assert(spec_model_ids(reg, toks.take(i)) =~= spec_model_ids(
                        reg,
                        toks.take(i - 1),
                    ) + seq![p.id]);
                }
            },
            Err(_) => {
                assert(spec_model_lookup(reg, s1) == spec_model_lookup(reg, toks.skip(i)));
            },
        }
    }
}

/// Looks up one available exporter per declared provider, executably.
fn model_lookup(reg: &Registry, model: &SystemModel) -> (r: Result<Vec<String>, Error>)
    ensures
        match r {
            Ok(ids) => spec_model_lookup(reg@, model@) == Ok::<_, Seq<char>>(ids.deep_view()),
            Err(e) => e matches Error::MissingSystemModelPackage(t) && spec_model_lookup(
                reg@,
                model@,
            ) == Err::<Seq<Seq<char>>, _>(t@),
        },
{
    let ghost toks = model@;
    let mut ids: Vec<String> = Vec::new();
    let mut i: usize = 0;
    while i < model.packages.len()
        invariant
            i <= model.packages.len(),
            toks == model@,
            ids@.len() == i,
            forall|k: int|
                0 <= k < i ==> spec_first(
                    reg@,
                    Registry::provider_pred(#[trigger] toks[k], spec_avail_flags()),
                ) is Some,
            forall|k: int| 0 <= k < i ==> ids@[k]@ == spec_model_ids(reg@, toks)[k],
        decreases model.packages.len() - i,
    {
        let cands = reg.by_provider_id_only(&model.packages[i], Flags::new().with_available());
        if cands.len() == 0 {
            proof {
                lemma_model_lookup_split(reg@, toks, i as int);
                assert(toks.skip(i as int)[0] == toks[i as int]);
                assert(spec_model_lookup(reg@, toks.skip(i as int)) == Err::<Seq<Seq<char>>, _>(
                    toks[i as int],
                ));
            }
            return Err(Error::MissingSystemModelPackage(model.packages[i].clone()));
        }
        let chosen = cands[0].id.clone();
        proof {
            assert(cands.deep_view()[0] == spec_first(
                reg@,
                Registry::provider_pred(toks[i as int], spec_avail_flags()),
            )->Some_0);
            assert(spec_model_ids(reg@, toks)[i as int] == chosen@);
        }
        ids.push(chosen);
        i += 1;
    }
    proof {
        lemma_model_lookup_split(reg@, toks, toks.len() as int);
        assert(toks.skip(toks.len() as int).len() == 0);
        assert(spec_model_ids(reg@, toks.take(toks.len() as int)) + Seq::<Seq<char>>::empty()
            =~= spec_model_ids(reg@, toks.take(toks.len() as int)));
        assert(toks.take(toks.len() as int) =~= toks);
        assert forall|k: int| 0 <= k < toks.len() implies ids.deep_view()[k] == spec_model_ids(
            reg@,
            toks,
        )[k] by {
            assert(ids@[k]@ == spec_model_ids(reg@, toks)[k]);
        }
        assert(ids.deep_view() =~= spec_model_ids(reg@, toks));
    }
    Ok(ids)
}

/// Returns the resolved package set for a sync the system model drives:
/// one seed per declared provider, closed over dependencies with
/// [`Lookup::AvailableOnly`] — the installed set plays no part.
pub fn resolve_with_system_model(client: &Client, system_model: &SystemModel) -> (r: Result<
    Vec<Package>,
    Error,
>)
    ensures
        ({
            let reg = client.registry@;
            match r {
                Ok(v) => spec_model_lookup(reg, system_model@) matches Ok(ids) && (spec_add(
                    reg,
                    Seq::empty(),
                    ids,
                ) matches Ok(seeds) && spec_finalize(reg, Lookup::AvailableOnly, seeds) == Some(Ok::<
                    _,
                    Seq<char>,
                >(v.deep_view()))),
                Err(e) => match e {
                    Error::MissingSystemModelPackage(t) => spec_model_lookup(reg, system_model@)
                        == Err::<Seq<Seq<char>>, _>(t@),
                    Error::Transaction(te) => spec_model_lookup(reg, system_model@) matches Ok(ids)
                        && (spec_add(reg, Seq::empty(), ids) == Err::<Seq<SpecPackage>, _>(te@) || (
                    spec_add(reg, Seq::empty(), ids) matches Ok(seeds) && (te matches
                    crate::transaction::Error::MissingProvider(t) && spec_finalize(
                        reg,
                        Lookup::AvailableOnly,
                        seeds,
                    ) == Some(Err::<Seq<SpecPackage>, _>(t@))))),
                    _ => false,
                },
            }
        }),
{
    let ids = match model_lookup(&client.registry, system_model) {
        Ok(ids) => ids,
        Err(e) => {
            return Err(e);
        },
    };
    let mut tx = client.registry.transaction(Lookup::AvailableOnly);
    match tx.add(&client.registry, &ids) {
        Err(te) => {
            return Err(Error::Transaction(te));
        },
        Ok(()) => {},
    }
    match tx.finalize(&client.registry) {
        Ok(v) => Ok(v),
        Err(te) => Err(Error::Transaction(te)),
    }
}

/// What a sync would install: the finalized packages not already
/// installed — all of them for an ephemeral client.
pub open spec fn spec_synced(
    fin: Seq<SpecPackage>,
    inst: Seq<SpecPackage>,
    ephemeral: bool,
) -> Seq<SpecPackage> {
    spec_filter(fin, |p: SpecPackage| ephemeral || !spec_contains_id(inst, p.id))
}

/// What a sync would remove: installed packages whose name the finalized
/// set no longer carries (orphans).
pub open spec fn spec_removed(fin: Seq<SpecPackage>, inst: Seq<SpecPackage>) -> Seq<SpecPackage> {
    spec_filter(inst, |p: SpecPackage| !spec_contains_name(fin, p.meta.name))
}

/// Computes the install/remove diff of a finalized set against the
/// installed set.
pub fn sync_diff(finalized: &Vec<Package>, installed: &Vec<Package>, ephemeral: bool) -> (r: (
    Vec<Package>,
    Vec<Package>,
))
    ensures
        r.0.deep_view() == spec_synced(finalized.deep_view(), installed.deep_view(), ephemeral),
        r.1.deep_view() == spec_removed(finalized.deep_view(), installed.deep_view()),
{
    let ghost finv = finalized.deep_view();
    let ghost instv = installed.deep_view();
    let ghost pred_s = |p: SpecPackage| ephemeral || !spec_contains_id(instv, p.id);
    let mut synced: Vec<Package> = Vec::new();
    let mut i: usize = 0;
    proof {
        assert(synced.deep_view() =~= spec_filter(finv.take(0), pred_s));
    }
    while i < finalized.len()
        invariant
            i <= finalized.len(),
            finv == finalized.deep_view(),
            instv == installed.deep_view(),
            pred_s == (|p: SpecPackage| ephemeral || !spec_contains_id(instv, p.id)),
            synced.deep_view() == spec_filter(finv.take(i as int), pred_s),
        decreases finalized.len() - i,
    {
        let ghost prefix = finv.take(i as int);
        let ghost cur = finv[i as int];
        proof {
            assert(finv.take(i + 1).drop_last() =~= prefix);
            assert(finv.take(i + 1).last() == cur);
        }
        if ephemeral || !crate::package::contains_pkg_id(installed, &finalized[i].id) {
            let ghost before = synced.deep_view();
            synced.push(finalized[i].clone());
            proof {
                assert(pred_s(cur));
                assert(spec_filter(finv.take(i + 1), pred_s) == spec_filter(prefix, pred_s).push(
                    cur,
                ));
                assert forall|k: int| 0 <= k < before.push(cur).len() implies synced.deep_view()[k]
                    == before.push(cur)[k] by {}
                assert(synced.deep_view() =~= before.push(cur));
            }
        } else {
            proof {
                assert(!pred_s(cur));
                assert(spec_filter(finv.take(i + 1), pred_s) == spec_filter(prefix, pred_s));
            }
        }
        i += 1;
    }
    proof {
        assert(finv.take(finv.len() as int) =~= finv);
    }
    let ghost pred_r = |p: SpecPackage| !spec_contains_name(finv, p.meta.name);
    let mut removed: Vec<Package> = Vec::new();
    let mut j: usize = 0;
    proof {
        assert(removed.deep_view() =~= spec_filter(instv.take(0), pred_r));
    }
    while j < installed.len()
        invariant
            j <= installed.len(),
            finv == finalized.deep_view(),
            instv == installed.deep_view(),
            pred_r == (|p: SpecPackage| !spec_contains_name(finv, p.meta.name)),
            removed.deep_view() == spec_filter(instv.take(j as int), pred_r),
        decreases installed.len() - j,
    {
        let ghost prefix = instv.take(j as int);
        let ghost cur = instv[j as int];
        proof {
            assert(instv.take(j + 1).drop_last() =~= prefix);
            assert(instv.take(j + 1).last() == cur);
        }
        if !crate::package::contains_pkg_name(finalized, &installed[j].meta.name) {
            let ghost before = removed.deep_view();
            removed.push(installed[j].clone());
            proof {
                assert(pred_r(cur));
                assert(spec_filter(instv.take(j + 1), pred_r) == spec_filter(prefix, pred_r).push(
                    cur,
                ));
                assert forall|k: int| 0 <= k < before.push(cur).len() implies removed.deep_view()[k]
                    == before.push(cur)[k] by {}
                assert(removed.deep_view() =~= before.push(cur));
            }
        } else {
            proof {
                assert(!pred_r(cur));
                assert(spec_filter(instv.take(j + 1), pred_r) == spec_filter(prefix, pred_r));
            }
        }
        j += 1;
    }
    proof {
        assert(instv.take(instv.len() as int) =~= instv);
    }
    (synced, removed)
}

/// Do two capability lists share a token?
pub open spec fn spec_tokens_intersect(a: Seq<Seq<char>>, b: Seq<Seq<char>>) -> bool {
    exists|k: int| 0 <= k < a.len() && b.contains(#[trigger] a[k])
}

/// Does a provider of `provs` stand in the model?
fn intersects_model(provs: &Vec<String>, model: &SystemModel) -> (r: bool)
    ensures
        r == spec_tokens_intersect(provs.deep_view(), model@),
{
    let mut i: usize = 0;
    while i < provs.len()
        invariant
            i <= provs.len(),
            forall|k: int| 0 <= k < i ==> !model@.contains(#[trigger] provs.deep_view()[k]),
        decreases provs.len() - i,
    {
        if model.contains(&provs[i]) {
            proof {
                assert(model@.contains(provs.deep_view()[i as int]));
            }
            return true;
        }
        i += 1;
    }
    proof {
        if spec_tokens_intersect(provs.deep_view(), model@) {
            let k = choose|k: int|
                0 <= k < provs.deep_view().len() && model@.contains(
                    #[trigger] provs.deep_view()[k],
                );
        }
    }
    false
}

/// The selection a finalized package gets when the system model drove
/// resolution: explicit exactly when one of its providers stands in the
/// model.
pub open spec fn spec_model_selections(
    fin: Seq<SpecPackage>,
    model: Seq<Seq<char>>,
) -> Seq<SpecSelection> {
    fin.map_values(
        |p: SpecPackage| SpecSelection {
            package: p.id,
            explicit: spec_tokens_intersect(p.meta.providers, model),
            reason: None,
        },
    )
}

/// Builds the selections of a model-driven sync.
pub fn build_selections_with_model(finalized: &Vec<Package>, model: &SystemModel) -> (r: Vec<
    Selection,
>)
    ensures
        r.deep_view() == spec_model_selections(finalized.deep_view(), model@),
{
    let ghost finv = finalized.deep_view();
    let mut r: Vec<Selection> = Vec::new();
    let mut i: usize = 0;
    while i < finalized.len()
        invariant
            i <= finalized.len(),
            finv == finalized.deep_view(),
            r@.len() == i,
            forall|k: int| 0 <= k < i ==> r@[k]@ == spec_model_selections(finv, model@)[k],
        decreases finalized.len() - i,
    {
        let explicit = intersects_model(&finalized[i].meta.providers, model);
        let sel = Selection { package: finalized[i].id.clone(), explicit, reason: None };
        proof {
            assert(sel@ == spec_model_selections(finv, model@)[i as int]);
        }
        r.push(sel);
        i += 1;
    }
    proof {
        assert forall|k: int| 0 <= k < finv.len() implies r.deep_view()[k] == spec_model_selections(
            finv,
            model@,
        )[k] by {
            assert(r@[k]@ == spec_model_selections(finv, model@)[k]);
        }
        assert(r.deep_view() =~= spec_model_selections(finv, model@));
    }
    r
}

/// The selection a finalized package gets when the installed set drove
/// resolution: its previous selection's explicit flag and reason, looked
/// up under the id the package had before the sync (matched by name
/// against the installed set), with the new id substituted; a package
/// with no previous selection is transitive.
pub open spec fn spec_carry_one(
    p: SpecPackage,
    inst: Seq<SpecPackage>,
    prev: Seq<SpecSelection>,
) -> SpecSelection {
    let lookup_id = match spec_find(inst, |q: SpecPackage| q.meta.name == p.meta.name) {
        Some(q) => q.id,
        None => p.id,
    };
    match spec_find(prev, |s: SpecSelection| s.package == lookup_id) {
        Some(s) => SpecSelection { package: p.id, explicit: s.explicit, reason: s.reason },
        None => SpecSelection { package: p.id, explicit: false, reason: None },
    }
}

/// The selections of an installed-set sync, one per finalized package.
pub open spec fn spec_carry_selections(
    fin: Seq<SpecPackage>,
    inst: Seq<SpecPackage>,
    prev: Seq<SpecSelection>,
) -> Seq<SpecSelection> {
    fin.map_values(|p: SpecPackage| spec_carry_one(p, inst, prev))
}

/// The first installed package of this name, executably.
fn find_by_name(inst: &Vec<Package>, name: &String) -> (r: Option<Package>)
    ensures
        r.deep_view() == spec_find(
            inst.deep_view(),
            |q: SpecPackage| q.meta.name == name@,
        ),
{
    let ghost pred = |q: SpecPackage| q.meta.name == name@;
    let mut i: usize = 0;
    while i < inst.len()
        invariant
            i <= inst.len(),
            pred == (|q: SpecPackage| q.meta.name == name@),
            forall|k: int| 0 <= k < i ==> !pred(#[trigger] inst.deep_view()[k]),
        decreases inst.len() - i,
    {
        if inst[i].meta.name == *name {
            let p = inst[i].clone();
            proof {
                lemma_find_skip(inst.deep_view(), pred, i as int);
                assert(inst.deep_view().skip(i as int)[0] == inst.deep_view()[i as int]);
                assert(pred(inst.deep_view()[i as int]));
            }
            return Some(p);
        }
        i += 1;
    }
    proof {
        lemma_find_skip(inst.deep_view(), pred, inst.deep_view().len() as int);
        assert(inst.deep_view().skip(inst.deep_view().len() as int).len() == 0);
    }
    None
}

/// The first previous selection referencing this package id, executably.
fn find_selection(prev: &Vec<Selection>, id: &String) -> (r: Option<Selection>)
    ensures
        r.deep_view() == spec_find(
            prev.deep_view(),
            |s: SpecSelection| s.package == id@,
        ),
{
    let ghost pred = |s: SpecSelection| s.package == id@;
    let mut i: usize = 0;
    while i < prev.len()
        invariant
            i <= prev.len(),
            pred == (|s: SpecSelection| s.package == id@),
            forall|k: int| 0 <= k < i ==> !pred(#[trigger] prev.deep_view()[k]),
        decreases prev.len() - i,
    {
        if prev[i].package == *id {
            let s = prev[i].clone();
            proof {
                lemma_find_skip(prev.deep_view(), pred, i as int);
                assert(prev.deep_view().skip(i as int)[0] == prev.deep_view()[i as int]);
                assert(pred(prev.deep_view()[i as int]));
            }
            return Some(s);
        }
        i += 1;
    }
    proof {
        lemma_find_skip(prev.deep_view(), pred, prev.deep_view().len() as int);
        assert(prev.deep_view().skip(prev.deep_view().len() as int).len() == 0);
    }
    None
}

/// Builds the selections of an installed-set sync.
pub fn build_selections_carry_over(
    finalized: &Vec<Package>,
    installed: &Vec<Package>,
    previous: &Vec<Selection>,
) -> (r: Vec<Selection>)
    ensures
        r.deep_view() == spec_carry_selections(
            finalized.deep_view(),
            installed.deep_view(),
            previous.deep_view(),
        ),
{
    let ghost finv = finalized.deep_view();
    let ghost instv = installed.deep_view();
    let ghost prevv = previous.deep_view();
    let mut r: Vec<Selection> = Vec::new();
    let mut i: usize = 0;
    while i < finalized.len()
        invariant
            i <= finalized.len(),
            finv == finalized.deep_view(),
            instv == installed.deep_view(),
            prevv == previous.deep_view(),
            r@.len() == i,
            forall|k: int| 0 <= k < i ==> r@[k]@ == spec_carry_one(finv[k], instv, prevv),
        decreases finalized.len() - i,
    {
        let p = &finalized[i];
        let looked = find_by_name(installed, &p.meta.name);
        let sel = match &looked {
            Some(q) => find_selection(previous, &q.id),
            None => find_selection(previous, &p.id),
        };
        let new_sel = match sel {
            Some(s) => Selection {
                package: p.id.clone(),
                explicit: s.explicit,
                reason: match &s.reason {
                    Some(t) => Some(t.clone()),
                    None => None,
                },
            },
            None => Selection { package: p.id.clone(), explicit: false, reason: None },
        };
        proof {
            assert(new_sel@ == spec_carry_one(finv[i as int], instv, prevv));
        }
        r.push(new_sel);
        i += 1;
    }
    proof {
        assert forall|k: int| 0 <= k < finv.len() implies r.deep_view()[k] == spec_carry_selections(
            finv,
            instv,
            prevv,
        )[k] by {
            assert(r@[k]@ == spec_carry_one(finv[k], instv, prevv));
        }
        assert(r.deep_view() =~= spec_carry_selections(finv, instv, prevv));
    }
    r
}

/// A resolved sync, before anything is applied: the finalized set and
/// its diff against the installed set.
#[derive(Debug)]
pub struct SyncPlan {
    pub finalized: Vec<Package>,
    pub synced: Vec<Package>,
    pub removed: Vec<Package>,
}

impl SyncPlan {
    /// A plan with an empty diff is a no-op: nothing to fetch, nothing to
    /// remove, no state to create.
    pub fn is_noop(&self) -> (r: bool)
        ensures
            r == (self.synced@.len() == 0 && self.removed@.len() == 0),
    {
        self.synced.len() == 0 && self.removed.len() == 0
    }
}

/// Did this resolution succeed with exactly `out`?
pub open spec fn spec_resolution_ok(
    reg: Seq<SpecPackage>,
    model: Option<Seq<Seq<char>>>,
    inst: Seq<SpecPackage>,
    out: Seq<SpecPackage>,
) -> bool {
    match model {
        None => {
            let ids = spec_with_sync(reg, inst, inst);
            match spec_add(reg, Seq::empty(), ids) {
                Ok(seeds) => spec_finalize(reg, Lookup::PreferAvailable, seeds) == Some(Ok::<
                    _,
                    Seq<char>,
                >(out)),
                Err(_) => false,
            }
        },
        Some(toks) => match spec_model_lookup(reg, toks) {
            Ok(ids) => match spec_add(reg, Seq::empty(), ids) {
                Ok(seeds) => spec_finalize(reg, Lookup::AvailableOnly, seeds) == Some(Ok::<
                    _,
                    Seq<char>,
                >(out)),
                Err(_) => false,
            },
            Err(_) => false,
        },
    }
}

/// The view of an optional model.
pub open spec fn spec_model_view(model: Option<&SystemModel>) -> Option<Seq<Seq<char>>> {
    match model {
        Some(m) => Some(m@),
        None => None,
    }
}

/// Resolves and diffs, mutating nothing: the resolution seed comes from
/// the model when one is supplied, else from the installed set; the diff
/// is taken against the installed set (everything counts as new for an
/// ephemeral client).
pub fn plan_sync(client: &Client, model: Option<&SystemModel>) -> (r: Result<SyncPlan, Error>)
    ensures
        ({
            let reg = client.registry@;
            let inst = spec_filter(reg, Registry::installed_pred());
            match r {
                Ok(plan) => {
                    &&& spec_resolution_ok(
                        reg,
                        spec_model_view(model),
                        inst,
                        plan.finalized.deep_view(),
                    )
                    &&& plan.synced.deep_view() == spec_synced(
                        plan.finalized.deep_view(),
                        inst,
                        client.ephemeral,
                    )
                    &&& plan.removed.deep_view() == spec_removed(plan.finalized.deep_view(), inst)
                },
                Err(e) => !(e is Cancelled) && !(e is State) && (forall|out: Seq<SpecPackage>|
                    !spec_resolution_ok(reg, spec_model_view(model), inst, out)),
            }
        }),
{
    let installed = client.registry.list_installed();
    let resolved = match model {
        Some(m) => resolve_with_system_model(client, m),
        None => resolve_with_installed(client, &installed),
    };
    let finalized = match resolved {
        Ok(v) => v,
        Err(e) => {
            proof {
                let reg = client.registry@;
                let inst = spec_filter(reg, Registry::installed_pred());
                assert forall|out: Seq<SpecPackage>| !spec_resolution_ok(
                    reg,
                    spec_model_view(model),
                    inst,
                    out,
                ) by {}
            }
            return Err(e);
        },
    };
    let (synced, removed) = sync_diff(&finalized, &installed, client.is_ephemeral());
    Ok(SyncPlan { finalized, synced, removed })
}

/// What applying a plan came to.
#[derive(Debug)]
pub enum SyncOutcome {
    /// Empty diff: nothing was done and no state was created.
    NoOp,
    /// The client is ephemeral: the packages are for the alternate root
    /// and no state was recorded.
    Ephemeral,
    /// A new state was committed and made active.
    Committed(State),
}

/// Commits a resolved plan: a no-op plan changes nothing; an unconfirmed
/// sync is cancelled and changes nothing; otherwise the new selections
/// are built (carrying explicit flags over from the previous active
/// state, or taking them from the model) and recorded as the next state,
/// which becomes active. The caller fetches the synced packages and
/// applies the filesystem delta around this call.
pub fn apply_sync_plan(
    client: &mut Client,
    plan: &SyncPlan,
    model: Option<&SystemModel>,
    confirmed: bool,
    created: u64,
) -> (r: Result<SyncOutcome, Error>)
    requires
        old(client).wf(),
        old(client).state_db@.len() == 0 || old(client).state_db@.last().id < u64::MAX,
    ensures
        final(client).wf(),
        final(client).registry == old(client).registry,
        final(client).ephemeral == old(client).ephemeral,
        ({
            let reg = old(client).registry@;
            let inst = spec_filter(reg, Registry::installed_pred());
            let prev = match old(client).active_state {
                Some(a) => spec_find(old(client).state_db@, |st: SpecState| st.id == a),
                None => None,
            };
            let sels = match spec_model_view(model) {
                Some(toks) => spec_model_selections(plan.finalized.deep_view(), toks),
                None => spec_carry_selections(
                    plan.finalized.deep_view(),
                    inst,
                    match prev {
                        Some(st) => st.selections,
                        None => Seq::empty(),
                    },
                ),
            };
            match r {
                Ok(SyncOutcome::NoOp) => plan.synced@.len() == 0 && plan.removed@.len() == 0
                    && *final(client) == *old(client),
                Ok(SyncOutcome::Ephemeral) => old(client).ephemeral && *final(client) == *old(
                    client,
                ) && !(plan.synced@.len() == 0 && plan.removed@.len() == 0) && confirmed,
                Ok(SyncOutcome::Committed(st)) => !old(client).ephemeral && !(plan.synced@.len()
                    == 0 && plan.removed@.len() == 0) && confirmed && st@.selections == sels
                    && st@.id == crate::state::spec_next_id(old(client).state_db@) && st@.created
                    == created && final(client).state_db@ == old(client).state_db@.push(st@)
                    && final(client).active_state == Some(st@.id),
                Err(Error::Cancelled) => !confirmed && !(plan.synced@.len() == 0
                    && plan.removed@.len() == 0) && *final(client) == *old(client),
                Err(Error::State(e)) => old(client).active_state matches Some(a) && e
                    == crate::state::Error::NotFound(a) && prev is None && *final(client) == *old(
                    client,
                ) && spec_model_view(model) is None,
                Err(_) => false,
            }
        }),
{
    if plan.is_noop() {
        return Ok(SyncOutcome::NoOp);
    }
    if !confirmed {
        return Err(Error::Cancelled);
    }
    let selections: Vec<Selection> = match model {
        Some(m) => build_selections_with_model(&plan.finalized, m),
        None => {
            let installed = client.registry.list_installed();
            let previous: Vec<Selection> = match client.active_state {
                Some(a) => match client.state_db.get(a) {
                    Ok(st) => {
                        proof {
                            let dbv = client.state_db@;
                            let k = choose|k: int| 0 <= k < dbv.len() && dbv[k] == st@;
                            crate::state::lemma_find_state_by_id(dbv, a, k);
                        }
                        st.selections
                    },
                    Err(e) => {
                        proof {
                            let dbv = client.state_db@;
                            let pred = |st: SpecState| st.id == a;
                            if spec_find(dbv, pred) matches Some(fst) {
                                crate::state::lemma_find_state_found(dbv, a);
                            }
                        }
                        return Err(Error::State(e));
                    },
                },
                None => Vec::new(),
            };
            proof {
                if client.active_state is None {
                    assert(previous.deep_view() =~= Seq::<SpecSelection>::empty());
                }
            }
            build_selections_carry_over(&plan.finalized, &installed, &previous)
        },
    };
    match client.new_state(&selections, "Sync", created) {
        None => Ok(SyncOutcome::Ephemeral),
        Some(st) => Ok(SyncOutcome::Committed(st)),
    }
}

} // verus!

//! Laws of the resolver, stated and proved over its mathematical model.
//!
//! Each public proof function here is a statement the library guarantees
//! of every registry and seed list, not of chosen examples; the executable
//! resolver's contracts tie its results to [`spec_finalize`], so these laws
//! carry over to every run of it.

use vstd::prelude::*;

use crate::package::{SpecPackage, spec_any_provides};
use crate::registry::{
    spec_filter, spec_sorted_by_priority, lemma_filter_membership, lemma_filter_first_max_priority,
};
use crate::transaction::{
    Lookup, avail_pred, fin_from, inst_pred, spec_candidate, spec_finalize, spec_first,
};

verus! {

/// Determinism of resolution: for a fixed registry and seed list, any two
/// completed results of `spec_finalize` are the same ordered package list
/// — and the resolver's contract makes every run return exactly such a
/// result.
pub proof fn lemma_finalize_deterministic(
    reg: Seq<SpecPackage>,
    lk: Lookup,
    seeds: Seq<SpecPackage>,
    r1: Result<Seq<SpecPackage>, Seq<char>>,
    r2: Result<Seq<SpecPackage>, Seq<char>>,
)
    requires
        spec_finalize(reg, lk, seeds) == Some(r1),
        spec_finalize(reg, lk, seeds) == Some(r2),
    ensures
        r1 == r2,
{
}

/// Every member of a completed resolution comes from the seed list or the
/// registry.
pub proof fn lemma_fin_members(
    reg: Seq<SpecPackage>,
    lk: Lookup,
    done: Seq<SpecPackage>,
    i: int,
    j: int,
    fuel: nat,
    out: Seq<SpecPackage>,
)
    requires
        fin_from(reg, lk, done, i, j, fuel) == Some(Ok::<_, Seq<char>>(out)),
    ensures
        forall|k: int|
            0 <= k < out.len() ==> done.contains(#[trigger] out[k]) || reg.contains(out[k]),
    decreases fuel, done.len() - i, (if i < done.len() {
        done[i].meta.dependencies.len() - j
    } else {
        0
    }),
{
    if i >= done.len() {
        assert forall|k: int| 0 <= k < out.len() implies done.contains(#[trigger] out[k])
            || reg.contains(out[k]) by {
            assert(out[k] == done[k]);
        }
    } else {
        let deps = done[i].meta.dependencies;
        if j >= deps.len() {
            lemma_fin_members(reg, lk, done, i + 1, 0, fuel, out);
        } else {
            let token = deps[j];
            if spec_any_provides(done, token) {
                lemma_fin_members(reg, lk, done, i, j + 1, fuel, out);
            } else {
                match spec_candidate(reg, lk, token) {
                    None => {},
                    Some(p) => {
                        if fuel > 0 {
                            lemma_fin_members(reg, lk, done.push(p), i, j + 1, (fuel - 1) as nat, out);
                            lemma_candidate_in_registry(reg, lk, token);
                            assert forall|k: int|
                                0 <= k < out.len() implies done.contains(#[trigger] out[k])
                                || reg.contains(out[k]) by {
                                if done.push(p).contains(out[k]) {
                                    let m = choose|m: int|
                                        0 <= m < done.push(p).len() && done.push(p)[m] == out[k];
                                    if m < done.len() {
                                        assert(done[m] == out[k]);
                                    } else {
                                        assert(out[k] == p);
                                    }
                                }
                            }
                        }
                    },
                }
            }
        }
    }
}

/// A candidate a strategy picks is a registry record exporting the token,
/// with the flag the strategy asks for.
pub proof fn lemma_candidate_in_registry(reg: Seq<SpecPackage>, lk: Lookup, token: Seq<char>)
    ensures
        spec_candidate(reg, lk, token) matches Some(p) ==> reg.contains(p) && p.provides(token),
{
    lemma_filter_membership(reg, inst_pred(token));
    lemma_filter_membership(reg, avail_pred(token));
    if spec_candidate(reg, lk, token) is Some {
        let p = spec_candidate(reg, lk, token)->Some_0;
        match lk {
            Lookup::PreferAvailable => {
                if spec_first(reg, inst_pred(token)) is Some {
                    assert(spec_filter(reg, inst_pred(token))[0] == p);
                } else {
                    assert(spec_filter(reg, avail_pred(token))[0] == p);
                }
            },
            Lookup::AvailableOnly => {
                assert(spec_filter(reg, avail_pred(token))[0] == p);
            },
        }
    }
}

/// Dependency-completeness: in a completed resolution, every capability
/// token any member requires is exported by some member.
pub open spec fn spec_complete(out: Seq<SpecPackage>) -> bool {
    forall|k: int, d: int|
        0 <= k < out.len() && 0 <= d < out[k].meta.dependencies.len() ==> spec_any_provides(
            out,
            #[trigger] out[k].meta.dependencies[d],
        )
}

/// Tokens already settled stay settled as the set grows.
proof fn lemma_provides_monotone(done: Seq<SpecPackage>, p: SpecPackage, token: Seq<char>)
    requires
        spec_any_provides(done, token),
    ensures
        spec_any_provides(done.push(p), token),
{
    let k = choose|k: int| 0 <= k < done.len() && done[k].provides(token);
    assert(done.push(p)[k].provides(token));
}

/// A completed resolution is dependency-complete from any settled state:
/// if the dependencies of the first `i` members are settled, and the first
/// `j` of member `i` are, the final list settles everything.
pub proof fn lemma_fin_complete(
    reg: Seq<SpecPackage>,
    lk: Lookup,
    done: Seq<SpecPackage>,
    i: int,
    j: int,
    fuel: nat,
    out: Seq<SpecPackage>,
)
    requires
        fin_from(reg, lk, done, i, j, fuel) == Some(Ok::<_, Seq<char>>(out)),
        0 <= i,
        0 <= j,
        forall|k: int, d: int|
            0 <= k < i && k < done.len() && 0 <= d < done[k].meta.dependencies.len()
                ==> spec_any_provides(done, #[trigger] done[k].meta.dependencies[d]),
        i < done.len() ==> forall|d: int|
            0 <= d < j && d < done[i].meta.dependencies.len() ==> spec_any_provides(
                done,
                #[trigger] done[i].meta.dependencies[d],
            ),
    ensures
        spec_complete(out),
    decreases fuel, done.len() - i, (if i < done.len() {
        done[i].meta.dependencies.len() - j
    } else {
        0
    }),
{
    if i >= done.len() {
        assert(out == done);
        assert forall|k: int, d: int|
            0 <= k < out.len() && 0 <= d < out[k].meta.dependencies.len() implies spec_any_provides(
            out,
            #[trigger] out[k].meta.dependencies[d],
        ) by {
            assert(spec_any_provides(done, done[k].meta.dependencies[d]));
        }
    } else {
        let deps = done[i].meta.dependencies;
        if j >= deps.len() {
            assert forall|k: int, d: int|
                0 <= k < i + 1 && k < done.len() && 0 <= d
                    < done[k].meta.dependencies.len() implies spec_any_provides(
                done,
                #[trigger] done[k].meta.dependencies[d],
            ) by {
                if k == i {
                    assert(d < j);
                }
            }
            lemma_fin_complete(reg, lk, done, i + 1, 0, fuel, out);
        } else {
            let token = deps[j];
            if spec_any_provides(done, token) {
                assert forall|d: int|
                    0 <= d < j + 1 && d < done[i].meta.dependencies.len() implies spec_any_provides(
                    done,
                    #[trigger] done[i].meta.dependencies[d],
                ) by {}
                lemma_fin_complete(reg, lk, done, i, j + 1, fuel, out);
            } else {
                match spec_candidate(reg, lk, token) {
                    None => {},
                    Some(p) => {
                        if fuel > 0 {
                            let done2 = done.push(p);
                            lemma_candidate_in_registry(reg, lk, token);
                            assert(done2[done.len() as int].provides(token));
                            assert(spec_any_provides(done2, token));
                            assert forall|k: int, d: int|
                                0 <= k < i && k < done2.len() && 0 <= d
                                    < done2[k].meta.dependencies.len() implies spec_any_provides(
                                done2,
                                #[trigger] done2[k].meta.dependencies[d],
                            ) by {
                                assert(done2[k] == done[k]);
                                lemma_provides_monotone(done, p, done[k].meta.dependencies[d]);
                            }
                            assert(done2[i] == done[i]);
                            assert forall|d: int|
                                0 <= d < j + 1 && d
                                    < done2[i].meta.dependencies.len() implies spec_any_provides(
                                done2,
                                #[trigger] done2[i].meta.dependencies[d],
                            ) by {
                                if d < j {
                                    lemma_provides_monotone(done, p, done[i].meta.dependencies[d]);
                                }
                            }
                            lemma_fin_complete(reg, lk, done2, i, j + 1, (fuel - 1) as nat, out);
                        }
                    },
                }
            }
        }
    }
}

/// A reported missing token is genuinely unsatisfiable: the strategy finds
/// no candidate for it in the registry.
pub proof fn lemma_fin_err_token(
    reg: Seq<SpecPackage>,
    lk: Lookup,
    done: Seq<SpecPackage>,
    i: int,
    j: int,
    fuel: nat,
    token: Seq<char>,
)
    requires
        fin_from(reg, lk, done, i, j, fuel) == Some(Err::<Seq<SpecPackage>, _>(token)),
    ensures
        spec_candidate(reg, lk, token) is None,
    decreases fuel, done.len() - i, (if i < done.len() {
        done[i].meta.dependencies.len() - j
    } else {
        0
    }),
{
    if i >= done.len() {
    } else {
        let deps = done[i].meta.dependencies;
        if j >= deps.len() {
            lemma_fin_err_token(reg, lk, done, i + 1, 0, fuel, token);
        } else {
            let t = deps[j];
            if spec_any_provides(done, t) {
                lemma_fin_err_token(reg, lk, done, i, j + 1, fuel, token);
            } else {
                match spec_candidate(reg, lk, t) {
                    None => {},
                    Some(p) => {
                        if fuel > 0 {
                            lemma_fin_err_token(reg, lk, done.push(p), i, j + 1, (fuel - 1) as nat, token);
                        }
                    },
                }
            }
        }
    }
}

/// Unsatisfiable dependency: when a seed requires a token that neither the
/// registry nor any seed exports, resolution cannot complete — it reports
/// some token for which the strategy finds no candidate.
pub proof fn lemma_missing_provider(
    reg: Seq<SpecPackage>,
    lk: Lookup,
    seeds: Seq<SpecPackage>,
    token: Seq<char>,
    r: Result<Seq<SpecPackage>, Seq<char>>,
)
    requires
        spec_finalize(reg, lk, seeds) == Some(r),
        exists|k: int|
            0 <= k < seeds.len() && #[trigger] seeds[k].meta.dependencies.contains(token),
        forall|k: int| 0 <= k < reg.len() ==> !(#[trigger] reg[k]).provides(token),
        forall|k: int| 0 <= k < seeds.len() ==> !(#[trigger] seeds[k]).provides(token),
    ensures
        r is Err,
        spec_candidate(reg, lk, r->Err_0) is None,
{
    if let Ok(out) = r {
        lemma_fin_members(reg, lk, seeds, 0, 0, (reg.len() + 1) as nat, out);
        lemma_fin_complete(reg, lk, seeds, 0, 0, (reg.len() + 1) as nat, out);
        let k = choose|k: int|
            0 <= k < seeds.len() && #[trigger] seeds[k].meta.dependencies.contains(token);
        // the requiring seed is a member of the result
        lemma_prefix_member(reg, lk, seeds, 0, 0, (reg.len() + 1) as nat, out, k);
        let d = choose|d: int|
            0 <= d < seeds[k].meta.dependencies.len() && seeds[k].meta.dependencies[d] == token;
        assert(out[k].meta.dependencies[d] == token);
        assert(spec_any_provides(out, token));
        let m = choose|m: int| 0 <= m < out.len() && out[m].provides(token);
        assert(seeds.contains(out[m]) || reg.contains(out[m]));
        if seeds.contains(out[m]) {
            let n = choose|n: int| 0 <= n < seeds.len() && seeds[n] == out[m];
        } else {
            let n = choose|n: int| 0 <= n < reg.len() && reg[n] == out[m];
        }
        assert(false);
    }
    lemma_fin_err_token(reg, lk, seeds, 0, 0, (reg.len() + 1) as nat, r->Err_0);
}

/// The settled state is a prefix of a completed resolution; returns the
/// index at which member `k` of `done` stands in the result (it is `k`).
pub proof fn lemma_prefix_member(
    reg: Seq<SpecPackage>,
    lk: Lookup,
    done: Seq<SpecPackage>,
    i: int,
    j: int,
    fuel: nat,
    out: Seq<SpecPackage>,
    k: int,
)
    requires
        fin_from(reg, lk, done, i, j, fuel) == Some(Ok::<_, Seq<char>>(out)),
        0 <= k < done.len(),
    ensures
        0 <= k < out.len(),
        out[k] == done[k],
    decreases fuel, done.len() - i, (if i < done.len() {
        done[i].meta.dependencies.len() - j
    } else {
        0
    }),
{
    if i >= done.len() {
    } else {
        let deps = done[i].meta.dependencies;
        if j >= deps.len() {
            lemma_prefix_member(reg, lk, done, i + 1, 0, fuel, out, k);
        } else {
            let t = deps[j];
            if spec_any_provides(done, t) {
                lemma_prefix_member(reg, lk, done, i, j + 1, fuel, out, k);
            } else {
                match spec_candidate(reg, lk, t) {
                    None => {},
                    Some(p) => {
                        if fuel > 0 {
                            lemma_prefix_member(reg, lk, done.push(p), i, j + 1, (fuel - 1) as nat, out, k);
                            assert(done.push(p)[k] == done[k]);
                        }
                    },
                }
            }
        }
    }
}

/// Provider resolution priority: whatever candidate a strategy picks for a
/// token, its repository priority is at least that of every record the
/// same strategy could have picked. In particular, when two repositories
/// both advertise an exporter of the token, the higher-priority one's
/// record is chosen, under either strategy.
pub proof fn lemma_provider_resolution_priority(
    reg: Seq<SpecPackage>,
    lk: Lookup,
    token: Seq<char>,
    c: SpecPackage,
)
    requires
        spec_sorted_by_priority(reg),
        spec_candidate(reg, lk, token) == Some(c),
    ensures
        lk is AvailableOnly ==> forall|k: int|
            0 <= k < reg.len() && (#[trigger] reg[k]).provides(token) && reg[k].flags.available
                ==> c.priority >= reg[k].priority,
        lk is PreferAvailable && (forall|k: int|
            0 <= k < reg.len() ==> !((#[trigger] reg[k]).provides(token)
                && reg[k].flags.installed)) ==> forall|k: int|
            0 <= k < reg.len() && (#[trigger] reg[k]).provides(token) && reg[k].flags.available
                ==> c.priority >= reg[k].priority,
        lk is PreferAvailable ==> forall|k: int|
            0 <= k < reg.len() && (#[trigger] reg[k]).provides(token) && reg[k].flags.installed
                ==> c.priority >= reg[k].priority,
{
    let fa = spec_filter(reg, avail_pred(token));
    let fi = spec_filter(reg, inst_pred(token));
    match lk {
        Lookup::AvailableOnly => {
            lemma_filter_first_max_priority(reg, avail_pred(token));
        },
        Lookup::PreferAvailable => {
            if spec_first(reg, inst_pred(token)) is Some {
                lemma_filter_first_max_priority(reg, inst_pred(token));
                lemma_filter_membership(reg, inst_pred(token));
                // an installed exporter exists, so the no-installed premise
                // of the second conclusion is vacuously false
                assert(reg.contains(fi[0]) && inst_pred(token)(fi[0]));
                let n = choose|n: int| 0 <= n < reg.len() && reg[n] == fi[0];
                assert(reg[n].provides(token) && reg[n].flags.installed);
            } else {
                lemma_filter_first_max_priority(reg, avail_pred(token));
                // no record is an installed exporter of the token
                crate::registry::lemma_filter_empty(reg, inst_pred(token));
                assert forall|k: int|
                    0 <= k < reg.len() && (#[trigger] reg[k]).provides(token)
                        && reg[k].flags.installed implies c.priority >= reg[k].priority by {
                    assert(inst_pred(token)(reg[k]));
                }
            }
        },
    }
}


/// Idempotence of the sync diff: nothing is to be installed exactly when
/// every finalized package is already installed by id (for a stateful
/// client), and nothing is to be removed exactly when every installed
/// name survives in the finalized set. A no-op plan creates no state:
/// `apply_sync_plan` leaves the client untouched on an empty diff.
pub proof fn lemma_sync_diff_empty(
    fin: Seq<SpecPackage>,
    inst: Seq<SpecPackage>,
    ephemeral: bool,
)
    ensures
        !ephemeral ==> (crate::sync::spec_synced(fin, inst, ephemeral).len() == 0 <==> (forall|
            k: int,
        | 0 <= k < fin.len() ==> crate::package::spec_contains_id(inst, (#[trigger] fin[k]).id))),
        ephemeral ==> crate::sync::spec_synced(fin, inst, ephemeral) == fin,
        crate::sync::spec_removed(fin, inst).len() == 0 <==> (forall|k: int|
            0 <= k < inst.len() ==> crate::package::spec_contains_name(
                fin,
                (#[trigger] inst[k]).meta.name,
            )),
{
    let pred_s = |p: SpecPackage| ephemeral || !crate::package::spec_contains_id(inst, p.id);
    let pred_r = |p: SpecPackage| !crate::package::spec_contains_name(fin, p.meta.name);
    crate::registry::lemma_filter_empty(fin, pred_s);
    crate::registry::lemma_filter_empty(inst, pred_r);
    if ephemeral {
        crate::registry::lemma_filter_all(fin, pred_s);
    }
}

/// Selection carry-over: a finalized package whose looked-up previous
/// selection was explicit stays explicit (reason kept, id renewed); one
/// with no previous selection is never explicit merely for being
/// re-resolved.
pub proof fn lemma_selection_carry_over(
    p: SpecPackage,
    inst: Seq<SpecPackage>,
    prev: Seq<crate::state::SpecSelection>,
)
    ensures
        ({
            let lid = match crate::registry::spec_find(
                inst,
                |q: SpecPackage| q.meta.name == p.meta.name,
            ) {
                Some(q) => q.id,
                None => p.id,
            };
            let carried = crate::sync::spec_carry_one(p, inst, prev);
            &&& carried.package == p.id
            &&& (match crate::registry::spec_find(
                prev,
                |s: crate::state::SpecSelection| s.package == lid,
            ) {
                Some(s) => carried.explicit == s.explicit && carried.reason == s.reason,
                None => !carried.explicit && carried.reason is None,
            })
        }),
{
}

/// Prune retention: a keep-recent prune condemns all removal candidates
/// but the `keep` most recent; every victim is a genuine candidate — so
/// never the active state, and never one newer than it unless asked —
/// and every victim is older than every retained candidate.
pub proof fn lemma_prune_retention(
    states: Seq<crate::state::SpecState>,
    active: Option<u64>,
    keep: u64,
    include_newer: bool,
)
    requires
        crate::state::spec_ids_ascending(states),
    ensures
        ({
            let c = crate::state::spec_prune_candidates(states, active, include_newer);
            let v = crate::state::spec_keep_recent_victims(states, active, keep, include_newer);
            &&& v.len() == (if c.len() > keep {
                c.len() - keep
            } else {
                0
            })
            &&& forall|m: int|
                0 <= m < v.len() ==> crate::state::spec_prune_candidate(
                    #[trigger] v[m],
                    active,
                    include_newer,
                )
            &&& forall|m: int, n: int|
                0 <= m < v.len() && v.len() <= n < c.len() ==> (#[trigger] v[m]).id < (
                #[trigger] c[n]).id
        }),
{
    let pred = |st: crate::state::SpecState| crate::state::spec_prune_candidate(
        st,
        active,
        include_newer,
    );
    let c = crate::state::spec_prune_candidates(states, active, include_newer);
    let v = crate::state::spec_keep_recent_victims(states, active, keep, include_newer);
    crate::registry::lemma_filter_membership(states, pred);
    crate::state::lemma_state_filter_ascending(states, pred);
    assert forall|m: int| 0 <= m < v.len() implies crate::state::spec_prune_candidate(
        #[trigger] v[m],
        active,
        include_newer,
    ) by {
        assert(v[m] == c[m]);
        assert(pred(c[m]));
    }
    assert forall|m: int, n: int|
        0 <= m < v.len() && v.len() <= n < c.len() implies (#[trigger] v[m]).id < (
    #[trigger] c[n]).id by {
        assert(v[m] == c[m]);
    }
}

/// Export/import round trip: resolving a sync from an exported model
/// marks a finalized package explicit exactly when one of its providers
/// is the name of a package that was explicitly selected (and still
/// known to the registry) in the exported state.
pub proof fn lemma_export_import_round_trip(
    reg: Seq<SpecPackage>,
    sels: Seq<crate::state::SpecSelection>,
    fin: Seq<SpecPackage>,
    k: int,
)
    requires
        0 <= k < fin.len(),
    ensures
        ({
            let exported = crate::client::spec_export(reg, sels);
            crate::sync::spec_model_selections(fin, exported)[k].explicit <==> exists|j: int, m: int|
                0 <= j < fin[k].meta.providers.len() && 0 <= m < sels.len() && (#[trigger] sels[m]).explicit
                    && (match crate::registry::spec_by_id(reg, sels[m].package) {
                    Some(p) => p.meta.name == #[trigger] fin[k].meta.providers[j],
                    None => false,
                })
        }),
{
    let exported = crate::client::spec_export(reg, sels);
    lemma_export_membership(reg, sels);
    assert(crate::sync::spec_model_selections(fin, exported)[k].explicit
        == crate::sync::spec_tokens_intersect(fin[k].meta.providers, exported));
    if crate::sync::spec_tokens_intersect(fin[k].meta.providers, exported) {
        let j = choose|j: int|
            0 <= j < fin[k].meta.providers.len() && exported.contains(
                #[trigger] fin[k].meta.providers[j],
            );
        let m = choose|m: int|
            0 <= m < sels.len() && (#[trigger] sels[m]).explicit && (match crate::registry::spec_by_id(
                reg,
                sels[m].package,
            ) {
                Some(p) => p.meta.name == fin[k].meta.providers[j],
                None => false,
            });
    } else {
        if exists|j: int, m: int|
            0 <= j < fin[k].meta.providers.len() && 0 <= m < sels.len() && (#[trigger] sels[m]).explicit
                && (match crate::registry::spec_by_id(reg, sels[m].package) {
                Some(p) => p.meta.name == #[trigger] fin[k].meta.providers[j],
                None => false,
            }) {
            let (j, m) = choose|j: int, m: int|
                0 <= j < fin[k].meta.providers.len() && 0 <= m < sels.len() && (#[trigger] sels[m]).explicit
                    && (match crate::registry::spec_by_id(reg, sels[m].package) {
                    Some(p) => p.meta.name == #[trigger] fin[k].meta.providers[j],
                    None => false,
                });
            assert(exported.contains(fin[k].meta.providers[j]));
        }
    }
}

/// What the export names: exactly the names of the explicitly selected
/// packages the registry still knows.
pub proof fn lemma_export_membership(reg: Seq<SpecPackage>, sels: Seq<crate::state::SpecSelection>)
    ensures
        forall|t: Seq<char>|
            #[trigger] crate::client::spec_export(reg, sels).contains(t) <==> exists|m: int|
                0 <= m < sels.len() && (#[trigger] sels[m]).explicit && (
                match crate::registry::spec_by_id(reg, sels[m].package) {
                    Some(p) => p.meta.name == t,
                    None => false,
                }),
    decreases sels.len(),
{
    let e = crate::client::spec_export(reg, sels);
    if sels.len() == 0 {
        assert forall|t: Seq<char>| #[trigger] e.contains(t) implies false by {}
    } else {
        lemma_export_membership(reg, sels.drop_last());
        let rest = crate::client::spec_export(reg, sels.drop_last());
        let s = sels.last();
        assert forall|t: Seq<char>| #[trigger] e.contains(t) implies exists|m: int|
            0 <= m < sels.len() && (#[trigger] sels[m]).explicit && (
            match crate::registry::spec_by_id(reg, sels[m].package) {
                Some(p) => p.meta.name == t,
                None => false,
            }) by {
            if rest.contains(t) {
                let m = choose|m: int|
                    0 <= m < sels.drop_last().len() && (#[trigger] sels.drop_last()[m]).explicit
                        && (match crate::registry::spec_by_id(reg, sels.drop_last()[m].package) {
                        Some(p) => p.meta.name == t,
                        None => false,
                    });
                assert(sels[m] == sels.drop_last()[m]);
                assert(sels[m].explicit);
            } else {
                // t was pushed by the last selection
                assert(sels[sels.len() - 1] == s);
                if s.explicit {
                    match crate::registry::spec_by_id(reg, s.package) {
                        Some(p) => {
                            if !rest.contains(p.meta.name) {
                                let n = e.len() - 1;
                                if e.contains(t) {
                                    let x = choose|x: int| 0 <= x < e.len() && e[x] == t;
                                    if x < rest.len() {
                                        assert(rest[x] == t);
                                        assert(rest.contains(t));
                                    } else {
                                        assert(t == p.meta.name);
                                    }
                                }
                            }
                        },
                        None => {},
                    }
                }
            }
        }
        assert forall|t: Seq<char>|
            (exists|m: int|
                0 <= m < sels.len() && (#[trigger] sels[m]).explicit && (
                match crate::registry::spec_by_id(reg, sels[m].package) {
                    Some(p) => p.meta.name == t,
                    None => false,
                })) implies #[trigger] e.contains(t) by {
            let m = choose|m: int|
                0 <= m < sels.len() && (#[trigger] sels[m]).explicit && (
                match crate::registry::spec_by_id(reg, sels[m].package) {
                    Some(p) => p.meta.name == t,
                    None => false,
                });
            if m < sels.len() - 1 {
                assert(sels.drop_last()[m] == sels[m]);
                assert(sels.drop_last()[m].explicit);
                assert(rest.contains(t));
                let x = choose|x: int| 0 <= x < rest.len() && rest[x] == t;
                if s.explicit {
                    match crate::registry::spec_by_id(reg, s.package) {
                        Some(p) => {
                            if rest.contains(p.meta.name) {
                                assert(e == rest);
                            } else {
                                assert(e == rest.push(p.meta.name));
                                assert(e[x] == t);
                            }
                        },
                        None => {},
                    }
                } else {
                    assert(e == rest);
                }
            } else {
                // the last selection itself
                assert(sels[m] == s);
                match crate::registry::spec_by_id(reg, s.package) {
                    Some(p) => {
                        if rest.contains(p.meta.name) {
                            assert(e == rest);
                        } else {
                            assert(e == rest.push(p.meta.name));
                            assert(e[e.len() - 1] == p.meta.name);
                        }
                    },
                    None => {},
                }
            }
        }
    }
}


/// Are all of `p`'s required tokens exported by installed records of
/// `reg`?
pub open spec fn spec_deps_covered(reg: Seq<SpecPackage>, p: SpecPackage) -> bool {
    forall|d: int|
        #![trigger p.meta.dependencies[d]]
        0 <= d < p.meta.dependencies.len() ==> exists|m: int|
            0 <= m < reg.len() && (#[trigger] reg[m]).flags.installed && reg[m].provides(
                p.meta.dependencies[d],
            )
}

/// Is every installed package's dependency met by an installed package?
/// After a completed sync's filesystem application this holds of the
/// registry: the applied set was dependency-complete.
pub open spec fn spec_installed_complete(reg: Seq<SpecPackage>) -> bool {
    forall|m: int|
        0 <= m < reg.len() && (#[trigger] reg[m]).flags.installed ==> spec_deps_covered(
            reg,
            reg[m],
        )
}

/// Within an installed, dependency-complete universe, a resolution that
/// prefers installed packages never leaves it: every member of the
/// completed list is installed.
pub proof fn lemma_fin_installed_only(
    reg: Seq<SpecPackage>,
    done: Seq<SpecPackage>,
    i: int,
    j: int,
    fuel: nat,
    out: Seq<SpecPackage>,
)
    requires
        fin_from(reg, Lookup::PreferAvailable, done, i, j, fuel) == Some(Ok::<_, Seq<char>>(out)),
        0 <= i,
        0 <= j,
        spec_installed_complete(reg),
        forall|k: int| 0 <= k < done.len() ==> (#[trigger] done[k]).flags.installed,
        forall|k: int| 0 <= k < done.len() ==> spec_deps_covered(reg, #[trigger] done[k]),
    ensures
        forall|k: int| 0 <= k < out.len() ==> (#[trigger] out[k]).flags.installed,
    decreases fuel, done.len() - i, (if i < done.len() {
        done[i].meta.dependencies.len() - j
    } else {
        0
    }),
{
    if i >= done.len() {
        assert forall|k: int| 0 <= k < out.len() implies (#[trigger] out[k]).flags.installed by {
            assert(out[k] == done[k]);
        }
    } else {
        let deps = done[i].meta.dependencies;
        if j >= deps.len() {
            lemma_fin_installed_only(reg, done, i + 1, 0, fuel, out);
        } else {
            let token = deps[j];
            if spec_any_provides(done, token) {
                lemma_fin_installed_only(reg, done, i, j + 1, fuel, out);
            } else {
                // an installed exporter of the token exists, so the
                // strategy picks an installed one
                assert(spec_deps_covered(reg, done[i]));
                assert(token == done[i].meta.dependencies[j]);
                assert(exists|m: int|
                    0 <= m < reg.len() && (#[trigger] reg[m]).flags.installed && reg[m].provides(
                        done[i].meta.dependencies[j],
                    ));
                let m2 = choose|m2: int|
                    0 <= m2 < reg.len() && (#[trigger] reg[m2]).flags.installed && reg[m2].provides(
                        token,
                    );
                assert(inst_pred(token)(reg[m2]));
                crate::registry::lemma_filter_empty(reg, inst_pred(token));
                assert(spec_filter(reg, inst_pred(token)).len() > 0);
                lemma_filter_membership(reg, inst_pred(token));
                let p = spec_filter(reg, inst_pred(token))[0];
                assert(spec_candidate(reg, Lookup::PreferAvailable, token) == Some(p));
                assert(inst_pred(token)(p) && reg.contains(p));
                if fuel > 0 {
                    let done2 = done.push(p);
                    let n = choose|n: int| 0 <= n < reg.len() && reg[n] == p;
                    assert(spec_deps_covered(reg, reg[n]));
                    assert forall|k: int| 0 <= k < done2.len() implies spec_deps_covered(
                        reg,
                        #[trigger] done2[k],
                    ) by {
                        if k < done.len() {
                            assert(done2[k] == done[k]);
                        } else {
                            assert(done2[k] == reg[n]);
                        }
                    }
                    lemma_fin_installed_only(reg, done2, i, j + 1, (fuel - 1) as nat, out);
                }
            }
        }
    }
}

/// Idempotence of sync, install side: once the installed set is
/// dependency-complete and the seeds are installed registry records, a
/// resolution preferring installed packages yields a set with nothing
/// left to install — the second run of a sync fetches nothing.
pub proof fn lemma_resync_installs_nothing(
    reg: Seq<SpecPackage>,
    seeds: Seq<SpecPackage>,
    out: Seq<SpecPackage>,
)
    requires
        spec_finalize(reg, Lookup::PreferAvailable, seeds) == Some(Ok::<_, Seq<char>>(out)),
        spec_installed_complete(reg),
        forall|k: int|
            0 <= k < seeds.len() ==> exists|m: int|
                0 <= m < reg.len() && reg[m] == #[trigger] seeds[k] && reg[m].flags.installed,
    ensures
        crate::sync::spec_synced(
            out,
            spec_filter(reg, crate::registry::Registry::installed_pred()),
            false,
        ).len() == 0,
{
    let inst = spec_filter(reg, crate::registry::Registry::installed_pred());
    assert forall|k: int| 0 <= k < seeds.len() implies (#[trigger] seeds[k]).flags.installed
        && spec_deps_covered(reg, seeds[k]) by {
        let m = choose|m: int|
            0 <= m < reg.len() && reg[m] == seeds[k] && reg[m].flags.installed;
        assert(spec_deps_covered(reg, reg[m]));
    }
    lemma_fin_installed_only(reg, seeds, 0, 0, (reg.len() + 1) as nat, out);
    lemma_fin_members(reg, Lookup::PreferAvailable, seeds, 0, 0, (reg.len() + 1) as nat, out);
    lemma_filter_membership(reg, crate::registry::Registry::installed_pred());
    assert forall|k: int|
        0 <= k < out.len() implies crate::package::spec_contains_id(
        inst,
        (#[trigger] out[k]).id,
    ) by {
        // the member is an installed registry record, so it stands in
        // the installed list
        if seeds.contains(out[k]) {
            let m = choose|m: int| 0 <= m < seeds.len() && seeds[m] == out[k];
            let n = choose|n: int|
                0 <= n < reg.len() && reg[n] == seeds[m] && reg[n].flags.installed;
            assert(crate::registry::Registry::installed_pred()(reg[n]));
            assert(inst.contains(reg[n]));
            let w = choose|w: int| 0 <= w < inst.len() && inst[w] == reg[n];
            assert(inst[w].id == out[k].id);
        } else {
            let n = choose|n: int| 0 <= n < reg.len() && reg[n] == out[k];
            assert(crate::registry::Registry::installed_pred()(reg[n]));
            assert(inst.contains(reg[n]));
            let w = choose|w: int| 0 <= w < inst.len() && inst[w] == reg[n];
            assert(inst[w].id == out[k].id);
        }
    }
    lemma_sync_diff_empty(out, inst, false);
}

} // verus!

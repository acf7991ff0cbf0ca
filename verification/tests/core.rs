use moss::client::{Client, active, blit_delta, list};
use moss::package::{Flags, Meta, Package};
use moss::registry::Registry;
use moss::state::{Error as StateError, Selection, StateDb, Strategy};
use moss::sync::{
    Error as SyncError, apply_sync_plan, plan_sync, resolve_with_installed,
    resolve_with_system_model, sync_diff, SyncOutcome,
};
use moss::system_model::SystemModel;
use moss::transaction::{Error as TxError, Lookup};

fn pkg(
    id: &str,
    name: &str,
    version: &str,
    release: u64,
    providers: &[&str],
    deps: &[&str],
    installed: bool,
    available: bool,
    explicit: bool,
    priority: u64,
) -> Package {
    let mut provs: Vec<String> = providers.iter().map(|s| s.to_string()).collect();
    // every package provides its own name
    if !provs.iter().any(|p| p == name) {
        provs.push(name.to_string());
    }
    Package {
        id: id.to_string(),
        meta: Meta {
            name: name.to_string(),
            version_identifier: version.to_string(),
            source_release: release,
            build_release: 1,
            providers: provs,
            dependencies: deps.iter().map(|s| s.to_string()).collect(),
        },
        flags: Flags {
            explicit,
            installed,
            available,
        },
        priority,
    }
}

fn demo_registry() -> Registry {
    let mut reg = Registry::new();
    // installed, explicit editor depending on a library capability
    assert!(reg.add_package(pkg(
        "editor-1",
        "editor",
        "1.0",
        1,
        &[],
        &["libtext"],
        true,
        false,
        true,
        0,
    )));
    // the library, installed
    assert!(reg.add_package(pkg(
        "libtext-1",
        "libtext",
        "1.0",
        1,
        &["libtext"],
        &[],
        true,
        false,
        false,
        0,
    )));
    // a newer editor available from a repository
    assert!(reg.add_package(pkg(
        "editor-2",
        "editor",
        "1.1",
        2,
        &[],
        &["libtext"],
        false,
        true,
        false,
        10,
    )));
    // a newer library available
    assert!(reg.add_package(pkg(
        "libtext-2",
        "libtext",
        "1.1",
        2,
        &["libtext"],
        &[],
        false,
        true,
        false,
        10,
    )));
    reg
}

#[test]
fn registry_rejects_duplicate_ids() {
    let mut reg = Registry::new();
    assert!(reg.add_package(pkg("a", "a", "1", 1, &[], &[], false, true, false, 5)));
    assert!(!reg.add_package(pkg("a", "a", "2", 2, &[], &[], false, true, false, 5)));
    assert_eq!(reg.packages.len(), 1);
}

#[test]
fn registry_orders_by_priority() {
    let mut reg = Registry::new();
    assert!(reg.add_package(pkg("low", "x", "1", 1, &["cap"], &[], false, true, false, 1)));
    assert!(reg.add_package(pkg("high", "x", "1", 1, &["cap"], &[], false, true, false, 9)));
    assert!(reg.add_package(pkg("mid", "x", "1", 1, &["cap"], &[], false, true, false, 5)));
    let names: Vec<String> = reg.packages.iter().map(|p| p.id.clone()).collect();
    assert_eq!(names, vec!["high".to_string(), "mid".to_string(), "low".to_string()]);
    let by_name = reg.by_name(&"x".to_string(), Flags::new().with_available());
    assert_eq!(by_name[0].id, "high");
}

#[test]
fn determinism_of_finalize() {
    // running finalize twice on the same registry and seeds yields the
    // same ordered package list
    let reg = demo_registry();
    let mut tx1 = reg.transaction(Lookup::PreferAvailable);
    tx1.add(&reg, &vec!["editor-1".to_string()]).unwrap();
    let r1 = tx1.finalize(&reg).unwrap();
    let mut tx2 = reg.transaction(Lookup::PreferAvailable);
    tx2.add(&reg, &vec!["editor-1".to_string()]).unwrap();
    let r2 = tx2.finalize(&reg).unwrap();
    let ids1: Vec<String> = r1.iter().map(|p| p.id.clone()).collect();
    let ids2: Vec<String> = r2.iter().map(|p| p.id.clone()).collect();
    assert_eq!(ids1, ids2);
}

#[test]
fn prefer_available_prefers_installed() {
    let reg = demo_registry();
    let mut tx = reg.transaction(Lookup::PreferAvailable);
    tx.add(&reg, &vec!["editor-1".to_string()]).unwrap();
    let out = tx.finalize(&reg).unwrap();
    // the installed libtext-1 satisfies the dependency
    let ids: Vec<String> = out.iter().map(|p| p.id.clone()).collect();
    assert_eq!(ids, vec!["editor-1".to_string(), "libtext-1".to_string()]);
}

#[test]
fn available_only_ignores_installed() {
    let reg = demo_registry();
    let mut tx = reg.transaction(Lookup::AvailableOnly);
    tx.add(&reg, &vec!["editor-2".to_string()]).unwrap();
    let out = tx.finalize(&reg).unwrap();
    let ids: Vec<String> = out.iter().map(|p| p.id.clone()).collect();
    assert_eq!(ids, vec!["editor-2".to_string(), "libtext-2".to_string()]);
}

#[test]
fn provider_resolution_priority() {
    // two repositories both provide capability X; the higher-priority
    // repository's package is chosen under both strategies
    let mut reg = Registry::new();
    assert!(reg.add_package(pkg("low-x", "prov-lo", "1", 1, &["X"], &[], false, true, false, 1)));
    assert!(reg.add_package(pkg("high-x", "prov-hi", "1", 1, &["X"], &[], false, true, false, 9)));
    assert!(reg.add_package(pkg("app", "app", "1", 1, &[], &["X"], false, true, false, 5)));
    for lookup in [Lookup::PreferAvailable, Lookup::AvailableOnly] {
        let mut tx = reg.transaction(lookup);
        tx.add(&reg, &vec!["app".to_string()]).unwrap();
        let out = tx.finalize(&reg).unwrap();
        let ids: Vec<String> = out.iter().map(|p| p.id.clone()).collect();
        assert_eq!(ids, vec!["app".to_string(), "high-x".to_string()]);
    }
}

#[test]
fn missing_provider_fails_finalize() {
    // a seed requiring provider Y that nothing exports fails with
    // MissingProvider("Y"), and nothing is mutated
    let mut reg = Registry::new();
    assert!(reg.add_package(pkg("app", "app", "1", 1, &[], &["Y"], false, true, false, 5)));
    let mut tx = reg.transaction(Lookup::PreferAvailable);
    tx.add(&reg, &vec!["app".to_string()]).unwrap();
    let err = tx.finalize(&reg).unwrap_err();
    assert_eq!(err, TxError::MissingProvider("Y".to_string()));
}

#[test]
fn duplicate_and_unknown_seeds_are_refused() {
    let reg = demo_registry();
    let mut tx = reg.transaction(Lookup::PreferAvailable);
    let err = tx
        .add(&reg, &vec!["editor-1".to_string(), "editor-1".to_string()])
        .unwrap_err();
    assert_eq!(err, TxError::DuplicateSeed("editor-1".to_string()));
    let mut tx2 = reg.transaction(Lookup::PreferAvailable);
    let err2 = tx2.add(&reg, &vec!["ghost".to_string()]).unwrap_err();
    assert_eq!(err2, TxError::UnknownSeed("ghost".to_string()));
}

#[test]
fn state_store_allocates_monotonic_ids() {
    let mut db = StateDb::new();
    let s1 = db.new_state(vec![], Some("first".to_string()), None, 100);
    let s2 = db.new_state(vec![], None, None, 200);
    assert_eq!(s1.id, 1);
    assert_eq!(s2.id, 2);
    assert_eq!(db.list_ids(), vec![(1, 100), (2, 200)]);
    assert_eq!(db.get(1).unwrap().created, 100);
    assert!(matches!(db.get(7), Err(StateError::NotFound(7))));
}

fn db_with_states(n: u64) -> StateDb {
    let mut db = StateDb::new();
    for i in 0..n {
        db.new_state(vec![], None, None, 1000 + i);
    }
    db
}

#[test]
fn prune_retention() {
    // states 1..10, active 10: keep 3 removes exactly 1..=6
    let db = db_with_states(10);
    let reg = Registry::new();
    let mut client = Client::new(reg, db, Some(10));
    let removed = client
        .prune_states(
            Strategy::KeepRecent {
                keep: 3,
                include_newer: false,
            },
            true,
        )
        .unwrap();
    assert_eq!(removed, vec![1, 2, 3, 4, 5, 6]);
    let left: Vec<u64> = client.state_db.list_ids().iter().map(|(i, _)| *i).collect();
    assert_eq!(left, vec![7, 8, 9, 10]);
}

#[test]
fn prune_never_removes_active() {
    let db = db_with_states(10);
    let reg = Registry::new();
    let mut client = Client::new(reg, db, Some(10));
    let err = client.prune_states(Strategy::Remove(10), true).unwrap_err();
    assert_eq!(err, StateError::CannotRemoveActive(10));
    assert_eq!(client.state_db.states.len(), 10);
}

#[test]
fn prune_remove_archived_state() {
    let db = db_with_states(4);
    let reg = Registry::new();
    let mut client = Client::new(reg, db, Some(4));
    let removed = client.prune_states(Strategy::Remove(2), true).unwrap();
    assert_eq!(removed, vec![2]);
    let left: Vec<u64> = client.state_db.list_ids().iter().map(|(i, _)| *i).collect();
    assert_eq!(left, vec![1, 3, 4]);
    assert!(matches!(
        client.prune_states(Strategy::Remove(9), true),
        Err(StateError::NotFound(9))
    ));
}

#[test]
fn unconfirmed_prune_only_reports() {
    let db = db_with_states(10);
    let reg = Registry::new();
    let mut client = Client::new(reg, db, Some(10));
    let removed = client
        .prune_states(
            Strategy::KeepRecent {
                keep: 3,
                include_newer: false,
            },
            false,
        )
        .unwrap();
    assert_eq!(removed, vec![1, 2, 3, 4, 5, 6]);
    assert_eq!(client.state_db.states.len(), 10);
}

#[test]
fn prune_include_newer() {
    // active 5 of 1..8: without include_newer 6..8 are retained; with it
    // they are candidates too
    let db = db_with_states(8);
    let reg = Registry::new();
    let mut client = Client::new(reg, db, Some(5));
    let removed = client
        .prune_states(
            Strategy::KeepRecent {
                keep: 1,
                include_newer: true,
            },
            true,
        )
        .unwrap();
    assert_eq!(removed, vec![1, 2, 3, 4, 6, 7]);
    let left: Vec<u64> = client.state_db.list_ids().iter().map(|(i, _)| *i).collect();
    assert_eq!(left, vec![5, 8]);
}

#[test]
fn activate_state_swaps_pointer() {
    let db = db_with_states(3);
    let reg = Registry::new();
    let mut client = Client::new(reg, db, Some(3));
    let prev = client.activate_state(1).unwrap();
    assert_eq!(prev, Some(3));
    assert_eq!(client.active_state, Some(1));
    assert!(matches!(
        client.activate_state(9),
        Err(StateError::NotFound(9))
    ));
    assert_eq!(client.active_state, Some(1));
}

#[test]
fn active_and_list() {
    let db = db_with_states(3);
    let reg = Registry::new();
    let client = Client::new(reg, db, Some(2));
    let st = active(&client).unwrap().unwrap();
    assert_eq!(st.id, 2);
    let states = list(&client);
    let ids: Vec<u64> = states.iter().map(|s| s.id).collect();
    assert_eq!(ids, vec![3, 2, 1]);
}

#[test]
fn sync_plan_and_commit() {
    let reg = demo_registry();
    let mut db = StateDb::new();
    // the previous active state marks the editor as explicit
    db.new_state(
        vec![Selection {
            package: "editor-1".to_string(),
            explicit: true,
            reason: Some("requested".to_string()),
        }],
        Some("Bootstrap".to_string()),
        None,
        100,
    );
    let mut client = Client::new(reg, db, Some(1));
    let plan = plan_sync(&client, None).unwrap();
    let fin: Vec<String> = plan.finalized.iter().map(|p| p.id.clone()).collect();
    // the explicit editor is re-seeded to the newer available editor-2,
    // whose dependency is met by the installed libtext-1
    assert_eq!(fin, vec!["editor-2".to_string(), "libtext-1".to_string()]);
    let synced: Vec<String> = plan.synced.iter().map(|p| p.id.clone()).collect();
    assert_eq!(synced, vec!["editor-2".to_string()]);
    assert!(plan.removed.is_empty());
    let outcome = apply_sync_plan(&mut client, &plan, None, true, 555).unwrap();
    match outcome {
        SyncOutcome::Committed(st) => {
            assert_eq!(st.id, 2);
            assert_eq!(st.created, 555);
            assert_eq!(st.summary, Some("Sync".to_string()));
            // explicit flag carried over from the installed editor
            let editor = st.selections.iter().find(|s| s.package == "editor-2").unwrap();
            assert!(editor.explicit);
            assert_eq!(editor.reason, Some("requested".to_string()));
            let lib = st.selections.iter().find(|s| s.package == "libtext-1").unwrap();
            assert!(!lib.explicit);
        }
        other => panic!("unexpected outcome {:?}", other),
    }
    assert_eq!(client.active_state, Some(2));
}

#[test]
fn sync_declined_is_cancelled() {
    let reg = demo_registry();
    let mut client = Client::new(reg, StateDb::new(), None);
    let plan = plan_sync(&client, None).unwrap();
    let err = apply_sync_plan(&mut client, &plan, None, false, 1).unwrap_err();
    assert_eq!(err, SyncError::Cancelled);
    assert_eq!(client.state_db.states.len(), 0);
}

#[test]
fn sync_idempotent_second_run_is_noop() {
    // second sync with no repository changes: empty diff, no new state
    let reg = demo_registry();
    let mut client = Client::new(reg, StateDb::new(), None);
    let plan = plan_sync(&client, None).unwrap();
    apply_sync_plan(&mut client, &plan, None, true, 1).unwrap();
    // after the blit the finalized packages are the installed set
    let mut reg2 = Registry::new();
    assert!(reg2.add_package(pkg(
        "editor-2", "editor", "1.1", 2, &[], &["libtext"], true, true, true, 10,
    )));
    assert!(reg2.add_package(pkg(
        "libtext-1", "libtext", "1.0", 1, &["libtext"], &[], true, false, false, 0,
    )));
    assert!(reg2.add_package(pkg(
        "libtext-2", "libtext", "1.1", 2, &["libtext"], &[], false, true, false, 10,
    )));
    let db = std::mem::replace(&mut client.state_db, StateDb::new());
    let mut client2 = Client::new(reg2, db, client.active_state);
    let plan2 = plan_sync(&client2, None).unwrap();
    assert!(plan2.synced.is_empty());
    assert!(plan2.removed.is_empty());
    let n_before = client2.state_db.states.len();
    let outcome = apply_sync_plan(&mut client2, &plan2, None, true, 2).unwrap();
    assert!(matches!(outcome, SyncOutcome::NoOp));
    assert_eq!(client2.state_db.states.len(), n_before);
}

#[test]
fn sync_with_system_model() {
    let reg = demo_registry();
    let client = Client::new(reg, StateDb::new(), None);
    let mut model = SystemModel::new();
    model.add_package("editor".to_string());
    let out = resolve_with_system_model(&client, &model).unwrap();
    let ids: Vec<String> = out.iter().map(|p| p.id.clone()).collect();
    assert_eq!(ids, vec!["editor-2".to_string(), "libtext-2".to_string()]);
}

#[test]
fn system_model_missing_package() {
    let reg = demo_registry();
    let client = Client::new(reg, StateDb::new(), None);
    let mut model = SystemModel::new();
    model.add_package("no-such-capability".to_string());
    let err = resolve_with_system_model(&client, &model).unwrap_err();
    assert_eq!(
        err,
        SyncError::MissingSystemModelPackage("no-such-capability".to_string())
    );
}

#[test]
fn export_import_round_trip() {
    // exporting a state's explicit selections and importing the model
    // yields explicit flags that match the exported providers exactly
    let reg = demo_registry();
    let mut client = Client::new(reg, StateDb::new(), None);
    let selections = vec![
        Selection {
            package: "editor-1".to_string(),
            explicit: true,
            reason: None,
        },
        Selection {
            package: "libtext-1".to_string(),
            explicit: false,
            reason: None,
        },
    ];
    client.new_state(&selections, "Sync", 42).unwrap();
    let model = client.export_state(1).unwrap();
    assert_eq!(model.packages, vec!["editor".to_string()]);
    let plan = plan_sync(&client, Some(&model)).unwrap();
    let outcome = apply_sync_plan(&mut client, &plan, Some(&model), true, 43).unwrap();
    match outcome {
        SyncOutcome::Committed(st) => {
            for sel in &st.selections {
                let expected = sel.package.starts_with("editor");
                assert_eq!(sel.explicit, expected, "selection {:?}", sel);
            }
        }
        other => panic!("unexpected outcome {:?}", other),
    }
}

#[test]
fn ephemeral_sync_records_no_state() {
    let reg = demo_registry();
    let mut client = Client::new(reg, StateDb::new(), None).ephemeral();
    let plan = plan_sync(&client, None).unwrap();
    // everything counts as new for an ephemeral client
    assert_eq!(plan.synced.len(), plan.finalized.len());
    let outcome = apply_sync_plan(&mut client, &plan, None, true, 9).unwrap();
    assert!(matches!(outcome, SyncOutcome::Ephemeral));
    assert_eq!(client.state_db.states.len(), 0);
}

#[test]
fn sync_diff_reports_orphans() {
    let finalized = vec![pkg("a2", "a", "2", 2, &[], &[], false, true, false, 5)];
    let installed = vec![
        pkg("a1", "a", "1", 1, &[], &[], true, false, true, 0),
        pkg("b1", "b", "1", 1, &[], &[], true, false, false, 0),
    ];
    let (synced, removed) = sync_diff(&finalized, &installed, false);
    let s: Vec<String> = synced.iter().map(|p| p.id.clone()).collect();
    let r: Vec<String> = removed.iter().map(|p| p.id.clone()).collect();
    assert_eq!(s, vec!["a2".to_string()]);
    assert_eq!(r, vec!["b1".to_string()]);
}

#[test]
fn resolve_with_installed_keeps_id_when_candidate_installed() {
    // when the best available candidate is already installed, the
    // installed id is kept as the seed
    let mut reg = Registry::new();
    assert!(reg.add_package(pkg("a1", "a", "1", 1, &[], &[], true, true, true, 5)));
    let client = Client::new(reg, StateDb::new(), None);
    let installed = client.registry.list_installed();
    let out = resolve_with_installed(&client, &installed).unwrap();
    let ids: Vec<String> = out.iter().map(|p| p.id.clone()).collect();
    assert_eq!(ids, vec!["a1".to_string()]);
}

#[test]
fn export_state_unknown_id() {
    let reg = Registry::new();
    let client = Client::new(reg, StateDb::new(), None);
    assert!(matches!(
        client.export_state(3),
        Err(StateError::NotFound(3))
    ));
}

#[test]
fn blit_delta_between_selections() {
    let cur = vec![
        Selection { package: "a".to_string(), explicit: true, reason: None },
        Selection { package: "b".to_string(), explicit: false, reason: None },
    ];
    let tgt = vec![
        Selection { package: "b".to_string(), explicit: false, reason: None },
        Selection { package: "c".to_string(), explicit: true, reason: None },
    ];
    let (install, remove) = blit_delta(&cur, &tgt);
    assert_eq!(install, vec!["c".to_string()]);
    assert_eq!(remove, vec!["a".to_string()]);
}

#[test]
fn empty_seed_set_finalizes_empty() {
    let reg = demo_registry();
    let tx = reg.transaction(Lookup::PreferAvailable);
    let out = tx.finalize(&reg).unwrap();
    assert!(out.is_empty());
}

#[test]
fn prune_on_empty_store() {
    let reg = Registry::new();
    let mut client = Client::new(reg, StateDb::new(), None);
    let removed = client
        .prune_states(
            Strategy::KeepRecent {
                keep: 3,
                include_newer: false,
            },
            true,
        )
        .unwrap();
    assert!(removed.is_empty());
}

#[test]
fn export_skips_vanished_packages() {
    // a selection whose package the registry no longer knows contributes
    // nothing to the export
    let reg = demo_registry();
    let mut client = Client::new(reg, StateDb::new(), None);
    let selections = vec![
        Selection {
            package: "gone-1".to_string(),
            explicit: true,
            reason: None,
        },
        Selection {
            package: "libtext-1".to_string(),
            explicit: true,
            reason: None,
        },
    ];
    client.new_state(&selections, "Sync", 1).unwrap();
    let model = client.export_state(1).unwrap();
    assert_eq!(model.packages, vec!["libtext".to_string()]);
}

use durable_catalog::applier::Mode;
use durable_catalog::catalog::find_values;
use durable_catalog::error::{DurableCatalogError, FenceError, Version, Violation};
use durable_catalog::handle::PersistHandle;
use durable_catalog::log::LogShard;
use durable_catalog::update::{CollectionType, StateUpdate, StateUpdateKind};

const ORG: u128 = 0x67e5504410b1426f9247bb680e5fe0c8;

fn version() -> Version {
    Version { major: 0, minor: 90, patch: 0 }
}

fn entry(key: &str, value: &str) -> StateUpdateKind {
    StateUpdateKind::Entry(CollectionType::Item, key.to_string(), value.to_string())
}

fn config(key: &str, value: u64) -> StateUpdateKind {
    StateUpdateKind::Config(key.to_string(), value)
}

fn fresh() -> (LogShard, LogShard) {
    (LogShard::new(), LogShard::new())
}

fn open_writable(log: &mut LogShard, upgrade: &mut LogShard) -> PersistHandle {
    let unopened = PersistHandle::new(log, upgrade, ORG, version()).unwrap();
    unopened.open(log, upgrade, Mode::Writable, None).unwrap()
}

#[test]
fn fresh_shard_becomes_initialized_after_bootstrap() {
    let (mut log, upgrade) = fresh();
    let mut h = PersistHandle::new(&mut log, &upgrade, ORG, version()).unwrap();
    assert_eq!(h.is_initialized(&log), Ok(false));
    h.compare_and_append(&mut log, vec![(config("user_version", 1), 1)]).unwrap();
    assert_eq!(h.is_initialized(&log), Ok(true));
    assert_eq!(h.get_current_config(&log, &"user_version".to_string()), Ok(Some(1)));
    assert_eq!(h.get_current_config(&log, &"missing".to_string()), Ok(None));
}

#[test]
fn new_handle_makes_the_shard_readable() {
    let (mut log, upgrade) = fresh();
    let h = PersistHandle::new(&mut log, &upgrade, ORG, version()).unwrap();
    assert_eq!(log.upper, 1);
    assert_eq!(h.upper, 1);
    assert!(log.updates.is_empty());
}

#[test]
fn later_writer_fences_earlier_one() {
    let (mut log, mut upgrade) = fresh();
    let mut a = open_writable(&mut log, &mut upgrade);
    let ea = a.current_epoch(&log).unwrap();
    let mut b = open_writable(&mut log, &mut upgrade);
    let eb = b.current_epoch(&log).unwrap();
    assert_eq!(eb, ea + 1);
    assert_eq!(
        a.sync_to_current_upper(&log),
        Err(DurableCatalogError::Fence(FenceError::Epoch { current_epoch: ea, fence_epoch: eb }))
    );
    // Fencing is permanent for this handle.
    assert_eq!(
        a.sync_to_current_upper(&log),
        Err(DurableCatalogError::Fence(FenceError::Epoch { current_epoch: ea, fence_epoch: eb }))
    );
    assert!(b.sync_to_current_upper(&log).is_ok());
}

#[test]
fn fencing_is_monotonic_over_three_writers() {
    let (mut log, mut upgrade) = fresh();
    let mut h1 = open_writable(&mut log, &mut upgrade);
    let mut h2 = open_writable(&mut log, &mut upgrade);
    assert!(matches!(h1.sync_to_current_upper(&log), Err(DurableCatalogError::Fence(_))));
    assert!(h2.sync_to_current_upper(&log).is_ok());
    let mut h3 = open_writable(&mut log, &mut upgrade);
    assert!(matches!(h2.sync_to_current_upper(&log), Err(DurableCatalogError::Fence(_))));
    assert!(matches!(h1.sync_to_current_upper(&log), Err(DurableCatalogError::Fence(_))));
    assert!(h3.sync_to_current_upper(&log).is_ok());
    let e1 = h1.epoch.epoch().unwrap();
    let e2 = h2.epoch.epoch().unwrap();
    let e3 = h3.epoch.epoch().unwrap();
    assert!(e1 < e2 && e2 < e3);
}

#[test]
fn writable_open_records_version_in_upgrade_shard() {
    let (mut log, mut upgrade) = fresh();
    let _h = open_writable(&mut log, &mut upgrade);
    assert_eq!(upgrade.applier_version, Some(version()));
    assert_eq!(upgrade.upper, 1);
}

#[test]
fn incompatible_upgrade_version_is_refused() {
    let (mut log, mut upgrade) = fresh();
    upgrade.applier_version = Some(Version { major: 0, minor: 88, patch: 3 });
    let r = PersistHandle::new(&mut log, &upgrade, ORG, version());
    assert!(matches!(
        r,
        Err(DurableCatalogError::IncompatiblePersistVersion {
            found_version: Version { major: 0, minor: 88, patch: 3 },
            catalog_version: Version { major: 0, minor: 90, patch: 0 },
        })
    ));
    assert_eq!(log.upper, 0);
    upgrade.applier_version = Some(Version { major: 0, minor: 89, patch: 7 });
    assert!(PersistHandle::new(&mut log, &upgrade, ORG, version()).is_ok());
}

#[test]
fn read_only_open_of_uninitialized_catalog_is_refused() {
    let (mut log, mut upgrade) = fresh();
    let h = PersistHandle::new(&mut log, &upgrade, ORG, version()).unwrap();
    let r = h.open(&mut log, &mut upgrade, Mode::Readonly, None);
    assert!(matches!(r, Err(DurableCatalogError::NotWritable)));
    let h = PersistHandle::new(&mut log, &upgrade, ORG, version()).unwrap();
    let r = h.open(&mut log, &mut upgrade, Mode::Savepoint, None);
    assert!(matches!(r, Err(DurableCatalogError::NotWritable)));
}

#[test]
fn epoch_of_fresh_catalog_is_uninitialized() {
    let (mut log, upgrade) = fresh();
    let mut h = PersistHandle::new(&mut log, &upgrade, ORG, version()).unwrap();
    assert_eq!(h.current_epoch(&log), Err(DurableCatalogError::Uninitialized));
}

#[test]
fn epoch_lower_bound_is_respected() {
    let (mut log, mut upgrade) = fresh();
    let h = PersistHandle::new(&mut log, &upgrade, ORG, version()).unwrap();
    let mut h = h.open(&mut log, &mut upgrade, Mode::Writable, Some(40)).unwrap();
    assert_eq!(h.current_epoch(&log), Ok(40));
}

#[test]
fn compare_and_append_at_upper_five_then_duplicate_insert() {
    let (mut log, upgrade) = fresh();
    let mut h = PersistHandle::new(&mut log, &upgrade, ORG, version()).unwrap();
    while log.upper < 5 {
        let u = log.upper;
        log.compare_and_append(Vec::new(), u, u + 1, version()).unwrap();
    }
    h.sync_to_current_upper(&log).unwrap();
    assert_eq!(h.upper, 5);
    h.compare_and_append(&mut log, vec![(config("k", 1), 1)]).unwrap();
    assert_eq!(h.upper, 6);
    assert_eq!(log.upper, 6);
    assert_eq!(log.since, 5);
    let r = h.compare_and_append(&mut log, vec![(config("k", 1), 1)]);
    assert_eq!(r, Err(DurableCatalogError::Corrupt(Violation::DuplicateInsert)));
}

#[test]
fn racing_writers_exactly_one_wins() {
    let (mut log, upgrade) = fresh();
    let mut a = PersistHandle::new(&mut log, &upgrade, ORG, version()).unwrap();
    let mut b = PersistHandle::new(&mut log, &upgrade, ORG, version()).unwrap();
    assert_eq!(a.upper, b.upper);
    let upper = a.upper;
    assert!(a.compare_and_append(&mut log, vec![(entry("x", "1"), 1)]).is_ok());
    let r = b.compare_and_append(&mut log, vec![(entry("x", "2"), 1)]);
    assert_eq!(
        r,
        Err(DurableCatalogError::Fence(FenceError::Upper { expected: upper, current: upper + 1 }))
    );
    assert_eq!(b.upper, upper);
    assert_eq!(log.updates.len(), 1);
}

#[test]
fn debug_edit_twice_keeps_last_value_and_history() {
    let (mut log, mut upgrade) = fresh();
    let mut writer = open_writable(&mut log, &mut upgrade);
    writer.commit_transaction(&mut log, vec![(config("user_version", 1), 1)]).unwrap();
    let mut d = PersistHandle::new(&mut log, &upgrade, ORG, version()).unwrap();
    let e0 = d.epoch.epoch().unwrap();
    let t1 = log.upper;
    let prev = d
        .debug_edit_inner(&mut log, CollectionType::Item, "K".to_string(), "V1".to_string())
        .unwrap();
    assert_eq!(prev, None);
    let t2 = log.upper;
    let prev = d
        .debug_edit_inner(&mut log, CollectionType::Item, "K".to_string(), "V2".to_string())
        .unwrap();
    assert_eq!(prev, Some("V1".to_string()));
    assert_eq!(d.epoch.epoch(), Some(e0 + 2));
    let snapshot = d.snapshot(&log).unwrap();
    assert_eq!(snapshot.get(CollectionType::Item, &"K".to_string()), Some("V2".to_string()));
    assert_eq!(snapshot.len(), 1);
    let trace = d.trace_unconsolidated(&log).unwrap();
    let items: Vec<(String, u64, i64)> = trace
        .collection_trace(CollectionType::Item)
        .iter()
        .map(|u| (format!("{:?}", u.kind), u.ts, u.diff))
        .collect();
    assert_eq!(items.len(), 3);
    assert!(items[0].0.contains("\"V1\"") && items[0].1 == t1 && items[0].2 == 1);
    assert!(items[1].0.contains("\"V1\"") && items[1].1 == t2 && items[1].2 == -1);
    assert!(items[2].0.contains("\"V2\"") && items[2].1 == t2 && items[2].2 == 1);
    let bumps: Vec<(String, u64, i64)> = trace
        .epochs
        .iter()
        .filter(|u| u.ts == t1 || u.ts == t2)
        .map(|u| (format!("{:?}", u.kind), u.ts, u.diff))
        .collect();
    assert_eq!(bumps.len(), 4);
    assert_eq!(bumps[0], (format!("{:?}", StateUpdateKind::Epoch(e0)), t1, -1));
    assert_eq!(bumps[1], (format!("{:?}", StateUpdateKind::Epoch(e0 + 1)), t1, 1));
    assert_eq!(bumps[2], (format!("{:?}", StateUpdateKind::Epoch(e0 + 1)), t2, -1));
    assert_eq!(bumps[3], (format!("{:?}", StateUpdateKind::Epoch(e0 + 2)), t2, 1));
}

#[test]
fn debug_delete_removes_key() {
    let (mut log, mut upgrade) = fresh();
    let _writer = open_writable(&mut log, &mut upgrade);
    let mut d = PersistHandle::new(&mut log, &upgrade, ORG, version()).unwrap();
    d.debug_edit_inner(&mut log, CollectionType::Role, "r".to_string(), "x".to_string()).unwrap();
    d.debug_delete_inner(&mut log, CollectionType::Role, "r".to_string()).unwrap();
    let snapshot = d.snapshot(&log).unwrap();
    assert_eq!(snapshot.get(CollectionType::Role, &"r".to_string()), None);
    assert_eq!(snapshot.len(), 0);
}

#[test]
fn debug_edit_without_epoch_is_uninitialized() {
    let (mut log, upgrade) = fresh();
    let mut d = PersistHandle::new(&mut log, &upgrade, ORG, version()).unwrap();
    let r = d.debug_edit_inner(&mut log, CollectionType::Item, "K".to_string(), "V".to_string());
    assert_eq!(r, Err(DurableCatalogError::Uninitialized));
}

#[test]
fn debug_edit_with_exhausted_epoch() {
    let (mut log, mut upgrade) = fresh();
    let h = PersistHandle::new(&mut log, &upgrade, ORG, version()).unwrap();
    let _w = h.open(&mut log, &mut upgrade, Mode::Writable, Some(u64::MAX)).unwrap();
    let mut d = PersistHandle::new(&mut log, &upgrade, ORG, version()).unwrap();
    let r = d.debug_edit_inner(&mut log, CollectionType::Item, "K".to_string(), "V".to_string());
    assert_eq!(r, Err(DurableCatalogError::Corrupt(Violation::EpochExhausted)));
}

#[test]
fn two_live_values_for_one_key_are_a_violation() {
    let (mut log, mut upgrade) = fresh();
    let _writer = open_writable(&mut log, &mut upgrade);
    let u = log.upper;
    let batch = vec![
        StateUpdate { kind: entry("K", "a"), ts: u, diff: 1 },
        StateUpdate { kind: entry("K", "b"), ts: u, diff: 1 },
    ];
    log.compare_and_append(batch, u, u + 1, version()).unwrap();
    let r = PersistHandle::new(&mut log, &upgrade, ORG, version());
    assert!(matches!(r, Err(DurableCatalogError::Corrupt(Violation::DuplicateInsert))));
    let cache = vec![
        StateUpdate { kind: entry("K", "a"), ts: u, diff: 1 },
        StateUpdate { kind: entry("K", "b"), ts: u, diff: 1 },
    ];
    let values = find_values(&cache, CollectionType::Item, &"K".to_string());
    assert_eq!(values.len(), 2);
}

#[test]
fn opened_duplicate_insert_is_caught_at_append() {
    let (mut log, mut upgrade) = fresh();
    let mut w = open_writable(&mut log, &mut upgrade);
    w.commit_transaction(&mut log, vec![(entry("k", "v1"), 1)]).unwrap();
    let r = w.commit_transaction(&mut log, vec![(entry("k", "v2"), 1)]);
    assert_eq!(r, Err(DurableCatalogError::Corrupt(Violation::DuplicateInsert)));
}

#[test]
fn cache_does_not_depend_on_input_order() {
    let (mut log, mut upgrade) = fresh();
    let w = open_writable(&mut log, &mut upgrade);
    let base = |w: &PersistHandle| PersistHandle {
        snapshot: Vec::new(),
        update_applier: durable_catalog::applier::UpdateApplier::Opened(
            durable_catalog::applier::CatalogStateInner::new(durable_catalog::applier::Mode::Writable),
        ),
        upper: w.upper,
        epoch: w.epoch,
        version: w.version,
    };
    let mut a = base(&w);
    let mut b = base(&w);
    let ups = vec![
        StateUpdate { kind: StateUpdateKind::Epoch(1), ts: 4, diff: -1 },
        StateUpdate { kind: StateUpdateKind::Epoch(0), ts: 4, diff: -1 },
        StateUpdate { kind: entry("z", "1"), ts: 4, diff: 1 },
        StateUpdate { kind: entry("a", "1"), ts: 4, diff: 1 },
    ];
    let mut rev = ups.clone();
    rev.reverse();
    a.apply_updates(ups).unwrap();
    b.apply_updates(rev).unwrap();
    assert_eq!(format!("{:?}", a.snapshot), format!("{:?}", b.snapshot));
    assert_eq!(a.snapshot.len(), 4);
}

#[test]
fn sync_twice_gives_identical_snapshots() {
    let (mut log, mut upgrade) = fresh();
    let mut w = open_writable(&mut log, &mut upgrade);
    w.commit_transaction(&mut log, vec![(entry("a", "1"), 1), (config("c", 3), 1)]).unwrap();
    let mut r = PersistHandle::new(&mut log, &upgrade, ORG, version()).unwrap();
    let target = log.upper;
    r.sync(&log, target).unwrap();
    let first = format!("{:?}", r.snapshot);
    r.sync(&log, target).unwrap();
    let second = format!("{:?}", r.snapshot);
    assert_eq!(first, second);
    assert_eq!(r.upper, target);
}

#[test]
fn insert_then_retract_in_opened_catalog() {
    let (mut log, mut upgrade) = fresh();
    let mut w = open_writable(&mut log, &mut upgrade);
    w.commit_transaction(&mut log, vec![(entry("K", "V"), 1)]).unwrap();
    let s = w.snapshot(&log).unwrap();
    assert_eq!(s.get(CollectionType::Item, &"K".to_string()), Some("V".to_string()));
    w.commit_transaction(&mut log, vec![(entry("K", "V"), -1)]).unwrap();
    let s = w.snapshot(&log).unwrap();
    assert_eq!(s.get(CollectionType::Item, &"K".to_string()), None);
}

#[test]
fn interleaved_updates_consolidate_to_last_value() {
    let (mut log, mut upgrade) = fresh();
    let w = open_writable(&mut log, &mut upgrade);
    let mut h = PersistHandle {
        snapshot: Vec::new(),
        update_applier: w.update_applier,
        upper: w.upper,
        epoch: w.epoch,
        version: w.version,
    };
    h.apply_updates(vec![
        StateUpdate { kind: entry("K", "V2"), ts: 12, diff: 1 },
        StateUpdate { kind: entry("K", "V1"), ts: 10, diff: 1 },
        StateUpdate { kind: entry("K", "V1"), ts: 11, diff: -1 },
    ])
    .unwrap();
    assert_eq!(h.snapshot.len(), 1);
    assert_eq!(h.snapshot[0].ts, 12);
    assert_eq!(h.snapshot[0].diff, 1);
    let s = durable_catalog::snapshot::materialize(&h.snapshot).unwrap();
    assert_eq!(s.get(CollectionType::Item, &"K".to_string()), Some("V2".to_string()));
    assert_eq!(s.len(), 1);
}

#[test]
fn retraction_before_insertion_within_one_position() {
    let (mut log, mut upgrade) = fresh();
    let mut w = open_writable(&mut log, &mut upgrade);
    w.commit_transaction(&mut log, vec![(entry("K", "old"), 1)]).unwrap();
    w.commit_transaction(&mut log, vec![(entry("K", "new"), 1), (entry("K", "old"), -1)]).unwrap();
    let s = w.snapshot(&log).unwrap();
    assert_eq!(s.get(CollectionType::Item, &"K".to_string()), Some("new".to_string()));
}

#[test]
fn mismatched_retraction_is_a_violation() {
    let (mut log, mut upgrade) = fresh();
    let mut w = open_writable(&mut log, &mut upgrade);
    w.commit_transaction(&mut log, vec![(config("k", 1), 1)]).unwrap();
    let u = log.upper;
    log.compare_and_append(vec![StateUpdate { kind: config("k", 2), ts: u, diff: -1 }], u, u + 1, version())
        .unwrap();
    let r = PersistHandle::new(&mut log, &upgrade, ORG, version());
    assert!(matches!(r, Err(DurableCatalogError::Corrupt(Violation::MismatchedRetraction))));
}

#[test]
fn out_of_range_diff_is_a_violation() {
    let (mut log, upgrade) = fresh();
    let mut h = PersistHandle::new(&mut log, &upgrade, ORG, version()).unwrap();
    let r = h.apply_updates(vec![StateUpdate { kind: entry("K", "V"), ts: 3, diff: 2 }]);
    assert_eq!(r, Err(DurableCatalogError::Corrupt(Violation::InvalidDiff)));
    let r = h.apply_updates(vec![
        StateUpdate { kind: entry("K", "V"), ts: 3, diff: 1 },
        StateUpdate { kind: entry("K", "V"), ts: 3, diff: 1 },
    ]);
    assert_eq!(r, Err(DurableCatalogError::Corrupt(Violation::InvalidDiff)));
    assert!(h.snapshot.is_empty());
}

#[test]
fn read_only_catalog_rejects_commits() {
    let (mut log, mut upgrade) = fresh();
    let mut w = open_writable(&mut log, &mut upgrade);
    w.commit_transaction(&mut log, vec![(config("user_version", 1), 1)]).unwrap();
    let h = PersistHandle::new(&mut log, &upgrade, ORG, version()).unwrap();
    let mut ro = h.open(&mut log, &mut upgrade, Mode::Readonly, None).unwrap();
    assert!(ro.is_read_only());
    let before = log.upper;
    assert_eq!(
        ro.commit_transaction(&mut log, vec![(entry("a", "b"), 1)]),
        Err(DurableCatalogError::NotWritable)
    );
    assert_eq!(ro.commit_transaction(&mut log, Vec::new()), Ok(()));
    assert_eq!(log.upper, before);
}

#[test]
fn savepoint_commits_stay_in_memory() {
    let (mut log, mut upgrade) = fresh();
    let mut w = open_writable(&mut log, &mut upgrade);
    w.commit_transaction(&mut log, vec![(config("user_version", 1), 1)]).unwrap();
    let h = PersistHandle::new(&mut log, &upgrade, ORG, version()).unwrap();
    let mut sp = h.open(&mut log, &mut upgrade, Mode::Savepoint, None).unwrap();
    let before = log.updates.len();
    sp.commit_transaction(&mut log, vec![(entry("a", "b"), 1)]).unwrap();
    assert_eq!(log.updates.len(), before);
    let s = durable_catalog::snapshot::materialize(&sp.snapshot).unwrap();
    assert_eq!(s.get(CollectionType::Item, &"a".to_string()), Some("b".to_string()));
}

#[test]
fn opened_catalog_diverts_audit_events_to_startup_cache() {
    let (mut log, mut upgrade) = fresh();
    let mut w = open_writable(&mut log, &mut upgrade);
    w.commit_transaction(&mut log, vec![(StateUpdateKind::AuditLog("e1".to_string()), 1)]).unwrap();
    assert!(w.snapshot.iter().all(|u| !matches!(u.kind, StateUpdateKind::AuditLog(_))));
    let cached = match &mut w.update_applier {
        durable_catalog::applier::UpdateApplier::Opened(state) => state.audit_logs.take().unwrap(),
        _ => panic!("opened handle expected"),
    };
    let cached = cached.unwrap();
    assert_eq!(cached.len(), 1);
    w.commit_transaction(&mut log, vec![(StateUpdateKind::AuditLog("e2".to_string()), 1)]).unwrap();
    let again = match &mut w.update_applier {
        durable_catalog::applier::UpdateApplier::Opened(state) => state.audit_logs.take().unwrap(),
        _ => panic!("opened handle expected"),
    };
    assert!(again.is_none());
}

#[test]
fn trace_consolidated_splits_by_collection() {
    let (mut log, mut upgrade) = fresh();
    let mut w = open_writable(&mut log, &mut upgrade);
    w.commit_transaction(&mut log, vec![(config("user_version", 1), 1), (entry("x", "1"), 1)]).unwrap();
    let mut d = PersistHandle::new(&mut log, &upgrade, ORG, version()).unwrap();
    let t = d.trace_consolidated(&log).unwrap();
    assert_eq!(t.configs.len(), 1);
    assert_eq!(t.entries.len(), 1);
    assert_eq!(t.collection_trace(CollectionType::Item).len(), 1);
    assert_eq!(t.collection_trace(CollectionType::Role).len(), 0);
    let t = d.trace_unconsolidated(&log).unwrap();
    assert_eq!(t.entries.len(), 1);
    assert!(t.audit_log.is_empty());
}

#[test]
fn configuration_getters_read_well_known_keys() {
    let (mut log, upgrade) = fresh();
    let mut h = PersistHandle::new(&mut log, &upgrade, ORG, version()).unwrap();
    assert_eq!(h.has_system_config_synced_once(&log), Ok(false));
    assert_eq!(h.get_user_version(&log), Ok(None));
    h.compare_and_append(
        &mut log,
        vec![
            (config("user_version", 7), 1),
            (config("deploy_generation", 3), 1),
            (config("system_config_synced", 1), 1),
        ],
    )
    .unwrap();
    assert_eq!(h.get_user_version(&log), Ok(Some(7)));
    assert_eq!(h.get_deployment_generation(&log), Ok(Some(3)));
    assert_eq!(h.has_system_config_synced_once(&log), Ok(true));
}

#[test]
fn confirm_leadership_detects_fencing() {
    let (mut log, mut upgrade) = fresh();
    let mut a = open_writable(&mut log, &mut upgrade);
    a.commit_transaction(&mut log, vec![(config("user_version", 1), 1)]).unwrap();
    assert_eq!(a.confirm_leadership(&log), Ok(()));
    let h = PersistHandle::new(&mut log, &upgrade, ORG, version()).unwrap();
    let mut ro = h.open(&mut log, &mut upgrade, Mode::Readonly, None).unwrap();
    let _b = open_writable(&mut log, &mut upgrade);
    assert!(matches!(a.confirm_leadership(&log), Err(DurableCatalogError::Fence(FenceError::Epoch { .. }))));
    assert_eq!(ro.confirm_leadership(&log), Ok(()));
}

#[test]
fn audit_keys_come_from_startup_cache_once() {
    let (mut log, mut upgrade) = fresh();
    let mut w = open_writable(&mut log, &mut upgrade);
    w.commit_transaction(
        &mut log,
        vec![
            (StateUpdateKind::AuditLog("e2".to_string()), 1),
            (StateUpdateKind::AuditLog("e1".to_string()), 1),
        ],
    )
    .unwrap();
    assert_eq!(w.get_audit_log_keys(&log), Ok(vec!["e1".to_string(), "e2".to_string()]));
    w.commit_transaction(&mut log, vec![(StateUpdateKind::AuditLog("e3".to_string()), 1)]).unwrap();
    let mut again = w.get_audit_log_keys(&log).unwrap();
    again.sort();
    assert_eq!(again, vec!["e1".to_string(), "e2".to_string(), "e3".to_string()]);
}

#[test]
fn storage_usage_pruning_retracts_expired_events() {
    let (mut log, mut upgrade) = fresh();
    let mut w = open_writable(&mut log, &mut upgrade);
    w.commit_transaction(
        &mut log,
        vec![
            (StateUpdateKind::StorageUsage("old".to_string()), 1),
            (StateUpdateKind::StorageUsage("new".to_string()), 1),
        ],
    )
    .unwrap();
    let keys = w.get_storage_usage_keys(&log).unwrap();
    assert_eq!(keys, vec!["new".to_string(), "old".to_string()]);
    let events: Vec<(String, u64)> =
        keys.into_iter().map(|k| { let t = if k == "old" { 100 } else { 900 }; (k, t) }).collect();
    let cutoff = durable_catalog::usage::storage_usage_cutoff(Some(500), 1000);
    assert_eq!(cutoff, 500);
    let (kept, expired) = durable_catalog::usage::split_storage_usage(events, cutoff, true);
    assert_eq!(kept, vec![("new".to_string(), 900)]);
    assert_eq!(expired, vec![("old".to_string(), 100)]);
    w.prune_storage_usage(&mut log, expired.into_iter().map(|e| e.0).collect()).unwrap();
    let remaining = w.get_storage_usage_keys(&log).unwrap();
    assert_eq!(remaining, vec!["new".to_string()]);
}

#[test]
fn storage_usage_without_retention_keeps_everything() {
    let events = vec![("a".to_string(), 1u64), ("b".to_string(), 5u64)];
    let cutoff = durable_catalog::usage::storage_usage_cutoff(None, 1000);
    assert_eq!(cutoff, 0);
    let (kept, expired) = durable_catalog::usage::split_storage_usage(events, 3, false);
    assert_eq!(kept, vec![("b".to_string(), 5)]);
    assert!(expired.is_empty());
    assert_eq!(durable_catalog::usage::storage_usage_cutoff(Some(5000), 1000), 0);
}

#[test]
fn read_only_commit_changes_nothing() {
    let (mut log, mut upgrade) = fresh();
    let mut w = open_writable(&mut log, &mut upgrade);
    w.commit_transaction(&mut log, vec![(config("user_version", 1), 1)]).unwrap();
    let h = PersistHandle::new(&mut log, &upgrade, ORG, version()).unwrap();
    let mut ro = h.open(&mut log, &mut upgrade, Mode::Readonly, None).unwrap();
    let before = format!("{:?}", ro.snapshot);
    assert!(ro.prune_storage_usage(&mut log, vec!["x".to_string()]).is_ok());
    assert_eq!(format!("{:?}", ro.snapshot), before);
}

#[test]
fn kept_storage_usage_is_sorted_by_id() {
    let events = vec![
        ("c".to_string(), 900u64, 7u64),
        ("old".to_string(), 100u64, 1u64),
        ("a".to_string(), 800u64, 3u64),
        ("b".to_string(), 700u64, 3u64),
    ];
    let kept = durable_catalog::usage::kept_storage_usage(events, 500);
    assert_eq!(kept, vec!["a".to_string(), "b".to_string(), "c".to_string()]);
    assert!(durable_catalog::usage::kept_storage_usage(Vec::new(), 0).is_empty());
}

#[test]
fn audit_events_are_sorted_by_id() {
    let sorted = durable_catalog::usage::sort_audit_events(vec![
        ("x".to_string(), 5),
        ("y".to_string(), 2),
        ("z".to_string(), 5),
        ("w".to_string(), 1),
    ]);
    assert_eq!(sorted, vec!["w".to_string(), "y".to_string(), "x".to_string(), "z".to_string()]);
}

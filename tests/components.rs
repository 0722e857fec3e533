use durable_catalog::applier::LargeCollectionStartupCache;
use durable_catalog::consolidate::{consolidate_updates, restamp_updates, sort_for_apply};
use durable_catalog::epoch::FenceableEpoch;
use durable_catalog::error::{DurableCatalogError, FenceError, Version, Violation};
use durable_catalog::log::{LogShard, UpperMismatch};
use durable_catalog::logging::{
    ComputeLog, ComputeReplicaConfig, ComputeReplicaLogging, DifferentialLog, LogVariant, TimelyLog,
};
use durable_catalog::retry::{Retry, RetryAction};
use durable_catalog::shard::{shard_id, CATALOG_SEED, UPGRADE_SEED};
use durable_catalog::snapshot::{materialize, Snapshot};
use durable_catalog::trace::Trace;
use durable_catalog::update::{kind_eq, CollectionType, StateUpdate, StateUpdateKind};
use durable_catalog::upgrade::{check_data_version, increment_catalog_upgrade_shard_version};

fn up(key: &str, value: &str, ts: u64, diff: i64) -> StateUpdate {
    StateUpdate {
        kind: StateUpdateKind::Entry(CollectionType::Item, key.to_string(), value.to_string()),
        ts,
        diff,
    }
}

fn v(major: u64, minor: u64, patch: u64) -> Version {
    Version { major, minor, patch }
}

#[test]
fn validate_reports_fence() {
    assert_eq!(FenceableEpoch::Unfenced(None).validate(), Ok(None));
    assert_eq!(FenceableEpoch::Unfenced(Some(4)).validate(), Ok(Some(4)));
    assert_eq!(
        FenceableEpoch::Fenced { current_epoch: 4, fence_epoch: 6 }.validate(),
        Err(DurableCatalogError::Fence(FenceError::Epoch { current_epoch: 4, fence_epoch: 6 }))
    );
    assert_eq!(FenceableEpoch::Fenced { current_epoch: 4, fence_epoch: 6 }.epoch(), Some(4));
}

#[test]
fn maybe_fence_transitions() {
    let mut e = FenceableEpoch::Unfenced(None);
    assert_eq!(e.maybe_fence(3), Ok(()));
    assert_eq!(e, FenceableEpoch::Unfenced(Some(3)));
    assert_eq!(e.maybe_fence(3), Ok(()));
    assert_eq!(
        e.maybe_fence(5),
        Err(DurableCatalogError::Fence(FenceError::Epoch { current_epoch: 3, fence_epoch: 5 }))
    );
    assert_eq!(e, FenceableEpoch::Fenced { current_epoch: 3, fence_epoch: 5 });
    assert!(e.maybe_fence(9).is_err());
    assert_eq!(e, FenceableEpoch::Fenced { current_epoch: 3, fence_epoch: 5 });
}

#[test]
fn epoch_going_backwards_is_a_violation() {
    let mut e = FenceableEpoch::Unfenced(Some(7));
    assert_eq!(
        e.maybe_fence(6),
        Err(DurableCatalogError::Corrupt(Violation::EpochRegressed { current_epoch: 7, observed_epoch: 6 }))
    );
    assert_eq!(e, FenceableEpoch::Unfenced(Some(7)));
}

#[test]
fn consolidation_merges_and_cancels() {
    let r = consolidate_updates(vec![
        up("a", "1", 1, 1),
        up("b", "1", 1, 1),
        up("a", "1", 1, -1),
        up("a", "1", 2, 1),
        up("b", "1", 1, 1),
        up("c", "1", 1, 0),
    ]);
    assert_eq!(r.len(), 2);
    assert!(kind_eq(&r[0].kind, &up("b", "1", 0, 0).kind));
    assert!(durable_catalog::order::kind_less(&up("a", "1", 0, 0).kind, &r[0].kind));
    assert_eq!((r[0].ts, r[0].diff), (1, 2));
    assert!(kind_eq(&r[1].kind, &up("a", "1", 0, 0).kind));
    assert_eq!((r[1].ts, r[1].diff), (2, 1));
    assert!(consolidate_updates(Vec::new()).is_empty());
}

#[test]
fn application_order_puts_retractions_first() {
    let r = sort_for_apply(vec![up("x", "new", 5, 1), up("y", "a", 3, 1), up("x", "old", 5, -1)]);
    let order: Vec<(u64, i64)> = r.iter().map(|u| (u.ts, u.diff)).collect();
    assert_eq!(order, vec![(3, 1), (5, -1), (5, 1)]);
    let tie = sort_for_apply(vec![up("b", "1", 5, 1), up("a", "1", 5, 1)]);
    assert!(kind_eq(&tie[0].kind, &up("a", "1", 0, 0).kind));
    let restamped = restamp_updates(r, 9);
    assert!(restamped.iter().all(|u| u.ts == 9));
}

#[test]
fn materialize_checks_pairing() {
    let s = materialize(&vec![up("k", "v", 1, 1), up("k", "v", 1, -1), up("k", "w", 2, 1)]).unwrap();
    assert_eq!(s.get(CollectionType::Item, &"k".to_string()), Some("w".to_string()));
    assert_eq!(s.get(CollectionType::Role, &"k".to_string()), None);
    assert!(matches!(
        materialize(&vec![up("k", "v", 1, 1), up("k", "w", 1, 1)]),
        Err(Violation::DuplicateInsert)
    ));
    assert!(matches!(materialize(&vec![up("k", "v", 1, -1)]), Err(Violation::MismatchedRetraction)));
    assert!(matches!(
        materialize(&vec![up("k", "v", 1, 1), up("k", "w", 1, -1)]),
        Err(Violation::MismatchedRetraction)
    ));
    assert!(matches!(materialize(&vec![up("k", "v", 1, 3)]), Err(Violation::InvalidDiff)));
    let with_markers = materialize(&vec![
        StateUpdate { kind: StateUpdateKind::Epoch(3), ts: 1, diff: 1 },
        StateUpdate { kind: StateUpdateKind::AuditLog("e".to_string()), ts: 1, diff: 1 },
        StateUpdate { kind: StateUpdateKind::Config("c".to_string(), 8), ts: 1, diff: 1 },
    ])
    .unwrap();
    assert_eq!(with_markers.len(), 0);
    assert_eq!(with_markers.get_config(&"c".to_string()), Some(8));
    assert_eq!(Snapshot::empty().len(), 0);
}

#[test]
fn startup_cache_closes_after_take() {
    let mut c = LargeCollectionStartupCache::new_open();
    c.push(StateUpdate { kind: StateUpdateKind::AuditLog("a".to_string()), ts: 0, diff: 1 });
    c.push(StateUpdate { kind: StateUpdateKind::AuditLog("b".to_string()), ts: 0, diff: 1 });
    c.push(StateUpdate { kind: StateUpdateKind::AuditLog("b".to_string()), ts: 0, diff: -1 });
    c.push(StateUpdate { kind: StateUpdateKind::AuditLog("0".to_string()), ts: 0, diff: 1 });
    let taken = c.take().unwrap().unwrap();
    assert_eq!(taken.len(), 2);
    assert!(kind_eq(&taken[0].kind, &StateUpdateKind::AuditLog("0".to_string())));
    let taken = vec![taken[1].clone()];
    assert!(kind_eq(&taken[0].kind, &StateUpdateKind::AuditLog("a".to_string())));
    c.push(StateUpdate { kind: StateUpdateKind::AuditLog("z".to_string()), ts: 0, diff: 1 });
    assert!(c.take().unwrap().is_none());
}

#[test]
fn startup_cache_with_surviving_retraction_is_a_violation() {
    let mut c = LargeCollectionStartupCache::new_open();
    c.push(StateUpdate { kind: StateUpdateKind::StorageUsage("s".to_string()), ts: 0, diff: -1 });
    assert!(matches!(c.take(), Err(Violation::InvalidDiff)));
}

#[test]
fn log_shard_conditional_append() {
    let mut log = LogShard::new();
    assert_eq!(log.fetch_recent_upper(), 0);
    assert_eq!(log.compare_and_append(vec![up("a", "1", 0, 1)], 0, 1, v(1, 0, 0)), Ok(()));
    assert_eq!(
        log.compare_and_append(vec![up("a", "2", 0, 1)], 0, 1, v(1, 0, 0)),
        Err(UpperMismatch { expected: 0, current: 1 })
    );
    assert_eq!(log.upper, 1);
    assert_eq!(log.updates.len(), 1);
    assert_eq!(log.listen(1).len(), 0);
    assert_eq!(log.listen(0).len(), 1);
    let snap = log.snapshot_and_fetch(0);
    assert_eq!(snap.len(), 1);
    log.downgrade_since(1);
    assert_eq!(log.since, 1);
    log.downgrade_since(0);
    assert_eq!(log.since, 1);
}

#[test]
fn upgrade_shard_version_bump() {
    let mut upgrade = LogShard::new();
    increment_catalog_upgrade_shard_version(&mut upgrade, v(0, 91, 2));
    assert_eq!(upgrade.upper, 1);
    assert_eq!(upgrade.applier_version, Some(v(0, 91, 2)));
    assert!(upgrade.updates.is_empty());
}

#[test]
fn data_version_allows_one_minor_ahead() {
    assert!(check_data_version(&v(0, 90, 0), &v(0, 90, 5)));
    assert!(check_data_version(&v(0, 90, 0), &v(0, 91, 99)));
    assert!(!check_data_version(&v(0, 90, 0), &v(0, 92, 0)));
    assert!(!check_data_version(&v(0, 90, 0), &v(1, 0, 0)));
    assert!(check_data_version(&v(1, 90, 0), &v(0, 200, 0)));
    assert!(check_data_version(&v(0, u64::MAX, 0), &v(0, u64::MAX, 3)));
}

#[test]
fn shard_ids_are_derived_from_organization_and_seed() {
    let org: u128 = 0x67e5504410b1426f9247bb680e5fe0c8;
    assert_eq!(shard_id(org, CATALOG_SEED), "sa5d4a842-9f94-1179-dc6d-73fb5174a70f");
    assert_eq!(shard_id(org, UPGRADE_SEED), "s62431ae6-8162-e000-c414-287a3baf9944");
}

#[test]
fn retry_backs_off_within_budget() {
    let mut r = Retry::new();
    let mut sleeps = Vec::new();
    let mut total: u64 = 0;
    loop {
        match r.on_failure(0) {
            RetryAction::Retry { sleep_ms } => {
                sleeps.push(sleep_ms);
                total += sleep_ms;
            },
            RetryAction::GiveUp => break,
        }
    }
    assert_eq!(&sleeps[..5], &[125, 250, 500, 1000, 1000]);
    assert!(sleeps.iter().all(|s| *s >= 1 && *s <= 1000));
    assert_eq!(total, 30000);
}

#[test]
fn retry_gives_up_after_long_attempt() {
    let mut r = Retry::new();
    assert_eq!(r.on_failure(29_900), RetryAction::Retry { sleep_ms: 100 });
    assert_eq!(r.on_failure(0), RetryAction::GiveUp);
    let mut r = Retry::new();
    assert_eq!(r.on_failure(30_000), RetryAction::GiveUp);
}

#[test]
fn index_by_uses_key_or_all_columns() {
    assert_eq!(LogVariant::Timely(TimelyLog::Operates).index_by(), vec![0, 1]);
    assert_eq!(LogVariant::Compute(ComputeLog::ImportFrontierCurrent).index_by(), vec![0, 1, 2]);
    assert_eq!(LogVariant::Timely(TimelyLog::Reachability).index_by(), vec![0, 1, 2, 3, 4]);
    assert_eq!(LogVariant::Differential(DifferentialLog::Sharing).index_by(), vec![0, 1]);
    assert_eq!(LogVariant::Compute(ComputeLog::FrontierDelay).index_by(), vec![0, 1, 2, 3]);
    assert_eq!(LogVariant::Timely(TimelyLog::Channels).arity(), 6);
}

#[test]
fn replica_logging_enabled_by_interval() {
    let off = ComputeReplicaLogging::default();
    assert!(!off.enabled());
    let on = ComputeReplicaLogging { log_logging: false, interval_ms: Some(1000) };
    assert!(on.enabled());
    let config = ComputeReplicaConfig { logging: on };
    assert!(config.logging.enabled());
}

#[test]
fn trace_keeps_epoch_markers_apart() {
    let t = Trace::from_snapshot(vec![
        StateUpdate { kind: StateUpdateKind::Epoch(1), ts: 0, diff: 1 },
        StateUpdate { kind: StateUpdateKind::Config("c".to_string(), 1), ts: 0, diff: 1 },
        StateUpdate { kind: StateUpdateKind::AuditLog("e".to_string()), ts: 0, diff: 1 },
        StateUpdate { kind: StateUpdateKind::StorageUsage("s".to_string()), ts: 0, diff: 1 },
        up("k", "v", 0, 1),
        StateUpdate {
            kind: StateUpdateKind::Entry(CollectionType::Role, "r".to_string(), "x".to_string()),
            ts: 0,
            diff: 1,
        },
    ]);
    assert_eq!(t.configs.len(), 1);
    assert_eq!(t.audit_log.len(), 1);
    assert_eq!(t.storage_usage.len(), 1);
    assert_eq!(t.entries.len(), 2);
    assert_eq!(t.epochs.len(), 1);
    assert_eq!(t.collection_trace(CollectionType::Role).len(), 1);
}

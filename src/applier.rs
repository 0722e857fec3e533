use vstd::prelude::*;

use crate::consolidate::{apply_order, consolidate_updates, consolidation, sort_for_apply, unit_diffs};
use crate::epoch::FenceableEpoch;
use crate::error::{DurableCatalogError, FenceError, Violation};
use crate::snapshot::{replay_step, Snapshot, SnapshotView};
use crate::update::{views, KindView, StateUpdate, StateUpdateKind, UpdateView};

verus! {

/// Dictates the effect of mutations.
#[derive(Debug, Clone, Copy, PartialEq, Eq, Structural)]
pub enum Mode {
    /// Mutations are rejected.
    Readonly,
    /// Mutations change the in-memory state only.
    Savepoint,
    /// Mutations are appended durably and change the in-memory state.
    Writable,
}

/// Caches a high-volume append-only collection until it is first taken, and
/// drops every later update of it.
#[derive(Debug)]
pub enum LargeCollectionStartupCache {
    /// Caching every update seen.
    Open(Vec<StateUpdate>),
    /// Ignoring every update seen.
    Closed,
}

impl LargeCollectionStartupCache {
    pub open spec fn wf(&self) -> bool {
        match self {
            LargeCollectionStartupCache::Open(v) => unit_diffs(views(v@)),
            LargeCollectionStartupCache::Closed => true,
        }
    }

    /// What the cache holds, or `None` once it is closed.
    pub open spec fn contents(&self) -> Option<Seq<UpdateView>> {
        match self {
            LargeCollectionStartupCache::Open(v) => Some(views(v@)),
            LargeCollectionStartupCache::Closed => None,
        }
    }

    /// A new, open cache.
    pub fn new_open() -> (r: LargeCollectionStartupCache)
        ensures
            r.wf(),
            r.contents() == Some(Seq::<UpdateView>::empty()),
    {
        LargeCollectionStartupCache::Open(Vec::new())
    }

    /// Adds `update` if the cache is open; otherwise drops it.
    pub fn push(&mut self, update: StateUpdate)
        requires
            old(self).wf(),
            -1 <= update.diff <= 1,
        ensures
            final(self).wf(),
            final(self).contents() == match old(self).contents() {
                Some(s) => Some(s.push(update@)),
                None => None::<Seq<UpdateView>>,
            },
    {
        match self {
            LargeCollectionStartupCache::Open(cache) => {
                let ghost before = views(cache@);
                cache.push(update);
                assert(views(cache@) =~= before.push(update@));
            },
            LargeCollectionStartupCache::Closed => {},
        }
    }

    /// If the cache is open, closes it and returns its consolidated contents in
    /// application order; otherwise returns `None`. A cached retraction that survives
    /// consolidation is a violation.
    pub fn take(&mut self) -> (r: Result<Option<Vec<StateUpdate>>, Violation>)
        requires
            old(self).wf(),
            old(self).contents() is Some ==> old(self).contents().unwrap().len() < i64::MAX,
        ensures
            final(self).wf(),
            final(self).contents() is None,
            match old(self).contents() {
                None => r == Ok::<Option<Vec<StateUpdate>>, Violation>(None),
                Some(s) => {
                    let c = consolidation(s);
                    if forall|i: int| 0 <= i < c.len() ==> #[trigger] c[i].diff == 1 {
                        r is Ok && r.unwrap() is Some && views(r.unwrap().unwrap()@) == apply_order(c)
                    } else {
                        r == Err::<Option<Vec<StateUpdate>>, Violation>(Violation::InvalidDiff)
                    }
                },
            },
    {
        let mut taken = LargeCollectionStartupCache::Closed;
        std::mem::swap(self, &mut taken);
        match taken {
            LargeCollectionStartupCache::Open(cache) => {
                let ghost cache_view = views(cache@);
                let c = consolidate_updates(cache);
                let mut i: usize = 0;
                while i < c.len()
                    invariant
                        i <= c@.len(),
                        self.contents() is None,
                        old(self).contents() == Some(cache_view),
                        views(c@) == consolidation(cache_view),
                        forall|m: int| 0 <= m < i ==> #[trigger] views(c@)[m].diff == 1,
                    decreases c@.len() - i,
                {
                    assert(views(c@)[i as int] == c@[i as int]@);
                    if c[i].diff != 1 {
                        assert(consolidation(cache_view)[i as int].diff != 1);
                        return Err(Violation::InvalidDiff);
                    }
                    i = i + 1;
                }
                Ok(Some(sort_for_apply(c)))
            },
            LargeCollectionStartupCache::Closed => Ok(None),
        }
    }
}

/// The state of an unopened catalog: the configuration collection only.
pub struct UnopenedCatalogStateInner {
    /// The organization that owns the catalog, as the 128 bits of its UUID.
    pub organization_id: u128,
    /// A cache of the configuration collection.
    pub configs: Snapshot,
}

impl UnopenedCatalogStateInner {
    pub fn new(organization_id: u128) -> (r: UnopenedCatalogStateInner)
        ensures
            r.organization_id == organization_id,
            r.configs.wf(),
            r.configs@ == SnapshotView::empty(),
    {
        UnopenedCatalogStateInner { organization_id, configs: Snapshot::empty() }
    }
}

/// The state of an opened catalog beyond its cache.
pub struct CatalogStateInner {
    /// The mode the catalog was opened in.
    pub mode: Mode,
    /// Audit events, cached during startup only.
    pub audit_logs: LargeCollectionStartupCache,
    /// Storage usage events, cached during startup only.
    pub storage_usage_events: LargeCollectionStartupCache,
}

impl CatalogStateInner {
    pub fn new(mode: Mode) -> (r: CatalogStateInner)
        ensures
            r.mode == mode,
            r.audit_logs.wf() && r.storage_usage_events.wf(),
            r.audit_logs.contents() == Some(Seq::<UpdateView>::empty()),
            r.storage_usage_events.contents() == Some(Seq::<UpdateView>::empty()),
    {
        CatalogStateInner {
            mode,
            audit_logs: LargeCollectionStartupCache::new_open(),
            storage_usage_events: LargeCollectionStartupCache::new_open(),
        }
    }
}

/// Per-phase processing of each update: which updates reach the cache, and
/// what else each one does.
pub enum UpdateApplier {
    /// Tracks the configuration collection and epoch markers, and forwards
    /// every update to the cache.
    Unopened(UnopenedCatalogStateInner),
    /// Tracks epoch markers and diverts the append-only collections into
    /// startup caches.
    Opened(CatalogStateInner),
}

/// The mathematical value of an [`UpdateApplier`].
pub enum ApplierView {
    Unopened { organization_id: u128, configs: Map<Seq<char>, u64> },
    Opened {
        mode: Mode,
        audit_logs: Option<Seq<UpdateView>>,
        storage_usage_events: Option<Seq<UpdateView>>,
    },
}

impl View for UpdateApplier {
    type V = ApplierView;

    open spec fn view(&self) -> ApplierView {
        match self {
            UpdateApplier::Unopened(s) => ApplierView::Unopened {
                organization_id: s.organization_id,
                configs: s.configs@.configs,
            },
            UpdateApplier::Opened(s) => ApplierView::Opened {
                mode: s.mode,
                audit_logs: s.audit_logs.contents(),
                storage_usage_events: s.storage_usage_events.contents(),
            },
        }
    }
}

/// The outcome of one applied update: the next applier and epoch, and
/// whether the update is to be cached.
pub struct StepOutcome {
    pub applier: ApplierView,
    pub epoch: FenceableEpoch,
    pub forwards: bool,
}

/// The epoch after observing an epoch marker, or the error it raises.
pub open spec fn observe_epoch(e: FenceableEpoch, epoch: u64) -> Result<FenceableEpoch, DurableCatalogError> {
    if e.regresses(epoch) {
        Err(
            DurableCatalogError::Corrupt(
                Violation::EpochRegressed { current_epoch: e.spec_epoch().unwrap(), observed_epoch: epoch },
            ),
        )
    } else if e.spec_observe(epoch).is_fenced() {
        Err(e.spec_observe(epoch).fence_error())
    } else {
        Ok(e.spec_observe(epoch))
    }
}

/// Applies one update whose diff is +1 or -1.
pub open spec fn applier_step(a: ApplierView, e: FenceableEpoch, u: UpdateView) -> Result<StepOutcome, DurableCatalogError> {
    match a {
        ApplierView::Unopened { organization_id, configs } => match u.kind {
            KindView::Config(_, _) => match replay_step(SnapshotView { entries: Map::empty(), configs }, u) {
                Ok(m) => Ok(StepOutcome {
                    applier: ApplierView::Unopened { organization_id, configs: m.configs },
                    epoch: e,
                    forwards: true,
                }),
                Err(v) => Err(DurableCatalogError::Corrupt(v)),
            },
            KindView::Epoch(epoch) => if u.diff == 1 {
                match observe_epoch(e, epoch) {
                    Ok(e2) => Ok(StepOutcome { applier: a, epoch: e2, forwards: true }),
                    Err(err) => Err(err),
                }
            } else {
                Ok(StepOutcome { applier: a, epoch: e, forwards: true })
            },
            _ => Ok(StepOutcome { applier: a, epoch: e, forwards: true }),
        },
        ApplierView::Opened { mode, audit_logs, storage_usage_events } => match u.kind {
            KindView::AuditLog(_) => Ok(StepOutcome {
                applier: ApplierView::Opened {
                    mode,
                    audit_logs: match audit_logs {
                        Some(s) => Some(s.push(u)),
                        None => None,
                    },
                    storage_usage_events,
                },
                epoch: e,
                forwards: false,
            }),
            KindView::StorageUsage(_) => Ok(StepOutcome {
                applier: ApplierView::Opened {
                    mode,
                    audit_logs,
                    storage_usage_events: match storage_usage_events {
                        Some(s) => Some(s.push(u)),
                        None => None,
                    },
                },
                epoch: e,
                forwards: false,
            }),
            KindView::Epoch(epoch) => if u.diff == 1 {
                match observe_epoch(e, epoch) {
                    Ok(e2) => Ok(StepOutcome { applier: a, epoch: e2, forwards: false }),
                    Err(err) => Err(err),
                }
            } else {
                Ok(StepOutcome { applier: a, epoch: e, forwards: true })
            },
            _ => Ok(StepOutcome { applier: a, epoch: e, forwards: true }),
        },
    }
}

impl UpdateApplier {
    pub open spec fn wf(&self) -> bool {
        match self {
            UpdateApplier::Unopened(s) => s.configs.wf() && s.configs@.entries == Map::<
                (crate::update::CollectionType, Seq<char>),
                Seq<char>,
            >::empty(),
            UpdateApplier::Opened(s) => s.audit_logs.wf() && s.storage_usage_events.wf(),
        }
    }

    /// Processes `update`: returns it if it is to be cached, `None` if not.
    pub fn apply_update(&mut self, update: StateUpdate, epoch: &mut FenceableEpoch) -> (r: Result<
        Option<StateUpdate>,
        DurableCatalogError,
    >)
        requires
            old(self).wf(),
            update.diff == 1 || update.diff == -1,
        ensures
            final(self).wf(),
            old(epoch).is_fenced() ==> *final(epoch) == *old(epoch),
            match r {
                Err(DurableCatalogError::Fence(FenceError::Epoch { current_epoch, fence_epoch })) => *final(epoch)
                    == (FenceableEpoch::Fenced { current_epoch, fence_epoch }),
                Err(DurableCatalogError::Fence(FenceError::Upper { .. })) => false,
                _ => true,
            },
            match applier_step(old(self)@, *old(epoch), update@) {
                Ok(o) => r == Ok::<Option<StateUpdate>, DurableCatalogError>(
                    if o.forwards {
                        Some(update)
                    } else {
                        None
                    },
                ) && final(self)@ == o.applier && *final(epoch) == o.epoch,
                Err(err) => r == Err::<Option<StateUpdate>, DurableCatalogError>(err),
            },
    {
        match self {
            UpdateApplier::Unopened(state) => {
                let is_config = match &update.kind {
                    StateUpdateKind::Config(_, _) => true,
                    _ => false,
                };
                if is_config {
                    match state.configs.apply(&update) {
                        Ok(()) => {},
                        Err(v) => {
                            return Err(DurableCatalogError::Corrupt(v));
                        },
                    }
                    return Ok(Some(update));
                }
                let marker = match &update.kind {
                    StateUpdateKind::Epoch(e) => Some(*e),
                    _ => None,
                };
                match marker {
                    Some(e) => {
                        if update.diff == 1 {
                            match epoch.maybe_fence(e) {
                                Ok(()) => {},
                                Err(err) => {
                                    return Err(err);
                                },
                            }
                        }
                        Ok(Some(update))
                    },
                    None => Ok(Some(update)),
                }
            },
            UpdateApplier::Opened(state) => {
                let class: u8 = match &update.kind {
                    StateUpdateKind::AuditLog(_) => 0,
                    StateUpdateKind::StorageUsage(_) => 1,
                    StateUpdateKind::Epoch(_) => 2,
                    _ => 3,
                };
                if class == 0 {
                    state.audit_logs.push(update);
                    Ok(None)
                } else if class == 1 {
                    state.storage_usage_events.push(update);
                    Ok(None)
                } else if class == 2 && update.diff == 1 {
                    let e = match &update.kind {
                        StateUpdateKind::Epoch(e) => *e,
                        _ => 0,
                    };
                    match epoch.maybe_fence(e) {
                        Ok(()) => Ok(None),
                        Err(err) => Err(err),
                    }
                } else {
                    Ok(Some(update))
                }
            },
        }
    }
}

} // verus!

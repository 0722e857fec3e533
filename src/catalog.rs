use vstd::prelude::*;
use vstd::string::StringExecFns;

use crate::applier::{
    ApplierView, CatalogStateInner, Mode, UnopenedCatalogStateInner, UpdateApplier,
};
use crate::consolidate::{lemma_consolidation_idempotent, restamp};
use crate::epoch::{FenceableEpoch, MIN_EPOCH};
use crate::error::{DurableCatalogError, FenceError, Version, Violation};
use crate::handle::{
    cache_ts, outcome, recache, stamped, sync_outcome, HandleView, PersistHandle,
};
use crate::log::{append_outcome, LogShard, LogView};
use crate::snapshot::{Snapshot, SnapshotView};
use crate::update::{views, CollectionType, KindView, StateUpdate, StateUpdateKind, UpdateView};

verus! {

/// The configuration key of the user version, which decides migrations.
pub const USER_VERSION_KEY: &'static str = "user_version";

/// The configuration key of the deployment generation.
pub const DEPLOY_GENERATION: &'static str = "deploy_generation";

/// The configuration key that records whether system configuration has
/// been synced once.
pub const SYSTEM_CONFIG_SYNCED_KEY: &'static str = "system_config_synced";

/// Whether an applier has seen the configuration collection populated.
pub open spec fn initialized(a: ApplierView) -> bool {
    match a {
        ApplierView::Unopened { configs, .. } => configs.len() > 0,
        ApplierView::Opened { .. } => true,
    }
}

/// The tracked configuration value of `key`, for an unopened applier.
pub open spec fn config_value(a: ApplierView, key: Seq<char>) -> Option<u64> {
    match a {
        ApplierView::Unopened { configs, .. } => if configs.contains_key(key) {
            Some(configs[key])
        } else {
            None
        },
        ApplierView::Opened { .. } => None,
    }
}

impl PersistHandle {
    /// Re-stamps the cache at the position of its last entry and consolidates
    /// it; a consolidated cache is left unchanged.
    pub fn consolidate(&mut self)
        requires
            old(self).wf(),
        ensures
            final(self)@ == old(self)@,
            final(self).wf(),
            views(final(self).snapshot@) == recache(views(old(self).snapshot@)),
    {
        proof {
            let c = views(self.snapshot@);
            assert forall|i: int| 0 <= i < c.len() implies #[trigger] restamp(c, cache_ts(c))[i]
                == c[i] by {
                assert(c[i].ts == cache_ts(c));
            }
            assert(restamp(c, cache_ts(c)) =~= c);
            lemma_consolidation_idempotent(c);
            crate::consolidate::lemma_apply_order_sorted(c);
        }
    }

    /// Whether the configuration collection has been written, as of the last
    /// sync.
    pub fn is_initialized_inner(&self) -> (r: bool)
        requires
            self.wf(),
        ensures
            r == initialized(self@.applier),
    {
        match &self.update_applier {
            UpdateApplier::Unopened(state) => state.configs.config_count() > 0,
            UpdateApplier::Opened(_) => true,
        }
    }

    /// Catches up with the log and reports whether the catalog has been
    /// initialized.
    pub fn is_initialized(&mut self, log: &LogShard) -> (r: Result<bool, DurableCatalogError>)
        requires
            old(self).wf(),
            log.wf(),
            old(self).snapshot@.len() + log.updates@.len() < i64::MAX,
        ensures
            final(self).wf(),
            match sync_outcome(old(self)@, log@, log.upper) {
                Ok(h) => final(self)@ == h && r == Ok::<bool, DurableCatalogError>(initialized(h.applier)),
                Err(x) => r == Err::<bool, DurableCatalogError>(x),
            },
    {
        match self.sync_to_current_upper(log) {
            Ok(()) => {},
            Err(e) => {
                return Err(e);
            },
        }
        Ok(self.is_initialized_inner())
    }

    /// Catches up with the log and returns the value of configuration `key`.
    pub fn get_current_config(&mut self, log: &LogShard, key: &String) -> (r: Result<
        Option<u64>,
        DurableCatalogError,
    >)
        requires
            old(self).wf(),
            log.wf(),
            old(self).snapshot@.len() + log.updates@.len() < i64::MAX,
        ensures
            final(self).wf(),
            match sync_outcome(old(self)@, log@, log.upper) {
                Ok(h) => final(self)@ == h && r == Ok::<Option<u64>, DurableCatalogError>(
                    config_value(h.applier, key@),
                ),
                Err(x) => r == Err::<Option<u64>, DurableCatalogError>(x),
            },
    {
        match self.sync_to_current_upper(log) {
            Ok(()) => {},
            Err(e) => {
                return Err(e);
            },
        }
        match &self.update_applier {
            UpdateApplier::Unopened(state) => Ok(state.configs.get_config(key)),
            UpdateApplier::Opened(_) => Ok(None),
        }
    }

    /// Catches up with the log and returns the user version.
    pub fn get_user_version(&mut self, log: &LogShard) -> (r: Result<Option<u64>, DurableCatalogError>)
        requires
            old(self).wf(),
            log.wf(),
            old(self).snapshot@.len() + log.updates@.len() < i64::MAX,
        ensures
            final(self).wf(),
            match sync_outcome(old(self)@, log@, log.upper) {
                Ok(h) => final(self)@ == h && r == Ok::<Option<u64>, DurableCatalogError>(
                    config_value(h.applier, USER_VERSION_KEY@),
                ),
                Err(x) => r == Err::<Option<u64>, DurableCatalogError>(x),
            },
    {
        let key = String::from_str(USER_VERSION_KEY);
        self.get_current_config(log, &key)
    }

    /// Catches up with the log and returns the deployment generation.
    pub fn get_deployment_generation(&mut self, log: &LogShard) -> (r: Result<Option<u64>, DurableCatalogError>)
        requires
            old(self).wf(),
            log.wf(),
            old(self).snapshot@.len() + log.updates@.len() < i64::MAX,
        ensures
            final(self).wf(),
            match sync_outcome(old(self)@, log@, log.upper) {
                Ok(h) => final(self)@ == h && r == Ok::<Option<u64>, DurableCatalogError>(
                    config_value(h.applier, DEPLOY_GENERATION@),
                ),
                Err(x) => r == Err::<Option<u64>, DurableCatalogError>(x),
            },
    {
        let key = String::from_str(DEPLOY_GENERATION);
        self.get_current_config(log, &key)
    }

    /// Catches up with the log and reports whether system configuration has
    /// been synced at least once: its marker is present and positive.
    pub fn has_system_config_synced_once(&mut self, log: &LogShard) -> (r: Result<bool, DurableCatalogError>)
        requires
            old(self).wf(),
            log.wf(),
            old(self).snapshot@.len() + log.updates@.len() < i64::MAX,
        ensures
            final(self).wf(),
            match sync_outcome(old(self)@, log@, log.upper) {
                Ok(h) => final(self)@ == h && r == Ok::<bool, DurableCatalogError>(
                    match config_value(h.applier, SYSTEM_CONFIG_SYNCED_KEY@) {
                        Some(v) => v > 0,
                        None => false,
                    },
                ),
                Err(x) => r == Err::<bool, DurableCatalogError>(x),
            },
    {
        let key = String::from_str(SYSTEM_CONFIG_SYNCED_KEY);
        match self.get_current_config(log, &key) {
            Ok(Some(v)) => Ok(v > 0),
            Ok(None) => Ok(false),
            Err(e) => Err(e),
        }
    }

    /// Catches up with the log and returns the current epoch.
    pub fn current_epoch(&mut self, log: &LogShard) -> (r: Result<u64, DurableCatalogError>)
        requires
            old(self).wf(),
            log.wf(),
            old(self).snapshot@.len() + log.updates@.len() < i64::MAX,
        ensures
            final(self).wf(),
            match sync_outcome(old(self)@, log@, log.upper) {
                Ok(h) => final(self)@ == h && match h.epoch {
                    FenceableEpoch::Unfenced(Some(e)) => r == Ok::<u64, DurableCatalogError>(e),
                    FenceableEpoch::Unfenced(None) => r == Err::<u64, DurableCatalogError>(
                        DurableCatalogError::Uninitialized,
                    ),
                    FenceableEpoch::Fenced { .. } => r == Err::<u64, DurableCatalogError>(
                        h.epoch.fence_error(),
                    ),
                },
                Err(x) => r == Err::<u64, DurableCatalogError>(x),
            },
    {
        match self.sync_to_current_upper(log) {
            Ok(()) => {},
            Err(e) => {
                return Err(e);
            },
        }
        match self.epoch.validate() {
            Ok(Some(e)) => Ok(e),
            Ok(None) => Err(DurableCatalogError::Uninitialized),
            Err(e) => Err(e),
        }
    }

    /// Increments the epoch and returns the retraction of the old one and the
    /// insertion of the new one, which the caller is to append promptly.
    pub fn increment_epoch(&mut self) -> (r: Result<Vec<(StateUpdateKind, i64)>, DurableCatalogError>)
        ensures
            final(self).snapshot == old(self).snapshot,
            final(self).upper == old(self).upper,
            final(self).version == old(self).version,
            final(self).update_applier == old(self).update_applier,
            match old(self).epoch {
                FenceableEpoch::Fenced { .. } => r == Err::<Vec<(StateUpdateKind, i64)>, DurableCatalogError>(
                    old(self).epoch.fence_error(),
                ) && final(self).epoch == old(self).epoch,
                FenceableEpoch::Unfenced(None) => r == Err::<Vec<(StateUpdateKind, i64)>, DurableCatalogError>(
                    DurableCatalogError::Uninitialized,
                ) && final(self).epoch == old(self).epoch,
                FenceableEpoch::Unfenced(Some(e)) => if e == u64::MAX {
                    r == Err::<Vec<(StateUpdateKind, i64)>, DurableCatalogError>(
                        DurableCatalogError::Corrupt(Violation::EpochExhausted),
                    ) && final(self).epoch == old(self).epoch
                } else {
                    &&& r is Ok
                    &&& crate::handle::pair_views(r.unwrap()@) == epoch_bump(e)
                    &&& final(self).epoch == FenceableEpoch::Unfenced(Some((e + 1) as u64))
                },
            },
    {
        let current = match self.epoch.validate() {
            Ok(Some(e)) => e,
            Ok(None) => {
                return Err(DurableCatalogError::Uninitialized);
            },
            Err(e) => {
                return Err(e);
            },
        };
        if current == u64::MAX {
            return Err(DurableCatalogError::Corrupt(Violation::EpochExhausted));
        }
        let next = current + 1;
        self.epoch = FenceableEpoch::Unfenced(Some(next));
        let r = vec![(StateUpdateKind::Epoch(current), -1i64), (StateUpdateKind::Epoch(next), 1i64)];
        assert(crate::handle::pair_views(r@) =~= epoch_bump(current));
        Ok(r)
    }
}

/// The values of the entries of `cache` under `key` in `collection`, in order.
pub open spec fn live_values(cache: Seq<UpdateView>, collection: CollectionType, key: Seq<char>) -> Seq<Seq<char>>
    decreases cache.len(),
{
    if cache.len() == 0 {
        Seq::empty()
    } else {
        let rest = live_values(cache.drop_last(), collection, key);
        match cache.last().kind {
            KindView::Entry(c, k, v) => if c == collection && k == key {
                rest.push(v)
            } else {
                rest
            },
            _ => rest,
        }
    }
}

/// There are no more values under a key than entries in the cache.
pub proof fn lemma_live_values_len(cache: Seq<UpdateView>, collection: CollectionType, key: Seq<char>)
    ensures
        live_values(cache, collection, key).len() <= cache.len(),
    decreases cache.len(),
{
    if cache.len() > 0 {
        lemma_live_values_len(cache.drop_last(), collection, key);
    }
}

/// Retractions of `values` under `key` in `collection`.
pub open spec fn retractions(collection: CollectionType, key: Seq<char>, values: Seq<Seq<char>>) -> Seq<(KindView, int)> {
    values.map_values(|v: Seq<char>| (KindView::Entry(collection, key, v), -1int))
}

/// What an edit appends: the retraction of the previous values, the new
/// value, and an epoch bump that fences out every other writer.
pub open spec fn edit_batch(
    collection: CollectionType,
    key: Seq<char>,
    values: Seq<Seq<char>>,
    value: Seq<char>,
    e: u64,
) -> Seq<(KindView, int)> {
    retractions(collection, key, values) + seq![(KindView::Entry(collection, key, value), 1int)]
        + epoch_bump(e)
}

/// What a delete appends: the retraction of the previous values and an epoch
/// bump.
pub open spec fn delete_batch(collection: CollectionType, key: Seq<char>, values: Seq<Seq<char>>, e: u64) -> Seq<(KindView, int)> {
    retractions(collection, key, values) + epoch_bump(e)
}

/// Whether `prev` is the single value of `values`, or `None` when there is none.
pub open spec fn prev_matches(prev: Option<String>, values: Seq<Seq<char>>) -> bool {
    if values.len() == 0 {
        prev is None
    } else {
        prev is Some && prev.unwrap()@ == values[0]
    }
}

/// The values of the entries of `cache` under `key` in `collection`.
pub fn find_values(cache: &Vec<StateUpdate>, collection: CollectionType, key: &String) -> (r: Vec<String>)
    ensures
        r@.map_values(|s: String| s@) == live_values(views(cache@), collection, key@),
{
    let ghost cv = views(cache@);
    let mut r: Vec<String> = Vec::new();
    let mut i: usize = 0;
    assert(cv.take(0) =~= Seq::<UpdateView>::empty());
    assert(r@.map_values(|s: String| s@) =~= Seq::<Seq<char>>::empty());
    while i < cache.len()
        invariant
            i <= cache@.len(),
            cv == views(cache@),
            r@.map_values(|s: String| s@) == live_values(cv.take(i as int), collection, key@),
        decreases cache@.len() - i,
    {
        assert(cv.take(i as int + 1).drop_last() =~= cv.take(i as int));
        assert(cv.take(i as int + 1).last() == cache@[i as int]@);
        match &cache[i].kind {
            StateUpdateKind::Entry(c, k, v) => {
                if *c == collection && k.eq(key) {
                    let ghost r0 = r@;
                    r.push(v.clone());
                    assert(r@.map_values(|s: String| s@) =~= r0.map_values(|s: String| s@).push(v@));
                }
            },
            _ => {},
        }
        i = i + 1;
    }
    assert(cv.take(i as int) =~= cv);
    r
}

/// The retractions of `values` under `key` in `collection`.
pub fn retract_values(collection: CollectionType, key: &String, values: &Vec<String>) -> (r: Vec<
    (StateUpdateKind, i64),
>)
    ensures
        crate::handle::pair_views(r@) == retractions(collection, key@, values@.map_values(|s: String| s@)),
        r@.len() == values@.len(),
        forall|i: int| 0 <= i < r@.len() ==> #[trigger] r@[i].1 == -1,
{
    let ghost vs = values@.map_values(|s: String| s@);
    let mut r: Vec<(StateUpdateKind, i64)> = Vec::new();
    let mut i: usize = 0;
    assert(crate::handle::pair_views(r@) =~= retractions(collection, key@, vs.take(0)));
    while i < values.len()
        invariant
            i <= values@.len(),
            vs == values@.map_values(|s: String| s@),
            crate::handle::pair_views(r@) == retractions(collection, key@, vs.take(i as int)),
            r@.len() == i,
            forall|k: int| 0 <= k < r@.len() ==> #[trigger] r@[k].1 == -1,
        decreases values@.len() - i,
    {
        let ghost r0 = crate::handle::pair_views(r@);
        r.push((StateUpdateKind::Entry(collection, key.clone(), values[i].clone()), -1i64));
        assert(vs.take(i as int + 1) =~= vs.take(i as int).push(vs[i as int]));
        assert(crate::handle::pair_views(r@) =~= r0.push((KindView::Entry(collection, key@, vs[i as int]), -1int)));
        assert(retractions(collection, key@, vs.take(i as int + 1)) =~= retractions(collection, key@, vs.take(i as int)).push(
            (KindView::Entry(collection, key@, vs[i as int]), -1int),
        ));
        i = i + 1;
    }
    assert(vs.take(i as int) =~= vs);
    r
}

impl PersistHandle {
    /// Sets `key` in `collection` to `value`, outside any transaction: reads
    /// the current value, appends its retraction, the new value and an epoch
    /// bump, and returns the previous value.
    #[verifier::rlimit(60)]
    pub fn debug_edit_inner(
        &mut self,
        log: &mut LogShard,
        collection: CollectionType,
        key: String,
        value: String,
    ) -> (r: Result<Option<String>, DurableCatalogError>)
        requires
            old(self).wf(),
            old(log).wf(),
            old(self).upper <= old(log).upper,
            old(log).upper < u64::MAX,
            old(self).snapshot@.len() + 2 * old(log).updates@.len() + 4 < i64::MAX,
        ensures
            final(self).wf(),
            final(log).wf(),
            match sync_outcome(old(self)@, old(log)@, old(log).upper) {
                Err(x) => r == Err::<Option<String>, DurableCatalogError>(x) && final(log)@ == old(log)@,
                Ok(h) => {
                    let vals = live_values(h.cache, collection, key@);
                    if vals.len() > 1 {
                        r == Err::<Option<String>, DurableCatalogError>(
                            DurableCatalogError::Corrupt(Violation::MultipleValues),
                        ) && final(log)@ == old(log)@
                    } else {
                        match h.epoch {
                            FenceableEpoch::Unfenced(Some(e)) => if e == u64::MAX {
                                r == Err::<Option<String>, DurableCatalogError>(
                                    DurableCatalogError::Corrupt(Violation::EpochExhausted),
                                ) && final(log)@ == old(log)@
                            } else {
                                let batch = stamped(edit_batch(collection, key@, vals, value@, e), h.upper);
                                match append_outcome(old(log)@, batch, h.upper, (h.upper + 1) as u64, h.version) {
                                    Err(m) => r == Err::<Option<String>, DurableCatalogError>(
                                        DurableCatalogError::Fence(
                                            FenceError::Upper { expected: m.expected, current: m.current },
                                        ),
                                    ) && final(log)@ == old(log)@,
                                    Ok(l) => {
                                        &&& final(log)@.updates == l.updates
                                        &&& final(log)@.upper == l.upper
                                        &&& match sync_outcome(
                                            HandleView { epoch: FenceableEpoch::Unfenced(Some((e + 1) as u64)), ..h },
                                            final(log)@,
                                            (h.upper + 1) as u64,
                                        ) {
                                            Ok(h2) => r is Ok && prev_matches(r.unwrap(), vals) && final(self)@ == h2,
                                            Err(x) => r == Err::<Option<String>, DurableCatalogError>(x),
                                        }
                                    },
                                }
                            },
                            FenceableEpoch::Unfenced(None) => r == Err::<Option<String>, DurableCatalogError>(
                                DurableCatalogError::Uninitialized,
                            ) && final(log)@ == old(log)@,
                            FenceableEpoch::Fenced { .. } => r == Err::<Option<String>, DurableCatalogError>(
                                h.epoch.fence_error(),
                            ) && final(log)@ == old(log)@,
                        }
                    }
                },
            },
    {
        match self.sync_to_current_upper(log) {
            Ok(()) => {},
            Err(e) => {
                return Err(e);
            },
        }
        self.consolidate();
        let prev = find_values(&self.snapshot, collection, &key);
        if prev.len() > 1 {
            return Err(DurableCatalogError::Corrupt(Violation::MultipleValues));
        }
        let ghost vals = prev@.map_values(|s: String| s@);
        let ghost e0 = self.epoch;
        let ghost key_view = key@;
        let ghost value_view = value@;
        let mut updates: Vec<(StateUpdateKind, i64)> = Vec::new();
        let mut prev_value: Option<String> = None;
        if prev.len() == 1 {
            updates.push((StateUpdateKind::Entry(collection, key.clone(), prev[0].clone()), -1i64));
            prev_value = Some(prev[0].clone());
        }
        updates.push((StateUpdateKind::Entry(collection, key, value), 1i64));
        assert(crate::handle::pair_views(updates@) =~= retractions(collection, key_view, vals) + seq![
            (KindView::Entry(collection, key_view, value_view), 1int),
        ]);
        let mut fence = match self.increment_epoch() {
            Ok(f) => f,
            Err(e) => {
                return Err(e);
            },
        };
        let ghost before = updates@;
        updates.append(&mut fence);
        assert(crate::handle::pair_views(updates@) =~= edit_batch(
            collection,
            key_view,
            vals,
            value_view,
            e0.spec_epoch().unwrap(),
        ));
        match self.compare_and_append(log, updates) {
            Ok(()) => Ok(prev_value),
            Err(e) => Err(e),
        }
    }

    /// Deletes `key` from `collection`, outside any transaction: appends the
    /// retraction of every current value of it and an epoch bump.
    #[verifier::rlimit(60)]
    pub fn debug_delete_inner(
        &mut self,
        log: &mut LogShard,
        collection: CollectionType,
        key: String,
    ) -> (r: Result<(), DurableCatalogError>)
        requires
            old(self).wf(),
            old(log).wf(),
            old(self).upper <= old(log).upper,
            old(log).upper < u64::MAX,
            2 * old(self).snapshot@.len() + 3 * old(log).updates@.len() + 4 < i64::MAX,
        ensures
            final(self).wf(),
            final(log).wf(),
            match sync_outcome(old(self)@, old(log)@, old(log).upper) {
                Err(x) => r == Err::<(), DurableCatalogError>(x) && final(log)@ == old(log)@,
                Ok(h) => {
                    let vals = live_values(h.cache, collection, key@);
                    {
                        match h.epoch {
                            FenceableEpoch::Unfenced(Some(e)) => if e == u64::MAX {
                                r == Err::<(), DurableCatalogError>(
                                    DurableCatalogError::Corrupt(Violation::EpochExhausted),
                                ) && final(log)@ == old(log)@
                            } else {
                                let batch = stamped(delete_batch(collection, key@, vals, e), h.upper);
                                match append_outcome(old(log)@, batch, h.upper, (h.upper + 1) as u64, h.version) {
                                    Err(m) => r == Err::<(), DurableCatalogError>(
                                        DurableCatalogError::Fence(
                                            FenceError::Upper { expected: m.expected, current: m.current },
                                        ),
                                    ) && final(log)@ == old(log)@,
                                    Ok(l) => {
                                        &&& final(log)@.updates == l.updates
                                        &&& final(log)@.upper == l.upper
                                        &&& match sync_outcome(
                                            HandleView { epoch: FenceableEpoch::Unfenced(Some((e + 1) as u64)), ..h },
                                            final(log)@,
                                            (h.upper + 1) as u64,
                                        ) {
                                            Ok(h2) => r is Ok && final(self)@ == h2,
                                            Err(x) => r == Err::<(), DurableCatalogError>(x),
                                        }
                                    },
                                }
                            },
                            FenceableEpoch::Unfenced(None) => r == Err::<(), DurableCatalogError>(
                                DurableCatalogError::Uninitialized,
                            ) && final(log)@ == old(log)@,
                            FenceableEpoch::Fenced { .. } => r == Err::<(), DurableCatalogError>(
                                h.epoch.fence_error(),
                            ) && final(log)@ == old(log)@,
                        }
                    }
                },
            },
    {
        match self.sync_to_current_upper(log) {
            Ok(()) => {},
            Err(e) => {
                return Err(e);
            },
        }
        self.consolidate();
        let prev = find_values(&self.snapshot, collection, &key);
        proof {
            lemma_live_values_len(views(self.snapshot@), collection, key@);
        }
        let ghost vals = prev@.map_values(|s: String| s@);
        let ghost e0 = self.epoch;
        let ghost key_view = key@;
        let mut updates = retract_values(collection, &key, &prev);
        let mut fence = match self.increment_epoch() {
            Ok(f) => f,
            Err(e) => {
                return Err(e);
            },
        };
        updates.append(&mut fence);
        assert(crate::handle::pair_views(updates@) =~= delete_batch(
            collection,
            key_view,
            vals,
            e0.spec_epoch().unwrap(),
        ));
        match self.compare_and_append(log, updates) {
            Ok(()) => Ok(()),
            Err(e) => Err(e),
        }
    }
}

/// The retraction of epoch `e` and the insertion of `e + 1`.
pub open spec fn epoch_bump(e: u64) -> Seq<(KindView, int)> {
    seq![(KindView::Epoch(e), -1int), (KindView::Epoch((e + 1) as u64), 1int)]
}

} // verus!

verus! {

/// The epoch a catalog opened in `mode` takes, given the epoch `prev` found in
/// the log: a writable open takes the next one, or `lower` if that is larger;
/// `None` if the epoch is exhausted.
pub open spec fn chosen_epoch(prev: Option<u64>, mode: Mode, lower: Option<u64>) -> Option<u64> {
    let base = match prev {
        Some(e) => e,
        None => MIN_EPOCH,
    };
    if mode == Mode::Writable {
        if base == u64::MAX {
            None
        } else {
            let next = (base + 1) as u64;
            let lb = match lower {
                Some(x) => x,
                None => MIN_EPOCH,
            };
            Some(
                if next > lb {
                    next
                } else {
                    lb
                },
            )
        }
    } else {
        Some(base)
    }
}

/// The updates that fence out the catalogs of epoch `prev` in favour of `cur`.
pub open spec fn fence_batch(prev: Option<u64>, cur: u64) -> Seq<(KindView, int)> {
    match prev {
        Some(p) => seq![(KindView::Epoch(p), -1int), (KindView::Epoch(cur), 1int)],
        None => seq![(KindView::Epoch(cur), 1int)],
    }
}

/// The handle that an open hands over to: same log position and epoch, an
/// empty cache, and the applier of an opened catalog.
pub open spec fn opened_view(h: HandleView, mode: Mode) -> HandleView {
    HandleView {
        cache: Seq::empty(),
        applier: ApplierView::Opened {
            mode,
            audit_logs: Some(Seq::empty()),
            storage_usage_events: Some(Seq::empty()),
        },
        ..h
    }
}

/// The rest of an open once the fence is in place: a non-writable open of an
/// uninitialized catalog is refused; otherwise the cache is replayed into an
/// opened handle.
pub open spec fn open_rest(h2: HandleView, mode: Mode) -> Result<HandleView, DurableCatalogError> {
    if mode != Mode::Writable && !initialized(h2.applier) {
        Err(DurableCatalogError::NotWritable)
    } else {
        outcome(opened_view(h2, mode), h2.cache)
    }
}

/// The handle after the fencing step of an open, or the error that ends it.
pub open spec fn open_fence_ok(h: HandleView, l: LogView, mode: Mode, lower: Option<u64>) -> Result<HandleView, DurableCatalogError> {
    match sync_outcome(h, l, l.upper) {
        Err(x) => Err(x),
        Ok(h1) => match h1.epoch {
            FenceableEpoch::Fenced { .. } => Err(h1.epoch.fence_error()),
            FenceableEpoch::Unfenced(prev) => match chosen_epoch(prev, mode, lower) {
                None => Err(DurableCatalogError::Corrupt(Violation::EpochExhausted)),
                Some(cur) => {
                    let hc = HandleView { epoch: FenceableEpoch::Unfenced(Some(cur)), ..h1 };
                    if mode == Mode::Writable {
                        match append_outcome(
                            l,
                            stamped(fence_batch(prev, cur), h1.upper),
                            h1.upper,
                            (h1.upper + 1) as u64,
                            h1.version,
                        ) {
                            Err(m) => Err(
                                DurableCatalogError::Fence(
                                    FenceError::Upper { expected: m.expected, current: m.current },
                                ),
                            ),
                            Ok(l2) => sync_outcome(hc, l2_since(l, l2, h1.upper), (h1.upper + 1) as u64),
                        }
                    } else {
                        Ok(hc)
                    }
                },
            },
        },
    }
}

/// The catalog log after the fencing step of an open: the fence appended in a
/// writable open that got that far and won the race, unchanged otherwise.
pub open spec fn fence_log(h: HandleView, l: LogView, mode: Mode, lower: Option<u64>) -> LogView {
    match sync_outcome(h, l, l.upper) {
        Err(_) => l,
        Ok(h1) => match h1.epoch {
            FenceableEpoch::Fenced { .. } => l,
            FenceableEpoch::Unfenced(prev) => match chosen_epoch(prev, mode, lower) {
                None => l,
                Some(cur) => if mode == Mode::Writable {
                    match append_outcome(
                        l,
                        stamped(fence_batch(prev, cur), h1.upper),
                        h1.upper,
                        (h1.upper + 1) as u64,
                        h1.version,
                    ) {
                        Err(_) => l,
                        Ok(l2) => l2_since(l, l2, h1.upper),
                    }
                } else {
                    l
                },
            },
        },
    }
}

/// The log after a successful append at `upper`, with `since` advanced to it.
pub open spec fn l2_since(l: LogView, l2: LogView, upper: u64) -> LogView {
    LogView {
        since: if l2.since < upper {
            upper
        } else {
            l2.since
        },
        ..l2
    }
}

/// The log after the empty write at the minimum position that makes a new
/// shard readable.
pub open spec fn initialized_log(l: LogView, version: Version) -> LogView {
    match append_outcome(l, Seq::empty(), 0, 1, version) {
        Ok(l2) => l2,
        Err(_) => l,
    }
}

/// The freshest position that reads of `l` may choose.
pub open spec fn read_as_of(l: LogView) -> u64 {
    if l.since >= l.upper {
        l.since
    } else {
        (l.upper - 1) as u64
    }
}

/// The last epoch inserted in `rows`.
pub open spec fn latest_epoch(rows: Seq<UpdateView>) -> Option<u64>
    decreases rows.len(),
{
    if rows.len() == 0 {
        None
    } else {
        match rows.last().kind {
            KindView::Epoch(e) => if rows.last().diff == 1 {
                Some(e)
            } else {
                latest_epoch(rows.drop_last())
            },
            _ => latest_epoch(rows.drop_last()),
        }
    }
}

/// The last epoch inserted in `rows`.
pub fn find_latest_epoch(rows: &Vec<StateUpdate>) -> (r: Option<u64>)
    ensures
        r == latest_epoch(views(rows@)),
{
    let ghost rv = views(rows@);
    let mut i: usize = rows.len();
    assert(rv.take(i as int) =~= rv);
    while i > 0
        invariant
            i <= rows@.len(),
            rv == views(rows@),
            latest_epoch(rv) == latest_epoch(rv.take(i as int)),
        decreases i,
    {
        assert(rv.take(i as int).drop_last() =~= rv.take(i - 1));
        assert(rv.take(i as int).last() == rows@[i - 1]@);
        if rows[i - 1].diff == 1 {
            match &rows[i - 1].kind {
                StateUpdateKind::Epoch(e) => {
                    return Some(*e);
                },
                _ => {},
            }
        }
        i = i - 1;
    }
    assert(rv.take(0) =~= Seq::<UpdateView>::empty());
    None
}

impl PersistHandle {
    /// Opens a handle on the catalog shard `log` of `organization_id` for code
    /// at `version`.
    ///
    /// Refuses with an incompatible-version error when the version recorded in
    /// `upgrade_log` cannot be read by this code. Otherwise makes the shard
    /// readable with an empty write at the minimum position, reads its
    /// consolidated contents, adopts the last epoch found there, and applies
    /// those contents.
    pub fn new(log: &mut LogShard, upgrade_log: &LogShard, organization_id: u128, version: Version) -> (r:
        Result<PersistHandle, DurableCatalogError>)
        requires
            old(log).wf(),
            old(log).updates@.len() < i64::MAX,
        ensures
            final(log).wf(),
            match upgrade_log.applier_version {
                Some(v) if !crate::upgrade::data_version_compatible(v, version) => r == Err::<
                    PersistHandle,
                    DurableCatalogError,
                >(DurableCatalogError::IncompatiblePersistVersion { found_version: v, catalog_version: version })
                    && final(log)@ == old(log)@,
                _ => {
                    let l = initialized_log(old(log)@, version);
                    let rows = crate::log::snapshot_at(l, read_as_of(l));
                    let h0 = HandleView {
                        cache: Seq::empty(),
                        applier: ApplierView::Unopened { organization_id, configs: Map::empty() },
                        upper: l.upper,
                        epoch: FenceableEpoch::Unfenced(latest_epoch(rows)),
                        version,
                    };
                    &&& final(log)@ == l
                    &&& match outcome(h0, rows) {
                        Ok(h) => r is Ok && r.unwrap()@ == h && r.unwrap().wf(),
                        Err(x) => r == Err::<PersistHandle, DurableCatalogError>(x),
                    }
                },
            },
    {
        match upgrade_log.applier_version {
            Some(v) => {
                if !crate::upgrade::check_data_version(&v, &version) {
                    return Err(
                        DurableCatalogError::IncompatiblePersistVersion {
                            found_version: v,
                            catalog_version: version,
                        },
                    );
                }
            },
            None => {},
        }
        let none: Vec<StateUpdate> = Vec::new();
        assert(views(none@) =~= Seq::<UpdateView>::empty());
        let _ = log.compare_and_append(none, 0, 1, version);
        assert(old(log)@.updates + Seq::<UpdateView>::empty() =~= old(log)@.updates);
        let upper = log.fetch_recent_upper();
        let as_of = if log.since >= upper {
            log.since
        } else {
            upper - 1
        };
        let rows = log.snapshot_and_fetch(as_of);
        proof {
            crate::consolidate::lemma_consolidation_len(
                restamp(crate::log::at_or_before(log@.updates, as_of), as_of),
            );
            log@.updates.lemma_filter_len(|u: UpdateView| u.ts <= as_of);
        }
        let epoch = FenceableEpoch::Unfenced(find_latest_epoch(&rows));
        let mut handle = PersistHandle {
            snapshot: Vec::new(),
            update_applier: UpdateApplier::Unopened(UnopenedCatalogStateInner::new(organization_id)),
            upper,
            epoch,
            version,
        };
        assert(views(handle.snapshot@) =~= Seq::<UpdateView>::empty());
        match handle.apply_updates(rows) {
            Ok(()) => Ok(handle),
            Err(e) => Err(e),
        }
    }

    /// Catches up with the log, takes the epoch that [`chosen_epoch`] gives
    /// and, in a writable open, appends the fence of the previous epoch.
    pub fn fence(&mut self, log: &mut LogShard, mode: Mode, epoch_lower_bound: Option<u64>) -> (r: Result<
        (),
        DurableCatalogError,
    >)
        requires
            old(self).wf(),
            old(log).wf(),
            old(self).upper <= old(log).upper,
            old(log).upper < u64::MAX,
            old(self).snapshot@.len() + 2 * old(log).updates@.len() + 4 < i64::MAX,
        ensures
            final(log)@ == fence_log(old(self)@, old(log)@, mode, epoch_lower_bound),
            final(self).wf(),
            final(log).wf(),
            final(self).snapshot@.len() <= old(self).snapshot@.len() + 2 * old(log).updates@.len() + 2,
            match sync_outcome(old(self)@, old(log)@, old(log).upper) {
                Err(x) => r == Err::<(), DurableCatalogError>(x),
                Ok(h1) => match h1.epoch {
                    FenceableEpoch::Fenced { .. } => r == Err::<(), DurableCatalogError>(h1.epoch.fence_error()),
                    FenceableEpoch::Unfenced(prev) => match chosen_epoch(prev, mode, epoch_lower_bound) {
                        None => r == Err::<(), DurableCatalogError>(
                            DurableCatalogError::Corrupt(Violation::EpochExhausted),
                        ),
                        Some(cur) => {
                            let hc = HandleView { epoch: FenceableEpoch::Unfenced(Some(cur)), ..h1 };
                            if mode == Mode::Writable {
                                match append_outcome(
                                    old(log)@,
                                    stamped(fence_batch(prev, cur), h1.upper),
                                    h1.upper,
                                    (h1.upper + 1) as u64,
                                    h1.version,
                                ) {
                                    Err(m) => r == Err::<(), DurableCatalogError>(
                                        DurableCatalogError::Fence(
                                            FenceError::Upper { expected: m.expected, current: m.current },
                                        ),
                                    ),
                                    Ok(l) => {
                                        &&& final(log)@.updates == l.updates
                                        &&& final(log)@.upper == l.upper
                                        &&& match sync_outcome(hc, final(log)@, (h1.upper + 1) as u64) {
                                            Err(x) => r == Err::<(), DurableCatalogError>(x),
                                            Ok(h2) => r is Ok && final(self)@ == h2,
                                        }
                                    },
                                }
                            } else {
                                &&& final(log)@ == old(log)@
                                &&& r is Ok
                                &&& final(self)@ == hc
                            }
                        },
                    },
                },
            },
    {
        match self.sync_to_current_upper(log) {
            Ok(()) => {},
            Err(e) => {
                return Err(e);
            },
        }
        let prev_epoch = match self.epoch.validate() {
            Ok(p) => p,
            Err(e) => {
                return Err(e);
            },
        };
        let base = match prev_epoch {
            Some(e) => e,
            None => MIN_EPOCH,
        };
        let current = if mode == Mode::Writable {
            if base == u64::MAX {
                return Err(DurableCatalogError::Corrupt(Violation::EpochExhausted));
            }
            let next = base + 1;
            let lb = match epoch_lower_bound {
                Some(x) => x,
                None => MIN_EPOCH,
            };
            if next > lb {
                next
            } else {
                lb
            }
        } else {
            base
        };
        let mut fence_updates: Vec<(StateUpdateKind, i64)> = Vec::new();
        match prev_epoch {
            Some(p) => {
                fence_updates.push((StateUpdateKind::Epoch(p), -1i64));
            },
            None => {},
        }
        fence_updates.push((StateUpdateKind::Epoch(current), 1i64));
        assert(crate::handle::pair_views(fence_updates@) =~= fence_batch(prev_epoch, current));
        self.epoch = FenceableEpoch::Unfenced(Some(current));
        if mode == Mode::Writable {
            self.compare_and_append(log, fence_updates)
        } else {
            Ok(())
        }
    }

    /// Opens the catalog in `mode`, handing this unopened handle over to an
    /// opened one.
    ///
    /// Catches up with the log and takes the epoch that [`chosen_epoch`]
    /// gives. A writable open appends the retraction of the previous epoch and
    /// the insertion of the new one, which fences out every earlier writer,
    /// and afterwards records its version in `upgrade_log`. A non-writable open
    /// of an uninitialized catalog is refused.
    pub fn open(
        self,
        log: &mut LogShard,
        upgrade_log: &mut LogShard,
        mode: Mode,
        epoch_lower_bound: Option<u64>,
    ) -> (r: Result<PersistHandle, DurableCatalogError>)
        requires
            self.wf(),
            old(log).wf(),
            old(upgrade_log).wf(),
            self.upper <= old(log).upper,
            old(log).upper < u64::MAX,
            old(upgrade_log).upper < u64::MAX,
            self.snapshot@.len() + 2 * old(log).updates@.len() + 4 < i64::MAX,
        ensures
            final(log)@ == fence_log(self@, old(log)@, mode, epoch_lower_bound),
            r is Err ==> final(upgrade_log)@ == old(upgrade_log)@,
            final(log).wf(),
            final(upgrade_log).wf(),
            r is Ok ==> r.unwrap().wf(),
            open_fence_ok(self@, old(log)@, mode, epoch_lower_bound) is Err ==> r == Err::<
                PersistHandle,
                DurableCatalogError,
            >(open_fence_ok(self@, old(log)@, mode, epoch_lower_bound)->Err_0),
            match open_fence_ok(self@, old(log)@, mode, epoch_lower_bound) {
                Err(_) => true,
                Ok(h2) => match open_rest(h2, mode) {
                    Err(x) => r == Err::<PersistHandle, DurableCatalogError>(x),
                    Ok(h3) => {
                        &&& r is Ok
                        &&& r.unwrap()@ == h3
                        &&& final(upgrade_log)@ == if mode == Mode::Writable {
                            LogView {
                                upper: (old(upgrade_log).upper + 1) as u64,
                                applier_version: Some(self.version),
                                ..old(upgrade_log)@
                            }
                        } else {
                            old(upgrade_log)@
                        }
                    },
                },
            },
    {
        let mut this = self;
        match this.fence(log, mode, epoch_lower_bound) {
            Ok(()) => {},
            Err(e) => {
                return Err(e);
            },
        }
        if mode != Mode::Writable && !this.is_initialized_inner() {
            return Err(DurableCatalogError::NotWritable);
        }
        let mut opened = PersistHandle {
            snapshot: Vec::new(),
            update_applier: UpdateApplier::Opened(CatalogStateInner::new(mode)),
            upper: this.upper,
            epoch: this.epoch,
            version: this.version,
        };
        assert(views(opened.snapshot@) =~= Seq::<UpdateView>::empty());
        match opened.apply_updates(this.snapshot) {
            Ok(()) => {},
            Err(e) => {
                return Err(e);
            },
        }
        if mode == Mode::Writable {
            crate::upgrade::increment_catalog_upgrade_shard_version(upgrade_log, opened.version);
        }
        Ok(opened)
    }
}

} // verus!

verus! {

impl PersistHandle {
    /// Catches up with the log and materializes the cache into a snapshot.
    pub fn snapshot(&mut self, log: &LogShard) -> (r: Result<Snapshot, DurableCatalogError>)
        requires
            old(self).wf(),
            log.wf(),
            old(self).snapshot@.len() + log.updates@.len() < i64::MAX,
        ensures
            final(self).wf(),
            match sync_outcome(old(self)@, log@, log.upper) {
                Err(x) => r == Err::<Snapshot, DurableCatalogError>(x),
                Ok(h) => final(self)@ == h && match crate::snapshot::replay(SnapshotView::empty(), h.cache) {
                    Ok(m) => r is Ok && r.unwrap().wf() && r.unwrap()@ == m,
                    Err(v) => r == Err::<Snapshot, DurableCatalogError>(DurableCatalogError::Corrupt(v)),
                },
            },
    {
        match self.sync_to_current_upper(log) {
            Ok(()) => {},
            Err(e) => {
                return Err(e);
            },
        }
        match crate::snapshot::materialize(&self.snapshot) {
            Ok(s) => Ok(s),
            Err(v) => Err(DurableCatalogError::Corrupt(v)),
        }
    }

    /// Confirms that this handle is still the authoritative writer by
    /// catching up with the log; a read-only catalog does not care.
    pub fn confirm_leadership(&mut self, log: &LogShard) -> (r: Result<(), DurableCatalogError>)
        requires
            old(self).wf(),
            log.wf(),
            old(self).snapshot@.len() + log.updates@.len() < i64::MAX,
        ensures
            final(self).wf(),
            if old(self)@.applier matches ApplierView::Opened { mode: Mode::Readonly, .. } {
                r is Ok && final(self)@ == old(self)@
            } else {
                match sync_outcome(old(self)@, log@, log.upper) {
                    Ok(h) => r is Ok && final(self)@ == h,
                    Err(x) => r == Err::<(), DurableCatalogError>(x),
                }
            },
    {
        if self.is_read_only() {
            return Ok(());
        }
        self.sync_to_current_upper(log)
    }

    /// Whether mutations are rejected.
    pub fn is_read_only(&self) -> (r: bool)
        ensures
            r == (self@.applier matches ApplierView::Opened { mode: Mode::Readonly, .. }),
    {
        match &self.update_applier {
            UpdateApplier::Opened(state) => state.mode == Mode::Readonly,
            UpdateApplier::Unopened(_) => false,
        }
    }

    /// Commits `updates`: appended durably in a writable catalog, applied to
    /// the cache only in a savepoint, refused in a read-only one unless empty.
    pub fn commit_transaction(&mut self, log: &mut LogShard, updates: Vec<(StateUpdateKind, i64)>) -> (r:
        Result<(), DurableCatalogError>)
        requires
            old(self).wf(),
            old(log).wf(),
            old(self).upper < u64::MAX,
            forall|i: int| 0 <= i < updates@.len() ==> (#[trigger] updates@[i].1 == 1 || updates@[i].1 == -1),
            old(self).snapshot@.len() + old(log).updates@.len() + updates@.len() < i64::MAX,
        ensures
            final(self).wf(),
            final(log).wf(),
            match old(self)@.applier {
                ApplierView::Opened { mode: Mode::Readonly, .. } => {
                    &&& final(self)@ == old(self)@
                    &&& final(log)@ == old(log)@
                    &&& if updates@.len() > 0 {
                        r == Err::<(), DurableCatalogError>(DurableCatalogError::NotWritable)
                    } else {
                        r is Ok
                    }
                },
                ApplierView::Opened { mode: Mode::Savepoint, .. } => {
                    &&& final(log)@ == old(log)@
                    &&& match outcome(old(self)@, stamped(crate::handle::pair_views(updates@), old(self).upper)) {
                        Ok(h) => r is Ok && final(self)@ == h,
                        Err(x) => r == Err::<(), DurableCatalogError>(x),
                    }
                },
                _ => match append_outcome(
                    old(log)@,
                    stamped(crate::handle::pair_views(updates@), old(self).upper),
                    old(self).upper,
                    (old(self).upper + 1) as u64,
                    old(self).version,
                ) {
                    Err(m) => r == Err::<(), DurableCatalogError>(
                        DurableCatalogError::Fence(FenceError::Upper { expected: m.expected, current: m.current }),
                    ),
                    Ok(_) => match sync_outcome(old(self)@, final(log)@, (old(self).upper + 1) as u64) {
                        Ok(h) => r is Ok && final(self)@ == h,
                        Err(x) => r == Err::<(), DurableCatalogError>(x),
                    },
                },
            },
    {
        let mode = match &self.update_applier {
            UpdateApplier::Opened(state) => state.mode,
            UpdateApplier::Unopened(_) => Mode::Writable,
        };
        if mode == Mode::Readonly {
            if updates.len() > 0 {
                return Err(DurableCatalogError::NotWritable);
            }
            return Ok(());
        }
        if mode == Mode::Savepoint {
            let ts = self.upper;
            let batch = crate::handle::stamp(updates, ts);
            return self.apply_updates(batch);
        }
        self.compare_and_append(log, updates)
    }
}

} // verus!

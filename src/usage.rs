use vstd::prelude::*;

use crate::applier::{ApplierView, Mode, UpdateApplier};
use crate::catalog::read_as_of;
use crate::consolidate::{apply_order, consolidation};
use crate::error::{DurableCatalogError, FenceError, Violation};
use crate::handle::{outcome, pair_views, stamped, sync_outcome, HandleView, PersistHandle};
use crate::log::{append_outcome, snapshot_at, LogShard, LogView};
use crate::update::{views, KindView, StateUpdate, StateUpdateKind, UpdateView};

verus! {

/// The keys of the audit events (`audit`) or of the storage usage events of
/// `s`, in order.
pub open spec fn keys_of(s: Seq<UpdateView>, audit: bool) -> Seq<Seq<char>>
    decreases s.len(),
{
    if s.len() == 0 {
        Seq::empty()
    } else {
        let rest = keys_of(s.drop_last(), audit);
        match s.last().kind {
            KindView::AuditLog(k) => if audit {
                rest.push(k)
            } else {
                rest
            },
            KindView::StorageUsage(k) => if audit {
                rest
            } else {
                rest.push(k)
            },
            _ => rest,
        }
    }
}

/// The texts of `v`.
pub open spec fn texts(v: Seq<String>) -> Seq<Seq<char>> {
    v.map_values(|s: String| s@)
}

/// The keys of the audit events (`audit`) or of the storage usage events of
/// `v`, in order.
pub fn collect_keys(v: &Vec<StateUpdate>, audit: bool) -> (r: Vec<String>)
    ensures
        texts(r@) == keys_of(views(v@), audit),
{
    let ghost vv = views(v@);
    let mut r: Vec<String> = Vec::new();
    let mut i: usize = 0;
    assert(vv.take(0) =~= Seq::<UpdateView>::empty());
    assert(texts(r@) =~= Seq::<Seq<char>>::empty());
    while i < v.len()
        invariant
            i <= v@.len(),
            vv == views(v@),
            texts(r@) == keys_of(vv.take(i as int), audit),
        decreases v@.len() - i,
    {
        assert(vv.take(i as int + 1).drop_last() =~= vv.take(i as int));
        assert(vv.take(i as int + 1).last() == v@[i as int]@);
        let ghost r0 = texts(r@);
        match &v[i].kind {
            StateUpdateKind::AuditLog(k) => {
                if audit {
                    r.push(k.clone());
                    assert(texts(r@) =~= r0.push(k@));
                }
            },
            StateUpdateKind::StorageUsage(k) => {
                if !audit {
                    r.push(k.clone());
                    assert(texts(r@) =~= r0.push(k@));
                }
            },
            _ => {},
        }
        i = i + 1;
    }
    assert(vv.take(i as int) =~= vv);
    r
}

/// The startup cache of one append-only collection of an applier.
pub open spec fn startup_cache(a: ApplierView, audit: bool) -> Option<Seq<UpdateView>> {
    match a {
        ApplierView::Opened { audit_logs, storage_usage_events, .. } => if audit {
            audit_logs
        } else {
            storage_usage_events
        },
        ApplierView::Unopened { .. } => None,
    }
}

/// The applier with the startup cache of one append-only collection closed.
pub open spec fn close_cache(a: ApplierView, audit: bool) -> ApplierView {
    match a {
        ApplierView::Opened { mode, audit_logs, storage_usage_events } => if audit {
            ApplierView::Opened { mode, audit_logs: None, storage_usage_events }
        } else {
            ApplierView::Opened { mode, audit_logs, storage_usage_events: None }
        },
        ApplierView::Unopened { .. } => a,
    }
}

/// What reading the keys of one append-only collection gives once caught up
/// with `l`: the startup cache's consolidated contents on first use, which
/// closes it, otherwise the rows of the log's snapshot.
pub open spec fn keys_outcome(h: HandleView, l: LogView, audit: bool) -> Result<
    (Seq<Seq<char>>, ApplierView),
    DurableCatalogError,
> {
    match startup_cache(h.applier, audit) {
        Some(s) => {
            let c = consolidation(s);
            if forall|i: int| 0 <= i < c.len() ==> #[trigger] c[i].diff == 1 {
                Ok((keys_of(apply_order(c), audit), close_cache(h.applier, audit)))
            } else {
                Err(DurableCatalogError::Corrupt(Violation::InvalidDiff))
            }
        },
        None => Ok((keys_of(snapshot_at(l, read_as_of(l)), audit), h.applier)),
    }
}

/// The length of a startup cache, zero when closed.
pub open spec fn cache_len(a: ApplierView, audit: bool) -> int {
    match startup_cache(a, audit) {
        Some(s) => s.len() as int,
        None => 0,
    }
}

/// Applying a batch adds at most one update per update of the batch to a
/// startup cache.
pub proof fn lemma_batch_grows_cache(a: ApplierView, e: crate::epoch::FenceableEpoch, s: Seq<UpdateView>, audit: bool)
    ensures
        crate::handle::apply_batch(a, e, s) is Ok ==> cache_len(crate::handle::apply_batch(a, e, s).unwrap().0, audit)
            <= cache_len(a, audit) + s.len(),
    decreases s.len(),
{
    if s.len() > 0 {
        lemma_batch_grows_cache(a, e, s.drop_last(), audit);
    }
}

/// Catching up with `l` adds at most as many updates to a startup cache as `l`
/// holds.
pub proof fn lemma_sync_grows_cache(h: HandleView, l: LogView, target: u64, audit: bool)
    ensures
        sync_outcome(h, l, target) is Ok ==> cache_len(sync_outcome(h, l, target).unwrap().applier, audit)
            <= cache_len(h.applier, audit) + l.updates.len(),
{
    let e = Seq::<UpdateView>::empty();
    assert(consolidation(e) =~= e);
    assert(apply_order(e) =~= e);
    lemma_batch_grows_cache(h.applier, h.epoch, e, audit);
    if !h.epoch.is_fenced() && h.upper < target {
        let b = crate::log::at_or_after(l.updates, h.upper);
        l.updates.lemma_filter_len(|u: UpdateView| u.ts >= h.upper);
        crate::consolidate::lemma_consolidation_len(b);
        crate::consolidate::lemma_apply_order(consolidation(b));
        lemma_batch_grows_cache(h.applier, h.epoch, apply_order(consolidation(b)), audit);
    }
}

impl PersistHandle {
    /// The length of one startup cache, zero when closed.
    pub open spec fn startup_len(&self, audit: bool) -> int {
        cache_len(self@.applier, audit)
    }

    fn take_keys(&mut self, log: &LogShard, audit: bool) -> (r: Result<Vec<String>, DurableCatalogError>)
        requires
            old(self).wf(),
            log.wf(),
            old(self).snapshot@.len() + log.updates@.len() < i64::MAX,
            old(self).startup_len(audit) + log.updates@.len() < i64::MAX,
        ensures
            final(self).wf(),
            match sync_outcome(old(self)@, log@, log.upper) {
                Err(x) => r == Err::<Vec<String>, DurableCatalogError>(x),
                Ok(h) => match keys_outcome(h, log@, audit) {
                    Err(x) => r == Err::<Vec<String>, DurableCatalogError>(x),
                    Ok((keys, a)) => r is Ok && texts(r.unwrap()@) == keys && final(self)@ == (
                    HandleView { applier: a, ..h }),
                },
            },
    {
        let ghost before = self.startup_len(audit);
        match self.sync_to_current_upper(log) {
            Ok(()) => {},
            Err(e) => {
                return Err(e);
            },
        }
        proof {
            lemma_sync_grows_cache(old(self)@, log@, log.upper, audit);
        }
        let taken = match &mut self.update_applier {
            UpdateApplier::Opened(state) => {
                if audit {
                    state.audit_logs.take()
                } else {
                    state.storage_usage_events.take()
                }
            },
            UpdateApplier::Unopened(_) => Ok(None),
        };
        match taken {
            Err(v) => Err(DurableCatalogError::Corrupt(v)),
            Ok(Some(c)) => Ok(collect_keys(&c, audit)),
            Ok(None) => {
                let upper = log.fetch_recent_upper();
                let as_of = if log.since >= upper {
                    log.since
                } else {
                    upper - 1
                };
                let rows = log.snapshot_and_fetch(as_of);
                Ok(collect_keys(&rows, audit))
            },
        }
    }
}

impl PersistHandle {
    /// Catches up with the log and returns the audit-log keys: the startup
    /// cache's consolidated contents on first use, which closes it, else the
    /// audit rows of the log's snapshot.
    pub fn get_audit_log_keys(&mut self, log: &LogShard) -> (r: Result<Vec<String>, DurableCatalogError>)
        requires
            old(self).wf(),
            log.wf(),
            old(self).snapshot@.len() + log.updates@.len() < i64::MAX,
            old(self).startup_len(true) + log.updates@.len() < i64::MAX,
        ensures
            final(self).wf(),
            match sync_outcome(old(self)@, log@, log.upper) {
                Err(x) => r == Err::<Vec<String>, DurableCatalogError>(x),
                Ok(h) => match keys_outcome(h, log@, true) {
                    Err(x) => r == Err::<Vec<String>, DurableCatalogError>(x),
                    Ok((keys, a)) => r is Ok && texts(r.unwrap()@) == keys && final(self)@ == (
                    HandleView { applier: a, ..h }),
                },
            },
    {
        self.take_keys(log, true)
    }

    /// Catches up with the log and returns the storage-usage keys: the startup
    /// cache's consolidated contents on first use, which closes it, else the
    /// storage-usage rows of the log's snapshot.
    pub fn get_storage_usage_keys(&mut self, log: &LogShard) -> (r: Result<Vec<String>, DurableCatalogError>)
        requires
            old(self).wf(),
            log.wf(),
            old(self).snapshot@.len() + log.updates@.len() < i64::MAX,
            old(self).startup_len(false) + log.updates@.len() < i64::MAX,
        ensures
            final(self).wf(),
            match sync_outcome(old(self)@, log@, log.upper) {
                Err(x) => r == Err::<Vec<String>, DurableCatalogError>(x),
                Ok(h) => match keys_outcome(h, log@, false) {
                    Err(x) => r == Err::<Vec<String>, DurableCatalogError>(x),
                    Ok((keys, a)) => r is Ok && texts(r.unwrap()@) == keys && final(self)@ == (
                    HandleView { applier: a, ..h }),
                },
            },
    {
        self.take_keys(log, false)
    }

    /// Removes the storage-usage events `expired`: commits their retractions,
    /// or, in a read-only catalog, only confirms leadership.
    pub fn prune_storage_usage(&mut self, log: &mut LogShard, expired: Vec<String>) -> (r: Result<
        (),
        DurableCatalogError,
    >)
        requires
            old(self).wf(),
            old(log).wf(),
            old(self).upper < u64::MAX,
            old(self).snapshot@.len() + old(log).updates@.len() + expired@.len() < i64::MAX,
        ensures
            final(self).wf(),
            final(log).wf(),
            match old(self)@.applier {
                ApplierView::Opened { mode: Mode::Readonly, .. } => {
                    &&& final(log)@ == old(log)@
                    &&& final(self)@ == old(self)@
                    &&& r is Ok
                },
                ApplierView::Opened { mode: Mode::Savepoint, .. } => {
                    &&& final(log)@ == old(log)@
                    &&& match outcome(old(self)@, stamped(usage_retractions(texts(expired@)), old(self).upper)) {
                        Ok(h) => r is Ok && final(self)@ == h,
                        Err(x) => r == Err::<(), DurableCatalogError>(x),
                    }
                },
                _ => match append_outcome(
                    old(log)@,
                    stamped(usage_retractions(texts(expired@)), old(self).upper),
                    old(self).upper,
                    (old(self).upper + 1) as u64,
                    old(self).version,
                ) {
                    Err(m) => r == Err::<(), DurableCatalogError>(
                        DurableCatalogError::Fence(FenceError::Upper { expected: m.expected, current: m.current }),
                    ),
                    Ok(_) => match sync_outcome(old(self)@, final(log)@, (old(self).upper + 1) as u64) {
                        Ok(h) => r is Ok && final(self)@ == h,
                        Err(x) => r == Err::<(), DurableCatalogError>(x),
                    },
                },
            },
    {
        if self.is_read_only() {
            return Ok(());
        }
        let ghost keys = texts(expired@);
        let mut updates: Vec<(StateUpdateKind, i64)> = Vec::new();
        let mut rest = expired;
        let n = rest.len();
        let mut i: usize = 0;
        assert(pair_views(updates@) =~= usage_retractions(keys.take(0)));
        while i < n
            invariant
                n == keys.len(),
                i <= n,
                texts(rest@) == keys.skip(i as int),
                rest@.len() == n - i,
                pair_views(updates@) == usage_retractions(keys.take(i as int)),
                updates@.len() == i,
                forall|k: int| 0 <= k < updates@.len() ==> #[trigger] updates@[k].1 == -1,
            decreases n - i,
        {
            let ghost r0 = rest@;
            let key = rest.remove(0);
            assert(key@ == texts(r0)[0]);
            assert(rest@ == r0.remove(0));
            assert(texts(rest@) =~= texts(r0).remove(0));
            assert(texts(rest@) =~= keys.skip(i as int + 1));
            let ghost u0 = pair_views(updates@);
            updates.push((StateUpdateKind::StorageUsage(key), -1i64));
            assert(keys.take(i as int + 1) =~= keys.take(i as int).push(keys[i as int]));
            assert(pair_views(updates@) =~= u0.push((KindView::StorageUsage(keys[i as int]), -1int)));
            assert(usage_retractions(keys.take(i as int + 1)) =~= usage_retractions(keys.take(i as int)).push(
                (KindView::StorageUsage(keys[i as int]), -1int),
            ));
            i = i + 1;
        }
        assert(keys.take(n as int) =~= keys);
        self.commit_transaction(log, updates)
    }
}

/// Retractions of the storage-usage events `keys`.
pub open spec fn usage_retractions(keys: Seq<Seq<char>>) -> Seq<(KindView, int)> {
    keys.map_values(|k: Seq<char>| (KindView::StorageUsage(k), -1int))
}

/// The position before which storage-usage events expire: none without a
/// retention period, else `boot_ts` less the period, at least zero.
pub open spec fn cutoff_of(retention_ms: Option<u64>, boot_ts: u64) -> u128 {
    match retention_ms {
        None => 0,
        Some(p) => if p >= boot_ts {
            0
        } else {
            (boot_ts - p) as u128
        },
    }
}

/// The position before which storage-usage events expire.
pub fn storage_usage_cutoff(retention_ms: Option<u64>, boot_ts: u64) -> (r: u128)
    ensures
        r == cutoff_of(retention_ms, boot_ts),
{
    match retention_ms {
        None => 0,
        Some(p) => if p >= boot_ts {
            0
        } else {
            (boot_ts - p) as u128
        },
    }
}

/// Keeps the storage-usage events at or after `cutoff`; the others expire
/// when a retention period is set. An event is its key and its timestamp.
pub fn split_storage_usage(events: Vec<(String, u64)>, cutoff: u128, retention_set: bool) -> (r: (
    Vec<(String, u64)>,
    Vec<(String, u64)>,
))
    ensures
        r.0@ == events@.filter(|e: (String, u64)| e.1 as u128 >= cutoff),
        r.1@ == if retention_set {
            events@.filter(|e: (String, u64)| (e.1 as u128) < cutoff)
        } else {
            Seq::empty()
        },
{
    let ghost s = events@;
    let ghost keep = |e: (String, u64)| e.1 as u128 >= cutoff;
    let ghost drop = |e: (String, u64)| (e.1 as u128) < cutoff;
    let mut kept: Vec<(String, u64)> = Vec::new();
    let mut expired: Vec<(String, u64)> = Vec::new();
    let mut rest = events;
    let n = rest.len();
    let mut i: usize = 0;
    assert(s.take(0) =~= Seq::<(String, u64)>::empty());
    proof {
        reveal(Seq::filter);
    }
    while i < n
        invariant
            n == s.len(),
            i <= n,
            rest@ == s.skip(i as int),
            keep == (|e: (String, u64)| e.1 as u128 >= cutoff),
            drop == (|e: (String, u64)| (e.1 as u128) < cutoff),
            kept@ == s.take(i as int).filter(keep),
            expired@ == if retention_set {
                s.take(i as int).filter(drop)
            } else {
                Seq::empty()
            },
        decreases n - i,
    {
        let e = rest.remove(0);
        assert(e == s[i as int]);
        assert(rest@ =~= s.skip(i as int + 1));
        proof {
            assert(s.take(i as int + 1) =~= s.take(i as int).push(s[i as int]));
            s.take(i as int).lemma_filter_push(s[i as int], keep);
            s.take(i as int).lemma_filter_push(s[i as int], drop);
        }
        if e.1 as u128 >= cutoff {
            kept.push(e);
        } else if retention_set {
            expired.push(e);
        }
        i = i + 1;
    }
    assert(s.take(n as int) =~= s);
    (kept, expired)
}

/// An event: its key, its timestamp and its sortable id.
pub type Event = (String, u64, u64);

/// Where stable insertion by id places `e` in `acc`: after the last event
/// whose id is not greater.
pub open spec fn id_insert_pos(acc: Seq<Event>, e: Event) -> int
    decreases acc.len(),
{
    if acc.len() == 0 {
        0
    } else if acc.last().2 <= e.2 {
        acc.len() as int
    } else {
        id_insert_pos(acc.drop_last(), e)
    }
}

/// `s` sorted stably by sortable id.
pub open spec fn sort_by_id(s: Seq<Event>) -> Seq<Event>
    decreases s.len(),
{
    if s.len() == 0 {
        Seq::empty()
    } else {
        let a = sort_by_id(s.drop_last());
        a.insert(id_insert_pos(a, s.last()), s.last())
    }
}

/// The ids of `s` never decrease.
pub open spec fn sorted_by_id(s: Seq<Event>) -> bool {
    forall|i: int, j: int| 0 <= i < j < s.len() ==> s[i].2 <= s[j].2
}

/// The events of `s` at or after `cutoff`, in order.
pub open spec fn kept_events(s: Seq<Event>, cutoff: u128) -> Seq<Event> {
    s.filter(|e: Event| e.1 as u128 >= cutoff)
}

/// The keys of `s`.
pub open spec fn event_keys(s: Seq<Event>) -> Seq<String> {
    s.map_values(|e: Event| e.0)
}

proof fn lemma_id_insert_pos(acc: Seq<Event>, e: Event)
    requires
        sorted_by_id(acc),
    ensures
        0 <= id_insert_pos(acc, e) <= acc.len(),
        forall|i: int| 0 <= i < id_insert_pos(acc, e) ==> #[trigger] acc[i].2 <= e.2,
        forall|i: int| id_insert_pos(acc, e) <= i < acc.len() ==> #[trigger] acc[i].2 > e.2,
    decreases acc.len(),
{
    if acc.len() > 0 {
        let d = acc.drop_last();
        assert(forall|i: int| 0 <= i < d.len() ==> d[i] == acc[i]);
        lemma_id_insert_pos(d, e);
    }
}

/// Sorting by id yields a sorted permutation.
pub proof fn lemma_sort_by_id(s: Seq<Event>)
    ensures
        sorted_by_id(sort_by_id(s)),
        sort_by_id(s).to_multiset() == s.to_multiset(),
        sort_by_id(s).len() == s.len(),
    decreases s.len(),
{
    if s.len() > 0 {
        let d = s.drop_last();
        let a = sort_by_id(d);
        let u = s.last();
        lemma_sort_by_id(d);
        lemma_id_insert_pos(a, u);
        let p = id_insert_pos(a, u);
        let r = a.insert(p, u);
        assert forall|i: int, j: int| 0 <= i < j < r.len() implies r[i].2 <= r[j].2 by {
            if j < p {
            } else if j == p {
            } else if i < p {
                assert(r[j] == a[j - 1]);
            } else if i == p {
                assert(r[j] == a[j - 1]);
            } else {
                assert(r[i] == a[i - 1] && r[j] == a[j - 1]);
            }
        }
        vstd::seq_lib::to_multiset_insert(a, p, u);
        assert(s =~= d.push(u));
        vstd::seq_lib::to_multiset_build(d, u);
        assert(sort_by_id(s) == r);
    } else {
        assert(sort_by_id(s) =~= s);
    }
}

/// The keys of the storage-usage events at or after `cutoff`, sorted stably by
/// sortable id: a sorted permutation of the kept events.
pub fn kept_storage_usage(events: Vec<Event>, cutoff: u128) -> (r: Vec<String>)
    ensures
        r@ == event_keys(sort_by_id(kept_events(events@, cutoff))),
        sorted_by_id(sort_by_id(kept_events(events@, cutoff))),
        sort_by_id(kept_events(events@, cutoff)).to_multiset() == kept_events(events@, cutoff).to_multiset(),
{
    let ghost s = events@;
    let ghost keep = |e: Event| e.1 as u128 >= cutoff;
    let mut rest = events;
    let mut acc: Vec<Event> = Vec::new();
    let n = rest.len();
    let mut i: usize = 0;
    assert(s.take(0) =~= Seq::<Event>::empty());
    proof {
        reveal(Seq::filter);
    }
    assert(acc@ =~= sort_by_id(s.take(0).filter(keep)));
    while i < n
        invariant
            n == s.len(),
            i <= n,
            rest@ == s.skip(i as int),
            keep == (|e: Event| e.1 as u128 >= cutoff),
            acc@ == sort_by_id(s.take(i as int).filter(keep)),
        decreases n - i,
    {
        let e = rest.remove(0);
        assert(e == s[i as int]);
        assert(rest@ =~= s.skip(i as int + 1));
        proof {
            assert(s.take(i as int + 1) =~= s.take(i as int).push(s[i as int]));
            s.take(i as int).lemma_filter_push(s[i as int], keep);
        }
        if e.1 as u128 >= cutoff {
            let ghost f = s.take(i as int).filter(keep);
            let mut j: usize = acc.len();
            let ghost a = acc@;
            assert(a.take(j as int) =~= a);
            while j > 0 && acc[j - 1].2 > e.2
                invariant
                    a == acc@,
                    j <= a.len(),
                    id_insert_pos(a, e) == id_insert_pos(a.take(j as int), e),
                decreases j,
            {
                assert(a.take(j as int).drop_last() =~= a.take(j - 1));
                assert(a.take(j as int).last() == a[j - 1]);
                j = j - 1;
            }
            assert(a.take(0) =~= Seq::<Event>::empty());
            assert(j > 0 ==> a.take(j as int).last() == a[j - 1]);
            assert(f.push(e).drop_last() =~= f);
            acc.insert(j, e);
        }
        i = i + 1;
    }
    assert(s.take(n as int) =~= s);
    proof {
        lemma_sort_by_id(s.filter(keep));
    }
    let ghost sorted = acc@;
    let mut keys: Vec<String> = Vec::new();
    let mut k: usize = 0;
    let m = acc.len();
    let mut src = acc;
    assert(keys@ =~= event_keys(sorted.take(0)));
    while k < m
        invariant
            m == sorted.len(),
            k <= m,
            src@ == sorted.skip(k as int),
            keys@ == event_keys(sorted.take(k as int)),
        decreases m - k,
    {
        let e = src.remove(0);
        assert(e == sorted[k as int]);
        assert(src@ =~= sorted.skip(k as int + 1));
        keys.push(e.0);
        assert(keys@ =~= event_keys(sorted.take(k as int + 1)));
        k = k + 1;
    }
    assert(sorted.take(m as int) =~= sorted);
    keys
}

/// The audit-event keys sorted stably by sortable id.
pub fn sort_audit_events(events: Vec<(String, u64)>) -> (r: Vec<String>)
    ensures
        r@ == event_keys(sort_by_id(events@.map_values(|e: (String, u64)| (e.0, 0u64, e.1)))),
{
    let ghost s = events@;
    let mut rest = events;
    let mut as_events: Vec<Event> = Vec::new();
    let n = rest.len();
    let mut i: usize = 0;
    while i < n
        invariant
            n == s.len(),
            i <= n,
            rest@ == s.skip(i as int),
            as_events@ == s.take(i as int).map_values(|e: (String, u64)| (e.0, 0u64, e.1)),
        decreases n - i,
    {
        let e = rest.remove(0);
        assert(e == s[i as int]);
        assert(rest@ =~= s.skip(i as int + 1));
        as_events.push((e.0, 0u64, e.1));
        assert(as_events@ =~= s.take(i as int + 1).map_values(|e: (String, u64)| (e.0, 0u64, e.1)));
        i = i + 1;
    }
    assert(s.take(n as int) =~= s);
    let ghost all = as_events@;
    assert(kept_events(all, 0) =~= all) by {
        lemma_keep_all(all);
    }
    kept_storage_usage(as_events, 0)
}

proof fn lemma_keep_all(s: Seq<Event>)
    ensures
        kept_events(s, 0) == s,
    decreases s.len(),
{
    reveal(Seq::filter);
    if s.len() > 0 {
        lemma_keep_all(s.drop_last());
        assert(s.drop_last().push(s.last()) =~= s);
    }
}

} // verus!

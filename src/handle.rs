use vstd::prelude::*;

use crate::applier::{applier_step, ApplierView, UpdateApplier};
use crate::consolidate::{
    apply_order, consolidate_updates, consolidation, is_consolidated, lemma_apply_order,
    lemma_consolidation_len, lemma_consolidation_uniform,
    restamp, restamp_updates, signed_unit_diffs, sort_for_apply, unit_diffs, sorted_for_apply,
    lemma_apply_order_consolidated, lemma_apply_order_elements,
};
use crate::epoch::FenceableEpoch;
use crate::error::{DurableCatalogError, FenceError, Version, Violation};
use crate::log::{append_outcome, at_or_after, LogShard, LogView};
use crate::snapshot::{materialize, replay, SnapshotView};
use crate::update::{
    clone_update, lemma_views_remove, views, KindView, StateUpdate, StateUpdateKind, UpdateView,
};

verus! {

/// The position the cache is stamped at: that of its last entry.
pub open spec fn cache_ts(s: Seq<UpdateView>) -> u64 {
    if s.len() == 0 {
        0
    } else {
        s.last().ts
    }
}

/// Re-stamps `s` at the position of its last entry, consolidates it and puts it
/// in application order: the cache holds the current state, not its history,
/// in an order that does not depend on the order of the input.
pub open spec fn recache(s: Seq<UpdateView>) -> Seq<UpdateView> {
    apply_order(consolidation(restamp(s, cache_ts(s))))
}

/// A consolidated cache: distinct entries, diffs of +1 or -1, one position,
/// in application order, and a replay that pairs every insertion and
/// retraction.
pub open spec fn cache_ok(s: Seq<UpdateView>) -> bool {
    &&& replay(SnapshotView::empty(), s) is Ok
    &&& is_consolidated(s)
    &&& sorted_for_apply(s)
    &&& signed_unit_diffs(s)
    &&& forall|i: int| 0 <= i < s.len() ==> #[trigger] s[i].ts == cache_ts(s)
}

/// Feeds the sorted, consolidated `s` through the applier in order: the next
/// applier and epoch, and the updates it forwards to the cache.
pub open spec fn apply_batch(a: ApplierView, e: FenceableEpoch, s: Seq<UpdateView>) -> Result<
    (ApplierView, FenceableEpoch, Seq<UpdateView>),
    DurableCatalogError,
>
    decreases s.len(),
{
    if s.len() == 0 {
        Ok((a, e, Seq::empty()))
    } else {
        match apply_batch(a, e, s.drop_last()) {
            Err(x) => Err(x),
            Ok((a2, e2, f)) => {
                let u = s.last();
                if u.diff != 1 && u.diff != -1 {
                    Err(DurableCatalogError::Corrupt(Violation::InvalidDiff))
                } else {
                    match applier_step(a2, e2, u) {
                        Err(x) => Err(x),
                        Ok(o) => Ok(
                            (
                                o.applier,
                                o.epoch,
                                if o.forwards {
                                    f.push(u)
                                } else {
                                    f
                                },
                            ),
                        ),
                    }
                }
            },
        }
    }
}

/// The mathematical value of a [`PersistHandle`].
pub struct HandleView {
    pub cache: Seq<UpdateView>,
    pub applier: ApplierView,
    pub upper: u64,
    pub epoch: FenceableEpoch,
    pub version: Version,
}

/// The handle after applying `updates`: consolidated, sorted into application
/// order, fed through the applier, and the forwarded ones cached.
pub open spec fn outcome(h: HandleView, updates: Seq<UpdateView>) -> Result<HandleView, DurableCatalogError> {
    if !unit_diffs(updates) {
        Err(DurableCatalogError::Corrupt(Violation::InvalidDiff))
    } else {
        match apply_batch(h.applier, h.epoch, apply_order(consolidation(updates))) {
            Err(x) => Err(x),
            Ok((a, e, fwd)) => {
                let c = recache(h.cache + fwd);
                if !signed_unit_diffs(c) {
                    Err(DurableCatalogError::Corrupt(Violation::InvalidDiff))
                } else {
                    match replay(SnapshotView::empty(), c) {
                        Err(v) => Err(DurableCatalogError::Corrupt(v)),
                        Ok(_) => Ok(HandleView { cache: c, applier: a, epoch: e, ..h }),
                    }
                }
            },
        }
    }
}

/// The handle after catching up with `l` through `target`.
pub open spec fn sync_outcome(h: HandleView, l: LogView, target: u64) -> Result<HandleView, DurableCatalogError> {
    if h.epoch.is_fenced() {
        Err(h.epoch.fence_error())
    } else if h.upper >= target {
        outcome(h, Seq::empty())
    } else {
        outcome(HandleView { upper: l.upper, ..h }, at_or_after(l.updates, h.upper))
    }
}

/// A handle on a catalog log shard: a cache of its consolidated contents, the
/// upper it has read through, and the epoch it holds.
pub struct PersistHandle {
    /// The consolidated contents of the log, all at one position.
    pub snapshot: Vec<StateUpdate>,
    /// Per-phase processing of each update.
    pub update_applier: UpdateApplier,
    /// The upper of the log as far as this handle has read.
    pub upper: u64,
    /// The epoch of the catalog, if one exists.
    pub epoch: FenceableEpoch,
    /// The version of the code that writes through this handle.
    pub version: Version,
}

impl View for PersistHandle {
    type V = HandleView;

    open spec fn view(&self) -> HandleView {
        HandleView {
            cache: views(self.snapshot@),
            applier: self.update_applier@,
            upper: self.upper,
            epoch: self.epoch,
            version: self.version,
        }
    }
}

impl PersistHandle {
    pub open spec fn wf(&self) -> bool {
        self.update_applier.wf() && cache_ok(views(self.snapshot@))
    }

    /// Applies `updates` to the cache.
    ///
    /// A diff outside {-1, 0, +1}, or a consolidated one outside {-1, +1}, is a
    /// violation; so is whatever the applier reports. On any error the cache is
    /// left as it was.
    pub fn apply_updates(&mut self, updates: Vec<StateUpdate>) -> (r: Result<(), DurableCatalogError>)
        requires
            old(self).wf(),
            old(self).snapshot@.len() + updates@.len() < i64::MAX,
        ensures
            final(self).wf(),
            final(self).upper == old(self).upper,
            final(self).version == old(self).version,
            final(self).snapshot@.len() <= old(self).snapshot@.len() + updates@.len(),
            old(self).epoch.is_fenced() ==> final(self).epoch == old(self).epoch,
            match r {
                Err(DurableCatalogError::Fence(FenceError::Epoch { current_epoch, fence_epoch })) => final(self).epoch
                    == (FenceableEpoch::Fenced { current_epoch, fence_epoch }),
                _ => true,
            },
            r is Err ==> views(final(self).snapshot@) == views(old(self).snapshot@) && final(self).upper
                == old(self).upper,
            match outcome(old(self)@, views(updates@)) {
                Ok(h) => r is Ok && final(self)@ == h,
                Err(x) => r == Err::<(), DurableCatalogError>(x),
            },
    {
        let ghost uv = views(updates@);
        let ghost h0 = self@;
        assert(h0 == old(self)@);
        if !all_unit_diffs(&updates) {
            return Err(DurableCatalogError::Corrupt(Violation::InvalidDiff));
        }
        let consolidated = consolidate_updates(updates);
        proof {
            lemma_consolidation_len(uv);
        }
        let sorted = sort_for_apply(consolidated);
        let ghost sv = views(sorted@);
        proof {
            lemma_apply_order(consolidation(uv));
        }
        let ghost a0 = self.update_applier@;
        let ghost e0 = self.epoch;
        let mut fwd: Vec<StateUpdate> = Vec::new();
        let mut rest = sorted;
        let n = rest.len();
        let mut i: usize = 0;
        assert(sv.take(0) =~= Seq::<UpdateView>::empty());
        assert(views(fwd@) =~= Seq::<UpdateView>::empty());
        while i < n
            invariant
                n == sv.len(),
                i <= n,
                views(rest@) == sv.skip(i as int),
                rest@.len() == n - i,
                self.update_applier.wf(),
                cache_ok(views(self.snapshot@)),
                views(self.snapshot@) == h0.cache,
                h0 == old(self)@,
                uv == views(updates@),
                self.upper == h0.upper,
                self.version == h0.version,
                e0 == h0.epoch,
                a0 == h0.applier,
                e0.is_fenced() ==> self.epoch == e0,
                apply_batch(a0, e0, sv.take(i as int)) == Ok::<
                    (ApplierView, FenceableEpoch, Seq<UpdateView>),
                    DurableCatalogError,
                >((self.update_applier@, self.epoch, views(fwd@))),
                fwd@.len() <= i,
                signed_unit_diffs(views(fwd@)),
                unit_diffs(uv),
                sv == apply_order(consolidation(uv)),
            decreases n - i,
        {
            let ghost r0 = rest@;
            let u = rest.remove(0);
            proof {
                lemma_views_remove(r0, 0);
            }
            assert(u == r0[0]);
            assert(u@ == views(r0)[0]);
            assert(views(r0)[0] == sv.skip(i as int)[0]);
            assert(u@ == sv[i as int]);
            assert(views(rest@) =~= sv.skip(i as int + 1));
            assert(sv.take(i as int + 1).drop_last() =~= sv.take(i as int));
            assert(sv.take(i as int + 1).last() == u@);
            if u.diff != 1 && u.diff != -1 {
                assert(apply_batch(a0, e0, sv.take(i as int + 1)) == Err::<
                    (ApplierView, FenceableEpoch, Seq<UpdateView>),
                    DurableCatalogError,
                >(DurableCatalogError::Corrupt(Violation::InvalidDiff)));
                proof {
                    lemma_batch_stops(a0, e0, sv, i as int + 1);
                }
                assert(outcome(h0, uv) == Err::<HandleView, DurableCatalogError>(DurableCatalogError::Corrupt(Violation::InvalidDiff)));
                return Err(DurableCatalogError::Corrupt(Violation::InvalidDiff));
            }
            let step = self.update_applier.apply_update(u, &mut self.epoch);
            match step {
                Ok(Some(v)) => {
                    let ghost f0 = views(fwd@);
                    fwd.push(v);
                    assert(views(fwd@) =~= f0.push(u@));
                },
                Ok(None) => {},
                Err(x) => {
                    assert(apply_batch(a0, e0, sv.take(i as int + 1)) == Err::<
                        (ApplierView, FenceableEpoch, Seq<UpdateView>),
                        DurableCatalogError,
                    >(x));
                    proof {
                        lemma_batch_stops(a0, e0, sv, i as int + 1);
                    }
                    assert(outcome(h0, uv) == Err::<HandleView, DurableCatalogError>(x));
                    return Err(x);
                },
            }
            i = i + 1;
        }
        assert(sv.take(n as int) =~= sv);
        let mut all = clone_updates(&self.snapshot);
        let ghost cache0 = views(all@);
        let ghost fv = views(fwd@);
        let mut f = fwd;
        let mut m: usize = 0;
        let fl = f.len();
        while m < fl
            invariant
                fl == fv.len(),
                m <= fl,
                views(f@) == fv.skip(m as int),
                f@.len() == fl - m,
                views(all@) == cache0 + fv.take(m as int),
            decreases fl - m,
        {
            let ghost f0 = f@;
            let u = f.remove(0);
            proof {
                lemma_views_remove(f0, 0);
            }
            assert(u@ == views(f0)[0]);
            assert(views(f0)[0] == fv.skip(m as int)[0]);
            assert(views(f@) =~= fv.skip(m as int + 1));
            let ghost a1 = views(all@);
            all.push(u);
            assert(views(all@) =~= a1.push(fv[m as int]));
            assert(fv.take(m as int + 1) =~= fv.take(m as int).push(fv[m as int]));
            assert(views(all@) =~= cache0 + fv.take(m as int + 1));
            m = m + 1;
        }
        assert(fv.take(fl as int) =~= fv);
        let ghost joined = views(all@);
        assert(joined == h0.cache + fv);
        let ts: u64 = if all.len() == 0 {
            0
        } else {
            all[all.len() - 1].ts
        };
        assert(ts == cache_ts(joined));
        let stamped = restamp_updates(all, ts);
        assert(unit_diffs(views(stamped@))) by {
            assert forall|q: int| 0 <= q < views(stamped@).len() implies -1 <= #[trigger] views(
                stamped@,
            )[q].diff <= 1 by {
                assert(views(stamped@)[q].diff == joined[q].diff);
                if q < cache0.len() {
                    assert(joined[q] == cache0[q]);
                } else {
                    assert(joined[q] == fv[q - cache0.len()]);
                }
            }
        }
        let consolidated_cache = consolidate_updates(stamped);
        let cache = sort_for_apply(consolidated_cache);
        if !all_signed_unit_diffs(&cache) {
            return Err(DurableCatalogError::Corrupt(Violation::InvalidDiff));
        }
        match materialize(&cache) {
            Ok(_) => {},
            Err(v) => {
                return Err(DurableCatalogError::Corrupt(v));
            },
        }
        proof {
            let cc = consolidation(restamp(joined, ts));
            lemma_consolidation_len(restamp(joined, ts));
            lemma_consolidation_uniform(restamp(joined, ts), ts);
            lemma_apply_order(cc);
            lemma_apply_order_consolidated(cc);
            lemma_apply_order_elements(cc);
            let c = views(cache@);
            assert forall|k: int| 0 <= k < c.len() implies #[trigger] c[k].ts == ts by {
                assert(cc.contains(c[k]));
            }
            if c.len() > 0 {
                assert(c[c.len() - 1].ts == ts);
            }
            assert(cache_ts(c) == ts || c.len() == 0);
        }
        self.snapshot = cache;
        Ok(())
    }

    /// Reads the log through `target` and applies what it read.
    ///
    /// Fails at once with the fence error if this handle has been fenced.
    pub fn sync(&mut self, log: &LogShard, target: u64) -> (r: Result<(), DurableCatalogError>)
        requires
            old(self).wf(),
            log.wf(),
            target <= log.upper,
            old(self).snapshot@.len() + log.updates@.len() < i64::MAX,
        ensures
            final(self).wf(),
            final(self).version == old(self).version,
            final(self).snapshot@.len() <= old(self).snapshot@.len() + log.updates@.len(),
            old(self).epoch.is_fenced() ==> final(self).epoch == old(self).epoch,
            match r {
                Err(DurableCatalogError::Fence(FenceError::Epoch { current_epoch, fence_epoch })) => final(self).epoch
                    == (FenceableEpoch::Fenced { current_epoch, fence_epoch }),
                _ => true,
            },
            r is Err ==> views(final(self).snapshot@) == views(old(self).snapshot@) && final(self).upper
                == old(self).upper,
            match sync_outcome(old(self)@, log@, target) {
                Ok(h) => r is Ok && final(self)@ == h,
                Err(x) => r == Err::<(), DurableCatalogError>(x),
            },
    {
        match self.epoch.validate() {
            Ok(_) => {},
            Err(e) => {
                return Err(e);
            },
        }
        if self.upper >= target {
            let none: Vec<StateUpdate> = Vec::new();
            assert(views(none@) =~= Seq::<UpdateView>::empty());
            return self.apply_updates(none);
        }
        let updates = log.listen(self.upper);
        let r = self.apply_updates(updates);
        if r.is_ok() {
            self.upper = log.fetch_recent_upper();
        }
        r
    }

    /// Reads the log through its current upper and applies what it read.
    pub fn sync_to_current_upper(&mut self, log: &LogShard) -> (r: Result<(), DurableCatalogError>)
        requires
            old(self).wf(),
            log.wf(),
            old(self).snapshot@.len() + log.updates@.len() < i64::MAX,
        ensures
            final(self).wf(),
            final(self).version == old(self).version,
            final(self).snapshot@.len() <= old(self).snapshot@.len() + log.updates@.len(),
            old(self).epoch.is_fenced() ==> final(self).epoch == old(self).epoch,
            match r {
                Err(DurableCatalogError::Fence(FenceError::Epoch { current_epoch, fence_epoch })) => final(self).epoch
                    == (FenceableEpoch::Fenced { current_epoch, fence_epoch }),
                _ => true,
            },
            r is Err ==> views(final(self).snapshot@) == views(old(self).snapshot@) && final(self).upper
                == old(self).upper,
            match sync_outcome(old(self)@, log@, log.upper) {
                Ok(h) => r is Ok && final(self)@ == h,
                Err(x) => r == Err::<(), DurableCatalogError>(x),
            },
    {
        let upper = log.fetch_recent_upper();
        self.sync(log, upper)
    }

    /// Appends `updates` at this handle's upper, if and only if that is still
    /// the log's upper, then keeps one position below the new upper readable
    /// and reads through the new upper.
    ///
    /// An upper that moved fails with a fence error and changes nothing; this
    /// path never retries.
    pub fn compare_and_append(&mut self, log: &mut LogShard, updates: Vec<(StateUpdateKind, i64)>) -> (r:
        Result<(), DurableCatalogError>)
        requires
            old(self).wf(),
            old(log).wf(),
            old(self).upper < u64::MAX,
            forall|i: int| 0 <= i < updates@.len() ==> (#[trigger] updates@[i].1 == 1 || updates@[i].1 == -1),
            old(self).snapshot@.len() + old(log).updates@.len() + updates@.len() < i64::MAX,
        ensures
            final(self).wf(),
            final(log).wf(),
            final(self).version == old(self).version,
            final(self).snapshot@.len() <= old(self).snapshot@.len() + final(log).updates@.len(),
            final(log).updates@.len() <= old(log).updates@.len() + updates@.len(),
            old(self).epoch.is_fenced() ==> final(self).epoch == old(self).epoch,
            match append_outcome(
                old(log)@,
                stamped(pair_views(updates@), old(self).upper),
                old(self).upper,
                (old(self).upper + 1) as u64,
                old(self).version,
            ) {
                Err(m) => r == Err::<(), DurableCatalogError>(
                    DurableCatalogError::Fence(FenceError::Upper { expected: m.expected, current: m.current }),
                ) && final(log)@ == old(log)@ && final(self)@ == old(self)@,
                Ok(l) => {
                    &&& final(log)@ == (LogView {
                        since: if l.since < old(self).upper {
                            old(self).upper
                        } else {
                            l.since
                        },
                        ..l
                    })
                    &&& match sync_outcome(old(self)@, final(log)@, (old(self).upper + 1) as u64) {
                        Ok(h) => r is Ok && final(self)@ == h,
                        Err(x) => r == Err::<(), DurableCatalogError>(x),
                    }
                },
            },
    {
        let ts = self.upper;
        let batch = stamp(updates, ts);
        let next_upper = ts + 1;
        match log.compare_and_append(batch, ts, next_upper, self.version) {
            Ok(()) => {},
            Err(m) => {
                return Err(
                    DurableCatalogError::Fence(FenceError::Upper { expected: m.expected, current: m.current }),
                );
            },
        }
        log.downgrade_since(next_upper - 1);
        self.sync(log, next_upper)
    }
}

/// The views of payload/diff pairs.
pub open spec fn pair_views(updates: Seq<(StateUpdateKind, i64)>) -> Seq<(KindView, int)> {
    updates.map_values(|p: (StateUpdateKind, i64)| (p.0@, p.1 as int))
}

/// `updates` stamped at position `ts`.
pub open spec fn stamped(updates: Seq<(KindView, int)>, ts: u64) -> Seq<UpdateView> {
    updates.map_values(|p: (KindView, int)| UpdateView { kind: p.0, ts, diff: p.1 })
}

/// Stamps every update of `updates` at position `ts`.
pub fn stamp(updates: Vec<(StateUpdateKind, i64)>, ts: u64) -> (r: Vec<StateUpdate>)
    ensures
        views(r@) == stamped(pair_views(updates@), ts),
        r@.len() == updates@.len(),
{
    let ghost s = updates@;
    let ghost ps = pair_views(s);
    let mut rest = updates;
    let mut acc: Vec<StateUpdate> = Vec::new();
    let n = rest.len();
    let mut i: usize = 0;
    assert(views(acc@) =~= stamped(ps.take(0), ts));
    while i < n
        invariant
            n == s.len(),
            i <= n,
            rest@ == s.skip(i as int),
            views(acc@) == stamped(ps.take(i as int), ts),
            ps == pair_views(s),
            acc@.len() == i,
        decreases n - i,
    {
        let (kind, diff) = rest.remove(0);
        assert(rest@ =~= s.skip(i as int + 1));
        let ghost a0 = views(acc@);
        acc.push(StateUpdate { kind, ts, diff });
        assert(ps.take(i as int + 1) =~= ps.take(i as int).push(ps[i as int]));
        assert(views(acc@) =~= a0.push(UpdateView { kind: s[i as int].0@, ts, diff: s[i as int].1 as int }));
        assert(stamped(ps.take(i as int + 1), ts) =~= stamped(ps.take(i as int), ts).push(
            UpdateView { kind: s[i as int].0@, ts, diff: s[i as int].1 as int },
        ));
        i = i + 1;
    }
    assert(ps.take(n as int) =~= ps);
    acc
}

/// Whether every diff of `v` is -1, 0 or +1.
pub fn all_unit_diffs(v: &Vec<StateUpdate>) -> (r: bool)
    ensures
        r == unit_diffs(views(v@)),
{
    let ghost vv = views(v@);
    let mut k: usize = 0;
    while k < v.len()
        invariant
            k <= v@.len(),
            vv == views(v@),
            forall|m: int| 0 <= m < k ==> -1 <= #[trigger] vv[m].diff <= 1,
        decreases v@.len() - k,
    {
        assert(vv[k as int] == v@[k as int]@);
        assert(vv[k as int].diff == v@[k as int].diff as int);
        if v[k].diff < -1 || v[k].diff > 1 {
            return false;
        }
        k = k + 1;
    }
    true
}

/// Whether every diff of `v` is exactly -1 or +1.
pub fn all_signed_unit_diffs(v: &Vec<StateUpdate>) -> (r: bool)
    ensures
        r == signed_unit_diffs(views(v@)),
{
    let ghost vv = views(v@);
    let mut k: usize = 0;
    while k < v.len()
        invariant
            k <= v@.len(),
            vv == views(v@),
            forall|m: int| 0 <= m < k ==> (#[trigger] vv[m].diff == 1 || vv[m].diff == -1),
        decreases v@.len() - k,
    {
        assert(vv[k as int] == v@[k as int]@);
        assert(vv[k as int].diff == v@[k as int].diff as int);
        if v[k].diff != 1 && v[k].diff != -1 {
            return false;
        }
        k = k + 1;
    }
    true
}

/// Copies of the updates of `v`.
pub fn clone_updates(v: &Vec<StateUpdate>) -> (r: Vec<StateUpdate>)
    ensures
        views(r@) == views(v@),
{
    let mut all: Vec<StateUpdate> = Vec::new();
    let mut j: usize = 0;
    assert(views(all@) =~= views(v@).take(0));
    while j < v.len()
        invariant
            j <= v@.len(),
            views(all@) == views(v@).take(j as int),
        decreases v@.len() - j,
    {
        let ghost a1 = views(all@);
        all.push(clone_update(&v[j]));
        assert(views(all@) =~= a1.push(v@[j as int]@));
        assert(views(v@).take(j as int + 1) =~= views(v@).take(j as int).push(v@[j as int]@));
        j = j + 1;
    }
    assert(views(v@).take(j as int) =~= views(v@));
    all
}

/// Once a batch fails on a prefix, it fails with the same error on the whole.
pub proof fn lemma_batch_stops(a: ApplierView, e: FenceableEpoch, s: Seq<UpdateView>, n: int)
    requires
        0 <= n <= s.len(),
        apply_batch(a, e, s.take(n)) is Err,
    ensures
        apply_batch(a, e, s) == apply_batch(a, e, s.take(n)),
    decreases s.len() - n,
{
    if n < s.len() {
        assert(s.take(n + 1).drop_last() =~= s.take(n));
        lemma_batch_stops(a, e, s, n + 1);
    } else {
        assert(s.take(n) =~= s);
    }
}

} // verus!

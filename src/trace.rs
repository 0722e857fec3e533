use vstd::prelude::*;

use crate::catalog::initialized;
use crate::error::{DurableCatalogError, Violation};
use crate::handle::{clone_updates, sync_outcome, PersistHandle};
use crate::log::LogShard;
use crate::update::{clone_update, lemma_views_remove, views, CollectionType, KindView, StateUpdate, StateUpdateKind, UpdateView};

verus! {

pub open spec fn is_config(u: UpdateView) -> bool {
    u.kind is Config
}

pub open spec fn is_audit_log(u: UpdateView) -> bool {
    u.kind is AuditLog
}

pub open spec fn is_storage_usage(u: UpdateView) -> bool {
    u.kind is StorageUsage
}

pub open spec fn is_entry(u: UpdateView) -> bool {
    u.kind is Entry
}

pub open spec fn is_epoch(u: UpdateView) -> bool {
    u.kind is Epoch
}

/// Every diff of `s` is +1.
pub open spec fn all_inserted(s: Seq<UpdateView>) -> bool {
    forall|i: int| 0 <= i < s.len() ==> #[trigger] s[i].diff == 1
}

/// Whether `t` splits `s` by collection.
pub open spec fn splits(t: Trace, s: Seq<UpdateView>) -> bool {
    &&& views(t.configs@) == s.filter(|u: UpdateView| is_config(u))
    &&& views(t.audit_log@) == s.filter(|u: UpdateView| is_audit_log(u))
    &&& views(t.storage_usage@) == s.filter(|u: UpdateView| is_storage_usage(u))
    &&& views(t.entries@) == s.filter(|u: UpdateView| is_entry(u))
    &&& views(t.epochs@) == s.filter(|u: UpdateView| is_epoch(u))
}

/// The updates of one collection of `s`, in order.
pub open spec fn in_collection(s: Seq<UpdateView>, c: CollectionType) -> Seq<UpdateView> {
    s.filter(|u: UpdateView| u.kind matches KindView::Entry(c2, _, _) && c2 == c)
}

/// The history of the catalog split by collection; the epoch markers are
/// kept apart, each at its position.
pub struct Trace {
    pub configs: Vec<StateUpdate>,
    pub audit_log: Vec<StateUpdate>,
    pub storage_usage: Vec<StateUpdate>,
    pub entries: Vec<StateUpdate>,
    pub epochs: Vec<StateUpdate>,
}

impl Trace {
    /// Splits `snapshot` by collection, keeping the order of each, and keeps
    /// the epoch markers apart.
    pub fn from_snapshot(snapshot: Vec<StateUpdate>) -> (r: Trace)
        ensures
            splits(r, views(snapshot@)),
    {
        let ghost s = views(snapshot@);
        let ghost is_cfg = |u: UpdateView| is_config(u);
        let ghost is_audit = |u: UpdateView| is_audit_log(u);
        let ghost is_usage = |u: UpdateView| is_storage_usage(u);
        let ghost is_kv = |u: UpdateView| is_entry(u);
        let ghost is_ep = |u: UpdateView| is_epoch(u);
        let mut trace = Trace {
            configs: Vec::new(),
            audit_log: Vec::new(),
            storage_usage: Vec::new(),
            entries: Vec::new(),
            epochs: Vec::new(),
        };
        let mut rest = snapshot;
        let n = rest.len();
        let mut i: usize = 0;
        assert(s.take(0) =~= Seq::<UpdateView>::empty());
        proof {
            reveal(Seq::filter);
        }
        assert(views(trace.configs@) =~= Seq::<UpdateView>::empty());
        assert(views(trace.audit_log@) =~= Seq::<UpdateView>::empty());
        assert(views(trace.storage_usage@) =~= Seq::<UpdateView>::empty());
        assert(views(trace.entries@) =~= Seq::<UpdateView>::empty());
        assert(views(trace.epochs@) =~= Seq::<UpdateView>::empty());
        while i < n
            invariant
                n == s.len(),
                i <= n,
                views(rest@) == s.skip(i as int),
                rest@.len() == n - i,
                is_cfg == (|u: UpdateView| is_config(u)),
                is_audit == (|u: UpdateView| is_audit_log(u)),
                is_usage == (|u: UpdateView| is_storage_usage(u)),
                is_kv == (|u: UpdateView| is_entry(u)),
                views(trace.configs@) == s.take(i as int).filter(is_cfg),
                views(trace.audit_log@) == s.take(i as int).filter(is_audit),
                views(trace.storage_usage@) == s.take(i as int).filter(is_usage),
                views(trace.entries@) == s.take(i as int).filter(is_kv),
                is_ep == (|u: UpdateView| is_epoch(u)),
                views(trace.epochs@) == s.take(i as int).filter(is_ep),
            decreases n - i,
        {
            let ghost r0 = rest@;
            let u = rest.remove(0);
            proof {
                lemma_views_remove(r0, 0);
            }
            assert(u@ == views(r0)[0]);
            assert(views(r0)[0] == s.skip(i as int)[0]);
            assert(views(rest@) =~= s.skip(i as int + 1));
            proof {
                assert(s.take(i as int + 1) =~= s.take(i as int).push(s[i as int]));
                s.take(i as int).lemma_filter_push(s[i as int], is_cfg);
                s.take(i as int).lemma_filter_push(s[i as int], is_audit);
                s.take(i as int).lemma_filter_push(s[i as int], is_usage);
                s.take(i as int).lemma_filter_push(s[i as int], is_kv);
                s.take(i as int).lemma_filter_push(s[i as int], is_ep);
            }
            let class: u8 = match &u.kind {
                StateUpdateKind::Config(_, _) => 0,
                StateUpdateKind::AuditLog(_) => 1,
                StateUpdateKind::StorageUsage(_) => 2,
                StateUpdateKind::Entry(_, _, _) => 3,
                StateUpdateKind::Epoch(_) => 4,
            };
            if class == 0 {
                let ghost t0 = views(trace.configs@);
                trace.configs.push(u);
                assert(views(trace.configs@) =~= t0.push(s[i as int]));
            } else if class == 1 {
                let ghost t0 = views(trace.audit_log@);
                trace.audit_log.push(u);
                assert(views(trace.audit_log@) =~= t0.push(s[i as int]));
            } else if class == 2 {
                let ghost t0 = views(trace.storage_usage@);
                trace.storage_usage.push(u);
                assert(views(trace.storage_usage@) =~= t0.push(s[i as int]));
            } else if class == 3 {
                let ghost t0 = views(trace.entries@);
                trace.entries.push(u);
                assert(views(trace.entries@) =~= t0.push(s[i as int]));
            } else {
                let ghost t0 = views(trace.epochs@);
                trace.epochs.push(u);
                assert(views(trace.epochs@) =~= t0.push(s[i as int]));
            }
            i = i + 1;
        }
        assert(s.take(n as int) =~= s);
        trace
    }

    /// The updates of collection `c`, in order.
    pub fn collection_trace(&self, c: CollectionType) -> (r: Vec<StateUpdate>)
        ensures
            views(r@) == in_collection(views(self.entries@), c),
    {
        let ghost s = views(self.entries@);
        let ghost p = |u: UpdateView| u.kind matches KindView::Entry(c2, _, _) && c2 == c;
        let mut r: Vec<StateUpdate> = Vec::new();
        let mut i: usize = 0;
        assert(s.take(0) =~= Seq::<UpdateView>::empty());
        proof {
            reveal(Seq::filter);
        }
        assert(views(r@) =~= Seq::<UpdateView>::empty());
        while i < self.entries.len()
            invariant
                i <= self.entries@.len(),
                s == views(self.entries@),
                p == (|u: UpdateView| u.kind matches KindView::Entry(c2, _, _) && c2 == c),
                views(r@) == s.take(i as int).filter(p),
            decreases self.entries@.len() - i,
        {
            proof {
                assert(s.take(i as int + 1) =~= s.take(i as int).push(s[i as int]));
                s.take(i as int).lemma_filter_push(s[i as int], p);
            }
            assert(s[i as int] == self.entries@[i as int]@);
            let keep = match &self.entries[i].kind {
                StateUpdateKind::Entry(c2, _, _) => *c2 == c,
                _ => false,
            };
            if keep {
                let ghost r0 = views(r@);
                r.push(clone_update(&self.entries[i]));
                assert(views(r@) =~= r0.push(s[i as int]));
            }
            i = i + 1;
        }
        assert(s.take(i as int) =~= s);
        r
    }
}

impl PersistHandle {
    /// Catches up with the log and returns its whole history, unconsolidated,
    /// split by collection; an uninitialized catalog has none.
    pub fn trace_unconsolidated(&mut self, log: &LogShard) -> (r: Result<Trace, DurableCatalogError>)
        requires
            old(self).wf(),
            log.wf(),
            old(self).snapshot@.len() + log.updates@.len() < i64::MAX,
        ensures
            final(self).wf(),
            match sync_outcome(old(self)@, log@, log.upper) {
                Err(x) => r == Err::<Trace, DurableCatalogError>(x),
                Ok(h) => final(self)@ == h && if initialized(h.applier) {
                    r is Ok && splits(r.unwrap(), log@.updates)
                } else {
                    r == Err::<Trace, DurableCatalogError>(DurableCatalogError::Uninitialized)
                },
            },
    {
        match self.sync_to_current_upper(log) {
            Ok(()) => {},
            Err(e) => {
                return Err(e);
            },
        }
        if !self.is_initialized_inner() {
            return Err(DurableCatalogError::Uninitialized);
        }
        let all = log.listen(0);
        assert(crate::log::at_or_after(log@.updates, 0) =~= log@.updates) by {
            let pz = |u: UpdateView| u.ts >= 0;
            assert forall|k: int| 0 <= k <= log@.updates.len() implies #[trigger] log@.updates.take(k).filter(pz)
                == log@.updates.take(k) by {
                lemma_filter_all(log@.updates, pz, k);
            }
            assert(log@.updates.take(log@.updates.len() as int) =~= log@.updates);
        }
        Ok(Trace::from_snapshot(all))
    }

    /// Catches up with the log and returns the consolidated cache split by
    /// collection; an uninitialized catalog has none.
    pub fn trace_consolidated(&mut self, log: &LogShard) -> (r: Result<Trace, DurableCatalogError>)
        requires
            old(self).wf(),
            log.wf(),
            old(self).snapshot@.len() + log.updates@.len() < i64::MAX,
        ensures
            final(self).wf(),
            match sync_outcome(old(self)@, log@, log.upper) {
                Err(x) => r == Err::<Trace, DurableCatalogError>(x),
                Ok(h) => final(self)@ == h && if !initialized(h.applier) {
                    r == Err::<Trace, DurableCatalogError>(DurableCatalogError::Uninitialized)
                } else if all_inserted(h.cache) {
                    r is Ok && splits(r.unwrap(), h.cache)
                } else {
                    r == Err::<Trace, DurableCatalogError>(DurableCatalogError::Corrupt(Violation::InvalidDiff))
                },
            },
    {
        match self.sync_to_current_upper(log) {
            Ok(()) => {},
            Err(e) => {
                return Err(e);
            },
        }
        if !self.is_initialized_inner() {
            return Err(DurableCatalogError::Uninitialized);
        }
        if !all_diffs_one(&self.snapshot) {
            return Err(DurableCatalogError::Corrupt(Violation::InvalidDiff));
        }
        let copy = clone_updates(&self.snapshot);
        Ok(Trace::from_snapshot(copy))
    }
}

/// Whether every diff of `v` is +1.
pub fn all_diffs_one(v: &Vec<StateUpdate>) -> (r: bool)
    ensures
        r == all_inserted(views(v@)),
{
    let ghost vv = views(v@);
    let mut k: usize = 0;
    while k < v.len()
        invariant
            k <= v@.len(),
            vv == views(v@),
            forall|m: int| 0 <= m < k ==> #[trigger] vv[m].diff == 1,
        decreases v@.len() - k,
    {
        assert(vv[k as int] == v@[k as int]@);
        assert(vv[k as int].diff == v@[k as int].diff as int);
        if v[k].diff != 1 {
            return false;
        }
        k = k + 1;
    }
    true
}

proof fn lemma_filter_all(s: Seq<UpdateView>, p: spec_fn(UpdateView) -> bool, k: int)
    requires
        0 <= k <= s.len(),
        forall|u: UpdateView| #[trigger] p(u),
    ensures
        s.take(k).filter(p) == s.take(k),
    decreases k,
{
    reveal(Seq::filter);
    if k > 0 {
        lemma_filter_all(s, p, k - 1);
        assert(s.take(k).drop_last() =~= s.take(k - 1));
        assert(s.take(k - 1).push(s.take(k).last()) =~= s.take(k));
    }
}

} // verus!

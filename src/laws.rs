use vstd::prelude::*;

use crate::applier::{applier_step, observe_epoch, ApplierView};
use crate::consolidate::{
    apply_le, apply_order, consolidation, first_match, insert_pos, is_consolidated, sorted_for_apply, lemma_first_match, same_point, lemma_consolidation_consolidated,
    lemma_consolidation_idempotent, lemma_consolidation_uniform, restamp, signed_unit_diffs, unit_diffs,
};
use crate::epoch::FenceableEpoch;
use crate::handle::{apply_batch, cache_ok, cache_ts, outcome, recache, stamped, sync_outcome, HandleView};
use crate::log::LogView;
use crate::snapshot::{replay, replay_step, SnapshotView};
use crate::update::{CollectionType, KindView, UpdateView};

verus! {

/// A batch that applies without error leaves an unfenced epoch unfenced.
pub proof fn lemma_batch_keeps_unfenced(a: ApplierView, e: FenceableEpoch, s: Seq<UpdateView>)
    requires
        !e.is_fenced(),
        apply_batch(a, e, s) is Ok,
    ensures
        !apply_batch(a, e, s).unwrap().1.is_fenced(),
    decreases s.len(),
{
    if s.len() > 0 {
        lemma_batch_keeps_unfenced(a, e, s.drop_last());
    }
}

/// A batch forwards at most its own updates, each with a diff of +1 or -1.
pub proof fn lemma_batch_forwards(a: ApplierView, e: FenceableEpoch, s: Seq<UpdateView>)
    ensures
        apply_batch(a, e, s) is Ok ==> {
            let f = apply_batch(a, e, s).unwrap().2;
            f.len() <= s.len() && signed_unit_diffs(f)
        },
    decreases s.len(),
{
    if s.len() > 0 {
        lemma_batch_forwards(a, e, s.drop_last());
    }
}

/// A consolidated cache is its own re-consolidation.
pub proof fn lemma_recache_stable(c: Seq<UpdateView>)
    requires
        cache_ok(c),
    ensures
        recache(c) == c,
{
    assert forall|i: int| 0 <= i < c.len() implies #[trigger] restamp(c, cache_ts(c))[i] == c[i] by {
        assert(c[i].ts == cache_ts(c));
    }
    assert(restamp(c, cache_ts(c)) =~= c);
    lemma_consolidation_idempotent(c);
    crate::consolidate::lemma_apply_order_sorted(c);
}

/// Whatever applying updates leaves in the cache is a consolidated cache.
pub proof fn lemma_outcome_cache_ok(h: HandleView, updates: Seq<UpdateView>)
    requires
        cache_ok(h.cache),
        outcome(h, updates) is Ok,
        h.cache.len() + updates.len() < i64::MAX,
    ensures
        cache_ok(outcome(h, updates).unwrap().cache),
{
    let (a, e, fwd) = apply_batch(h.applier, h.epoch, apply_order(consolidation(updates))).unwrap();
    let joined = h.cache + fwd;
    let t = cache_ts(joined);
    let st = restamp(joined, t);
    let cc = consolidation(st);
    let c = apply_order(cc);
    lemma_batch_forwards(h.applier, h.epoch, apply_order(consolidation(updates)));
    crate::consolidate::lemma_apply_order(consolidation(updates));
    crate::consolidate::lemma_consolidation_len(updates);
    assert(unit_diffs(st)) by {
        assert forall|i: int| 0 <= i < st.len() implies -1 <= #[trigger] st[i].diff <= 1 by {
            if i < h.cache.len() {
                assert(joined[i] == h.cache[i]);
            } else {
                assert(joined[i] == fwd[i - h.cache.len()]);
            }
        }
    }
    lemma_consolidation_consolidated(st);
    lemma_consolidation_uniform(st, t);
    crate::consolidate::lemma_apply_order(cc);
    crate::consolidate::lemma_apply_order_consolidated(cc);
    crate::consolidate::lemma_apply_order_elements(cc);
    assert forall|k: int| 0 <= k < c.len() implies #[trigger] c[k].ts == t by {
        assert(cc.contains(c[k]));
    }
    if c.len() > 0 {
        assert(c[c.len() - 1].ts == t);
    }
}

/// Applying nothing to a handle with a consolidated cache changes nothing.
pub proof fn lemma_outcome_empty(h: HandleView)
    requires
        cache_ok(h.cache),
    ensures
        outcome(h, Seq::empty()) == Ok::<HandleView, crate::error::DurableCatalogError>(h),
{
    let e = Seq::<UpdateView>::empty();
    assert(consolidation(e) =~= e);
    assert(apply_order(e) =~= e);
    assert(h.cache + e =~= h.cache);
    lemma_recache_stable(h.cache);
}

/// Idempotence: catching up twice with the same log to the same target leaves
/// exactly what catching up once left.
pub proof fn lemma_sync_idempotent(h: HandleView, l: LogView, target: u64)
    requires
        cache_ok(h.cache),
        target <= l.upper,
        h.cache.len() + l.updates.len() < i64::MAX,
        sync_outcome(h, l, target) is Ok,
    ensures
        sync_outcome(sync_outcome(h, l, target).unwrap(), l, target) == sync_outcome(h, l, target),
{
    let h2 = sync_outcome(h, l, target).unwrap();
    if h.upper >= target {
        lemma_outcome_empty(h);
        lemma_outcome_empty(h2);
    } else {
        let hu = HandleView { upper: l.upper, ..h };
        let batch = crate::log::at_or_after(l.updates, h.upper);
        l.updates.lemma_filter_len(|u: UpdateView| u.ts >= h.upper);
        lemma_outcome_cache_ok(hu, batch);
        crate::consolidate::lemma_apply_order(consolidation(batch));
        lemma_batch_keeps_unfenced(hu.applier, hu.epoch, apply_order(consolidation(batch)));
        lemma_outcome_empty(h2);
    }
}

/// Replay looks at payloads and diffs only, never at positions.
pub proof fn lemma_replay_restamp(m: SnapshotView, s: Seq<UpdateView>, t: u64)
    ensures
        replay(m, restamp(s, t)) == replay(m, s),
    decreases s.len(),
{
    if s.len() > 0 {
        assert(restamp(s, t).drop_last() =~= restamp(s.drop_last(), t));
        lemma_replay_restamp(m, s.drop_last(), t);
    }
}

/// Re-stamping a consolidated cache at any one position keeps it consolidated.
pub proof fn lemma_restamp_cache(c: Seq<UpdateView>, t: u64)
    requires
        cache_ok(c),
    ensures
        is_consolidated(restamp(c, t)),
        signed_unit_diffs(restamp(c, t)),
        sorted_for_apply(restamp(c, t)),
        consolidation(restamp(c, t)) == restamp(c, t),
{
    let r = restamp(c, t);
    assert forall|i: int, j: int| 0 <= i < j < r.len() implies apply_le(r[i], r[j]) by {
        assert(apply_le(c[i], c[j]));
        assert(c[i].ts == cache_ts(c) && c[j].ts == cache_ts(c));
    }
    assert forall|i: int, j: int| 0 <= i < j < r.len() implies !same_point(r[i], r[j]) by {
        assert(!same_point(c[i], c[j]));
        assert(c[i].ts == cache_ts(c) && c[j].ts == cache_ts(c));
    }
    lemma_consolidation_idempotent(r);
}

/// No entry of `c` carries a payload about `key` in `collection`.
pub open spec fn key_absent(c: Seq<UpdateView>, collection: CollectionType, key: Seq<char>) -> bool {
    forall|i: int|
        0 <= i < c.len() ==> !(#[trigger] c[i].kind matches KindView::Entry(c2, k2, _) && c2 == collection
            && k2 == key)
}

/// The single insertion of `value` under `key` in `collection` at `ts`.
pub open spec fn entry_update(collection: CollectionType, key: Seq<char>, value: Seq<char>, ts: u64, diff: int) -> UpdateView {
    UpdateView { kind: KindView::Entry(collection, key, value), ts, diff }
}

/// A single update in an opened catalog goes to the cache as it is.
proof fn lemma_single_batch(h: HandleView, u: UpdateView)
    requires
        h.applier is Opened,
        u.kind is Entry,
        u.diff == 1 || u.diff == -1,
    ensures
        apply_order(consolidation(seq![u])) == seq![u],
        apply_batch(h.applier, h.epoch, seq![u]) == Ok::<
            (ApplierView, FenceableEpoch, Seq<UpdateView>),
            crate::error::DurableCatalogError,
        >((h.applier, h.epoch, seq![u])),
{
    let s = seq![u];
    assert(s.drop_last() =~= Seq::<UpdateView>::empty());
    assert(consolidation(s.drop_last()) =~= Seq::<UpdateView>::empty());
    assert(consolidation(s) =~= s);
    assert(apply_order(s.drop_last()) =~= Seq::<UpdateView>::empty());
    assert(apply_order(s) =~= s);
    assert(Seq::<UpdateView>::empty().push(u) =~= s);
    assert(apply_batch(h.applier, h.epoch, s.drop_last()) == Ok::<
        (ApplierView, FenceableEpoch, Seq<UpdateView>),
        crate::error::DurableCatalogError,
    >((h.applier, h.epoch, Seq::empty())));
    assert(applier_step(h.applier, h.epoch, u) is Ok);
    assert(applier_step(h.applier, h.epoch, u).unwrap().forwards);
    assert(applier_step(h.applier, h.epoch, u).unwrap().applier == h.applier);
    assert(applier_step(h.applier, h.epoch, u).unwrap().epoch == h.epoch);
}

/// For every key and value: inserting the value into an opened catalog whose
/// cache says nothing of the key makes the snapshot map the key to the value,
/// and retracting it afterwards removes the key again.
pub proof fn lemma_insert_then_retract(
    h: HandleView,
    collection: CollectionType,
    key: Seq<char>,
    value: Seq<char>,
    t1: u64,
    t2: u64,
)
    requires
        cache_ok(h.cache),
        h.applier is Opened,
        h.cache.len() + 2 < i64::MAX,
        key_absent(h.cache, collection, key),
        replay(SnapshotView::empty(), h.cache) is Ok,
        !replay(SnapshotView::empty(), h.cache).unwrap().entries.contains_key((collection, key)),
    ensures
        ({
            let m = replay(SnapshotView::empty(), h.cache).unwrap();
            let ins = seq![entry_update(collection, key, value, t1, 1)];
            let del = seq![entry_update(collection, key, value, t2, -1)];
            &&& outcome(h, ins) is Ok
            &&& replay(SnapshotView::empty(), outcome(h, ins).unwrap().cache) == Ok::<
                SnapshotView,
                crate::error::Violation,
            >(SnapshotView { entries: m.entries.insert((collection, key), value), ..m })
            &&& outcome(outcome(h, ins).unwrap(), del) is Ok
            &&& replay(SnapshotView::empty(), outcome(outcome(h, ins).unwrap(), del).unwrap().cache)
                == Ok::<SnapshotView, crate::error::Violation>(m)
        }),
{
    let m = replay(SnapshotView::empty(), h.cache).unwrap();
    let u = entry_update(collection, key, value, t1, 1);
    let ins = seq![u];
    lemma_single_batch(h, u);
    let joined = h.cache + ins;
    assert(cache_ts(joined) == t1);
    let r1 = restamp(h.cache, t1);
    assert(restamp(joined, t1) =~= r1.push(u));
    lemma_restamp_cache(h.cache, t1);
    lemma_first_match(r1, u);
    assert(key_absent(r1, collection, key)) by {
        assert forall|i: int| 0 <= i < r1.len() implies !(#[trigger] r1[i].kind matches KindView::Entry(
            c2,
            k2,
            _,
        ) && c2 == collection && k2 == key) by {
            assert(r1[i].kind == h.cache[i].kind);
        }
    }
    assert(first_match(r1, u) == -1) by {
        assert forall|i: int| 0 <= i < r1.len() implies !same_point(#[trigger] r1[i], u) by {
            assert(!(r1[i].kind matches KindView::Entry(c2, k2, _) && c2 == collection && k2 == key));
        }
    }
    assert(restamp(joined, t1).drop_last() =~= r1);
    assert(consolidation(restamp(joined, t1)) == r1.push(u));
    crate::consolidate::lemma_apply_order_sorted(r1);
    assert(r1.push(u).drop_last() =~= r1);
    let pos = insert_pos(r1, u);
    let c1 = r1.insert(pos, u);
    assert(apply_order(r1.push(u)) == c1);
    crate::consolidate::lemma_insert_pos(r1, u);
    assert(signed_unit_diffs(c1)) by {
        assert forall|i: int| 0 <= i < c1.len() implies (#[trigger] c1[i].diff == 1 || c1[i].diff
            == -1) by {
            if i < pos {
                assert(c1[i] == r1[i]);
            } else if i > pos {
                assert(c1[i] == r1[i - 1]);
            }
        }
    }
    lemma_replay_restamp(SnapshotView::empty(), h.cache, t1);
    lemma_replay_insert(SnapshotView::empty(), r1, pos, u, collection, key);
    assert(replay(SnapshotView::empty(), c1) == replay_step(m, u));
    lemma_outcome_cache_ok(h, ins);
    let h1 = outcome(h, ins).unwrap();
    assert(h1.cache == c1);

    let d = entry_update(collection, key, value, t2, -1);
    let del = seq![d];
    lemma_single_batch(h1, d);
    let joined2 = c1 + del;
    assert(cache_ts(joined2) == t2);
    let x = restamp(c1, t2);
    assert(restamp(joined2, t2) =~= x.push(d));
    lemma_restamp_cache(c1, t2);
    let r2 = restamp(h.cache, t2);
    let u2 = entry_update(collection, key, value, t2, 1);
    assert(x =~= r2.insert(pos, u2));
    assert(restamp(joined2, t2).drop_last() =~= x);
    lemma_first_match(x, d);
    assert forall|i: int| 0 <= i < x.len() && i != pos implies !same_point(#[trigger] x[i], d) by {
        let i2 = if i < pos {
            i
        } else {
            i - 1
        };
        assert(x[i] == r2[i2]);
        assert(r2[i2].kind == h.cache[i2].kind);
        assert(!(h.cache[i2].kind matches KindView::Entry(c2, k2, _) && c2 == collection && k2 == key));
    }
    assert(same_point(x[pos], d));
    assert(first_match(x, d) == pos);
    assert(x.remove(pos) =~= r2);
    assert(consolidation(restamp(joined2, t2)) == r2);
    lemma_restamp_cache(h.cache, t2);
    crate::consolidate::lemma_apply_order_sorted(r2);
    lemma_replay_restamp(SnapshotView::empty(), h.cache, t2);
}

/// Replaying an update about a key that nothing else in `s` touches gives the
/// same result wherever it stands in `s`.
pub proof fn lemma_replay_insert(
    m: SnapshotView,
    s: Seq<UpdateView>,
    p: int,
    u: UpdateView,
    collection: CollectionType,
    key: Seq<char>,
)
    requires
        0 <= p <= s.len(),
        u.kind matches KindView::Entry(c, k, _) && c == collection && k == key,
        key_absent(s, collection, key),
        replay(m, s) is Ok,
    ensures
        replay(m, s.insert(p, u)) == replay_step(replay(m, s).unwrap(), u),
    decreases s.len(),
{
    if p == s.len() {
        assert(s.insert(p, u) =~= s.push(u));
        assert(s.push(u).drop_last() =~= s);
    } else {
        let d = s.drop_last();
        let w = s.last();
        assert(forall|i: int| 0 <= i < d.len() ==> d[i] == s[i]);
        assert(key_absent(d, collection, key));
        assert(replay(m, d) is Ok);
        lemma_replay_insert(m, d, p, u, collection, key);
        assert(s.insert(p, u) =~= d.insert(p, u).push(w));
        assert(d.insert(p, u).push(w).drop_last() =~= d.insert(p, u));
        assert(w == s[s.len() - 1]);
        assert(!(w.kind matches KindView::Entry(c2, k2, _) && c2 == collection && k2 == key));
        lemma_steps_commute(replay(m, d).unwrap(), u, w, collection, key);
    }
}

/// Two replay steps about different keys commute.
pub proof fn lemma_steps_commute(
    m: SnapshotView,
    u: UpdateView,
    w: UpdateView,
    collection: CollectionType,
    key: Seq<char>,
)
    requires
        u.kind matches KindView::Entry(c, k, _) && c == collection && k == key,
        !(w.kind matches KindView::Entry(c2, k2, _) && c2 == collection && k2 == key),
        replay_step(m, w) is Ok,
    ensures
        match replay_step(m, u) {
            Ok(x) => replay_step(x, w) == replay_step(replay_step(m, w).unwrap(), u),
            Err(e) => replay_step(replay_step(m, w).unwrap(), u) == Err::<
                SnapshotView,
                crate::error::Violation,
            >(e),
        },
{
    let mw = replay_step(m, w).unwrap();
    if let KindView::Entry(c1, k1, v1) = u.kind {
        match w.kind {
            KindView::Entry(c2, k2, v2) => {
                assert((c1, k1) != (c2, k2));
                if replay_step(m, u) is Ok {
                    let x = replay_step(m, u).unwrap();
                    if w.diff == 1 {
                        if u.diff == 1 {
                            assert(x.entries.insert((c2, k2), v2) =~= mw.entries.insert((c1, k1), v1));
                        } else {
                            assert(x.entries.insert((c2, k2), v2) =~= mw.entries.remove((c1, k1)));
                        }
                    } else {
                        if u.diff == 1 {
                            assert(x.entries.remove((c2, k2)) =~= mw.entries.insert((c1, k1), v1));
                        } else {
                            assert(x.entries.remove((c2, k2)) =~= mw.entries.remove((c1, k1)));
                        }
                    }
                }
            },
            _ => {},
        }
    }
}

/// Fencing through the log: a handle holding epoch `e1` that reads the
/// insertion of a larger epoch `e2` fails with the fence error naming both.
pub proof fn lemma_newer_epoch_fences(h: HandleView, e1: u64, e2: u64, t: u64)
    requires
        h.epoch == FenceableEpoch::Unfenced(Some(e1)),
        e1 < e2,
    ensures
        outcome(h, seq![UpdateView { kind: KindView::Epoch(e2), ts: t, diff: 1 }]) == Err::<
            HandleView,
            crate::error::DurableCatalogError,
        >(
            crate::error::DurableCatalogError::Fence(
                crate::error::FenceError::Epoch { current_epoch: e1, fence_epoch: e2 },
            ),
        ),
{
    let u = UpdateView { kind: KindView::Epoch(e2), ts: t, diff: 1 };
    let s = seq![u];
    assert(s.drop_last() =~= Seq::<UpdateView>::empty());
    assert(consolidation(s.drop_last()) =~= Seq::<UpdateView>::empty());
    assert(consolidation(s) =~= s);
    assert(apply_order(s.drop_last()) =~= Seq::<UpdateView>::empty());
    assert(apply_order(s) =~= s);
    assert(Seq::<UpdateView>::empty().push(u) =~= s);
    let err = crate::error::DurableCatalogError::Fence(
        crate::error::FenceError::Epoch { current_epoch: e1, fence_epoch: e2 },
    );
    assert(observe_epoch(h.epoch, e2) == Err::<FenceableEpoch, crate::error::DurableCatalogError>(err));
    assert(applier_step(h.applier, h.epoch, u) == Err::<crate::applier::StepOutcome, crate::error::DurableCatalogError>(err));
    assert(apply_batch(h.applier, h.epoch, s.drop_last()) == Ok::<
        (ApplierView, FenceableEpoch, Seq<UpdateView>),
        crate::error::DurableCatalogError,
    >((h.applier, h.epoch, Seq::empty())));
    assert(apply_batch(h.applier, h.epoch, s) == Err::<
        (ApplierView, FenceableEpoch, Seq<UpdateView>),
        crate::error::DurableCatalogError,
    >(err));
    assert(unit_diffs(s));
}

/// Consolidation: an insertion of `v1` at `t1`, its retraction at `t2` and an
/// insertion of `v2` at `t3`, with `t1 < t2 < t3`, leave an opened catalog with
/// an empty cache holding exactly `key` mapped to `v2`.
pub proof fn lemma_replacement_consolidates(
    h: HandleView,
    collection: CollectionType,
    key: Seq<char>,
    v1: Seq<char>,
    v2: Seq<char>,
    t1: u64,
    t2: u64,
    t3: u64,
)
    requires
        h.applier is Opened,
        h.cache.len() == 0,
        t1 < t2 < t3,
    ensures
        ({
            let batch = seq![
                entry_update(collection, key, v1, t1, 1),
                entry_update(collection, key, v1, t2, -1),
                entry_update(collection, key, v2, t3, 1),
            ];
            &&& outcome(h, batch) is Ok
            &&& replay(SnapshotView::empty(), outcome(h, batch).unwrap().cache) == Ok::<
                SnapshotView,
                crate::error::Violation,
            >(SnapshotView { entries: map![(collection, key) => v2], configs: Map::empty() })
        }),
{
    let a = entry_update(collection, key, v1, t1, 1);
    let b = entry_update(collection, key, v1, t2, -1);
    let c = entry_update(collection, key, v2, t3, 1);
    let batch = seq![a, b, c];
    let e = Seq::<UpdateView>::empty();
    // consolidation keeps all three: their positions differ
    assert(batch.drop_last() =~= seq![a, b]);
    assert(seq![a, b].drop_last() =~= seq![a]);
    assert(seq![a].drop_last() =~= e);
    assert(consolidation(e) =~= e);
    assert(consolidation(seq![a]) =~= seq![a]);
    lemma_first_match(seq![a], b);
    assert(!same_point(seq![a][0], b));
    assert(consolidation(seq![a, b]) =~= seq![a, b]);
    lemma_first_match(seq![a, b], c);
    assert(!same_point(seq![a, b][0], c) && !same_point(seq![a, b][1], c));
    assert(consolidation(batch) =~= batch);
    // application order is already sorted
    assert(apply_order(e) =~= e);
    assert(apply_order(seq![a]) =~= seq![a]);
    assert(seq![a].last() == a);
    assert(insert_pos(seq![a], b) == 1);
    assert(apply_order(seq![a, b]) =~= seq![a, b]);
    assert(seq![a, b].last() == b);
    assert(insert_pos(seq![a, b], c) == 2);
    assert(apply_order(batch) =~= batch);
    // every update is forwarded to the cache
    assert(apply_batch(h.applier, h.epoch, e) == Ok::<
        (ApplierView, FenceableEpoch, Seq<UpdateView>),
        crate::error::DurableCatalogError,
    >((h.applier, h.epoch, e)));
    assert(applier_step(h.applier, h.epoch, a).unwrap().forwards);
    assert(applier_step(h.applier, h.epoch, b).unwrap().forwards);
    assert(applier_step(h.applier, h.epoch, c).unwrap().forwards);
    assert(e.push(a) =~= seq![a]);
    assert(seq![a].push(b) =~= seq![a, b]);
    assert(seq![a, b].push(c) =~= batch);
    assert(apply_batch(h.applier, h.epoch, seq![a]) == Ok::<
        (ApplierView, FenceableEpoch, Seq<UpdateView>),
        crate::error::DurableCatalogError,
    >((h.applier, h.epoch, seq![a])));
    assert(apply_batch(h.applier, h.epoch, seq![a, b]) == Ok::<
        (ApplierView, FenceableEpoch, Seq<UpdateView>),
        crate::error::DurableCatalogError,
    >((h.applier, h.epoch, seq![a, b])));
    assert(apply_batch(h.applier, h.epoch, batch) == Ok::<
        (ApplierView, FenceableEpoch, Seq<UpdateView>),
        crate::error::DurableCatalogError,
    >((h.applier, h.epoch, batch)));
    // re-stamped at t3, the insertion and retraction of v1 cancel
    assert(h.cache + batch =~= batch);
    assert(cache_ts(batch) == t3);
    let a3 = entry_update(collection, key, v1, t3, 1);
    let b3 = entry_update(collection, key, v1, t3, -1);
    let c3 = entry_update(collection, key, v2, t3, 1);
    assert(restamp(batch, t3) =~= seq![a3, b3, c3]);
    assert(seq![a3, b3, c3].drop_last() =~= seq![a3, b3]);
    assert(seq![a3, b3].drop_last() =~= seq![a3]);
    assert(seq![a3].drop_last() =~= e);
    assert(consolidation(seq![a3]) =~= seq![a3]);
    lemma_first_match(seq![a3], b3);
    assert(same_point(seq![a3][0], b3));
    assert(first_match(seq![a3], b3) == 0);
    assert(seq![a3].remove(0) =~= e);
    assert(consolidation(seq![a3, b3]) =~= e);
    assert(first_match(e, c3) == -1);
    assert(consolidation(seq![a3, b3, c3]) =~= seq![c3]);
    assert(seq![c3].drop_last() =~= e);
    assert(insert_pos(e, c3) == 0);
    assert(e.insert(0, c3) =~= seq![c3]);
    assert(apply_order(seq![c3]) =~= seq![c3]);
    assert(signed_unit_diffs(seq![c3]));
    assert(outcome(h, batch).unwrap().cache == seq![c3]);
    assert(seq![c3].drop_last() =~= e);
    assert(replay(SnapshotView::empty(), e) == Ok::<SnapshotView, crate::error::Violation>(SnapshotView::empty()));
    assert(Map::<(CollectionType, Seq<char>), Seq<char>>::empty().insert((collection, key), v2) =~= map![(collection, key) => v2]);
}

/// Fencing through the log, as a writable open does it: a handle holding
/// epoch `e1` that reads the fence appended by a writer of a larger epoch
/// `e2` (the retraction of `e1` and the insertion of `e2`, at one position)
/// fails with the fence error naming both, whatever its phase.
pub proof fn lemma_fence_batch_fences(h: HandleView, e1: u64, e2: u64, t: u64)
    requires
        h.epoch == FenceableEpoch::Unfenced(Some(e1)),
        e1 < e2,
    ensures
        outcome(h, stamped(crate::catalog::fence_batch(Some(e1), e2), t)) == Err::<
            HandleView,
            crate::error::DurableCatalogError,
        >(
            crate::error::DurableCatalogError::Fence(
                crate::error::FenceError::Epoch { current_epoch: e1, fence_epoch: e2 },
            ),
        ),
{
    let r = UpdateView { kind: KindView::Epoch(e1), ts: t, diff: -1 };
    let i = UpdateView { kind: KindView::Epoch(e2), ts: t, diff: 1 };
    let s = seq![r, i];
    let e = Seq::<UpdateView>::empty();
    assert(stamped(crate::catalog::fence_batch(Some(e1), e2), t) =~= s);
    assert(s.drop_last() =~= seq![r]);
    assert(seq![r].drop_last() =~= e);
    assert(consolidation(e) =~= e);
    assert(consolidation(seq![r]) =~= seq![r]);
    lemma_first_match(seq![r], i);
    assert(!same_point(seq![r][0], i));
    assert(consolidation(s) =~= s);
    assert(apply_order(e) =~= e);
    assert(apply_order(seq![r]) =~= seq![r]);
    assert(seq![r].last() == r);
    assert(insert_pos(seq![r], i) == 1);
    assert(apply_order(s) =~= s);
    assert(apply_batch(h.applier, h.epoch, e) == Ok::<
        (ApplierView, FenceableEpoch, Seq<UpdateView>),
        crate::error::DurableCatalogError,
    >((h.applier, h.epoch, e)));
    assert(applier_step(h.applier, h.epoch, r) is Ok);
    let o = applier_step(h.applier, h.epoch, r).unwrap();
    assert(o.applier == h.applier && o.epoch == h.epoch && o.forwards);
    assert(e.push(r) =~= seq![r]);
    assert(apply_batch(h.applier, h.epoch, seq![r]) == Ok::<
        (ApplierView, FenceableEpoch, Seq<UpdateView>),
        crate::error::DurableCatalogError,
    >((h.applier, h.epoch, seq![r])));
    let err = crate::error::DurableCatalogError::Fence(
        crate::error::FenceError::Epoch { current_epoch: e1, fence_epoch: e2 },
    );
    assert(observe_epoch(h.epoch, e2) == Err::<FenceableEpoch, crate::error::DurableCatalogError>(err));
    assert(applier_step(h.applier, h.epoch, i) == Err::<crate::applier::StepOutcome, crate::error::DurableCatalogError>(err));
    assert(apply_batch(h.applier, h.epoch, s) == Err::<
        (ApplierView, FenceableEpoch, Seq<UpdateView>),
        crate::error::DurableCatalogError,
    >(err));
    assert(unit_diffs(s));
}

/// Fencing is permanent through the log: once a handle is fenced, every later
/// catch-up with any log fails with its fence error and changes nothing.
pub proof fn lemma_fenced_handle_stays_fenced(h: HandleView, l: LogView, target: u64)
    requires
        h.epoch.is_fenced(),
    ensures
        sync_outcome(h, l, target) == Err::<HandleView, crate::error::DurableCatalogError>(
            h.epoch.fence_error(),
        ),
        h.epoch.fence_error() is Fence,
{
}

/// A batch that applies without error leaves a held epoch as it was.
pub proof fn lemma_batch_keeps_epoch(a: ApplierView, e1: u64, s: Seq<UpdateView>)
    ensures
        apply_batch(a, FenceableEpoch::Unfenced(Some(e1)), s) is Ok ==> apply_batch(
            a,
            FenceableEpoch::Unfenced(Some(e1)),
            s,
        ).unwrap().1 == FenceableEpoch::Unfenced(Some(e1)),
    decreases s.len(),
{
    if s.len() > 0 {
        lemma_batch_keeps_epoch(a, e1, s.drop_last());
    }
}

/// Fencing inside any batch: a handle holding epoch `e1` whose batch, once
/// consolidated and ordered, holds the insertion of a larger epoch anywhere
/// fails; it is never applied in full.
pub proof fn lemma_newer_epoch_anywhere_fences(h: HandleView, e1: u64, updates: Seq<UpdateView>, k: int)
    requires
        h.epoch == FenceableEpoch::Unfenced(Some(e1)),
        0 <= k < apply_order(consolidation(updates)).len(),
        apply_order(consolidation(updates))[k].kind matches KindView::Epoch(e2) && e2 > e1,
        apply_order(consolidation(updates))[k].diff == 1,
    ensures
        outcome(h, updates) is Err,
{
    let b = apply_order(consolidation(updates));
    if unit_diffs(updates) {
        let pre = b.take(k);
        lemma_batch_keeps_epoch(h.applier, e1, pre);
        assert(b.take(k + 1).drop_last() =~= pre);
        assert(b.take(k + 1).last() == b[k]);
        if apply_batch(h.applier, h.epoch, pre) is Ok {
            let a2 = apply_batch(h.applier, h.epoch, pre).unwrap().0;
            if let KindView::Epoch(e2) = b[k].kind {
                assert(observe_epoch(h.epoch, e2) is Err);
                assert(applier_step(a2, h.epoch, b[k]) is Err);
            }
            assert(apply_batch(h.applier, h.epoch, b.take(k + 1)) is Err);
        } else {
            crate::handle::lemma_batch_stops(h.applier, h.epoch, b.take(k + 1), k);
            assert(b.take(k + 1).take(k) =~= pre);
        }
        crate::handle::lemma_batch_stops(h.applier, h.epoch, b, k + 1);
    }
}

/// Reading a log from its own upper after an append at that upper reads
/// exactly the appended updates.
pub proof fn lemma_read_appended(old_updates: Seq<UpdateView>, upper: u64, added: Seq<UpdateView>)
    requires
        crate::log::within(old_updates, 0, upper),
        forall|i: int| 0 <= i < added.len() ==> #[trigger] added[i].ts >= upper,
    ensures
        crate::log::at_or_after(old_updates + added, upper) == added,
{
    let p = |u: UpdateView| u.ts >= upper;
    Seq::filter_distributes_over_add(old_updates, added, p);
    lemma_filter_none(old_updates, upper, old_updates.len() as int);
    lemma_filter_every(added, upper, added.len() as int);
    assert(old_updates.take(old_updates.len() as int) =~= old_updates);
    assert(added.take(added.len() as int) =~= added);
    assert(Seq::<UpdateView>::empty() + added =~= added);
}

proof fn lemma_filter_none(s: Seq<UpdateView>, upper: u64, k: int)
    requires
        0 <= k <= s.len(),
        crate::log::within(s, 0, upper),
    ensures
        s.take(k).filter(|u: UpdateView| u.ts >= upper) == Seq::<UpdateView>::empty(),
    decreases k,
{
    reveal(Seq::filter);
    if k > 0 {
        lemma_filter_none(s, upper, k - 1);
        assert(s.take(k).drop_last() =~= s.take(k - 1));
        assert(s.take(k).last() == s[k - 1]);
    } else {
        assert(s.take(0) =~= Seq::<UpdateView>::empty());
    }
}

proof fn lemma_filter_every(s: Seq<UpdateView>, upper: u64, k: int)
    requires
        0 <= k <= s.len(),
        forall|i: int| 0 <= i < s.len() ==> #[trigger] s[i].ts >= upper,
    ensures
        s.take(k).filter(|u: UpdateView| u.ts >= upper) == s.take(k),
    decreases k,
{
    reveal(Seq::filter);
    if k > 0 {
        lemma_filter_every(s, upper, k - 1);
        assert(s.take(k).drop_last() =~= s.take(k - 1));
        assert(s.take(k).last() == s[k - 1]);
        assert(s.take(k - 1).push(s[k - 1]) =~= s.take(k));
    } else {
        assert(s.take(0) =~= Seq::<UpdateView>::empty());
    }
}

/// Applying updates does not depend on the handle's upper, which it keeps.
pub proof fn lemma_outcome_upper(h: HandleView, u: Seq<UpdateView>, x: u64)
    ensures
        outcome(HandleView { upper: x, ..h }, u) == match outcome(h, u) {
            Ok(g) => Ok(HandleView { upper: x, ..g }),
            Err(e) => Err::<HandleView, crate::error::DurableCatalogError>(e),
        },
{
}

/// Catching up after a single append at the handle's upper applies exactly
/// that update and moves the upper past it.
pub proof fn lemma_sync_reads_append(h: HandleView, l0: LogView, l1: LogView, u: UpdateView)
    requires
        !h.epoch.is_fenced(),
        h.upper == l0.upper,
        crate::log::within(l0.updates, 0, l0.upper),
        u.ts == h.upper,
        l1.updates == l0.updates.push(u),
        l1.upper == l0.upper + 1,
    ensures
        sync_outcome(h, l1, l1.upper) == match outcome(h, seq![u]) {
            Ok(g) => Ok(HandleView { upper: l1.upper, ..g }),
            Err(e) => Err::<HandleView, crate::error::DurableCatalogError>(e),
        },
        crate::log::within(l1.updates, 0, l1.upper),
{
    assert(l0.updates.push(u) =~= l0.updates + seq![u]);
    lemma_read_appended(l0.updates, h.upper, seq![u]);
    lemma_outcome_upper(h, seq![u], l1.upper);
    assert forall|i: int| 0 <= i < l1.updates.len() implies 0 <= #[trigger] l1.updates[i].ts < l1.upper by {
        if i < l0.updates.len() {
            assert(l1.updates[i] == l0.updates[i]);
        }
    }
}

/// For every key and value, seen through the log: a handle of an opened
/// catalog that appends the insertion of a value at its upper and then reads
/// through the new upper sees the key mapped to the value; appending the
/// retraction next and reading again removes the key.
pub proof fn lemma_append_insert_then_retract(
    h: HandleView,
    l0: LogView,
    l1: LogView,
    l2: LogView,
    collection: CollectionType,
    key: Seq<char>,
    value: Seq<char>,
)
    requires
        cache_ok(h.cache),
        h.applier is Opened,
        !h.epoch.is_fenced(),
        h.cache.len() + 2 < i64::MAX,
        key_absent(h.cache, collection, key),
        replay(SnapshotView::empty(), h.cache) is Ok,
        !replay(SnapshotView::empty(), h.cache).unwrap().entries.contains_key((collection, key)),
        h.upper == l0.upper,
        l0.upper < u64::MAX - 1,
        crate::log::within(l0.updates, 0, l0.upper),
        l1.updates == l0.updates.push(entry_update(collection, key, value, h.upper, 1)),
        l1.upper == l0.upper + 1,
        l2.updates == l1.updates.push(entry_update(collection, key, value, (h.upper + 1) as u64, -1)),
        l2.upper == l1.upper + 1,
    ensures
        ({
            let m = replay(SnapshotView::empty(), h.cache).unwrap();
            let s1 = sync_outcome(h, l1, l1.upper);
            &&& s1 is Ok
            &&& replay(SnapshotView::empty(), s1.unwrap().cache) == Ok::<
                SnapshotView,
                crate::error::Violation,
            >(SnapshotView { entries: m.entries.insert((collection, key), value), ..m })
            &&& sync_outcome(s1.unwrap(), l2, l2.upper) is Ok
            &&& replay(SnapshotView::empty(), sync_outcome(s1.unwrap(), l2, l2.upper).unwrap().cache)
                == Ok::<SnapshotView, crate::error::Violation>(m)
        }),
{
    let t1 = h.upper;
    let t2 = (h.upper + 1) as u64;
    let u = entry_update(collection, key, value, t1, 1);
    let d = entry_update(collection, key, value, t2, -1);
    lemma_insert_then_retract(h, collection, key, value, t1, t2);
    lemma_sync_reads_append(h, l0, l1, u);
    let g1 = outcome(h, seq![u]).unwrap();
    let s1 = HandleView { upper: l1.upper, ..g1 };
    lemma_batch_keeps_unfenced_outcome(h, seq![u]);
    lemma_sync_reads_append(s1, l1, l2, d);
    lemma_outcome_upper(g1, seq![d], l1.upper);
}

/// Applying an opened catalog's insertion leaves its epoch as it was.
proof fn lemma_batch_keeps_unfenced_outcome(h: HandleView, ins: Seq<UpdateView>)
    requires
        !h.epoch.is_fenced(),
        outcome(h, ins) is Ok,
    ensures
        !outcome(h, ins).unwrap().epoch.is_fenced(),
{
    lemma_batch_keeps_unfenced(h.applier, h.epoch, apply_order(consolidation(ins)));
}

} // verus!

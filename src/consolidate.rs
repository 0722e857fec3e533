use vstd::prelude::*;

use crate::order::{kind_less, kind_lt, lemma_kind_order};
use crate::update::{kind_eq, lemma_views_remove, views, StateUpdate, UpdateView};

verus! {

/// Whether two updates carry the same payload at the same position.
pub open spec fn same_point(a: UpdateView, b: UpdateView) -> bool {
    a.kind == b.kind && a.ts == b.ts
}

/// The first index of `acc` at the point of `u`, or -1 when there is none.
pub open spec fn first_match(acc: Seq<UpdateView>, u: UpdateView) -> int
    decreases acc.len(),
{
    if acc.len() == 0 {
        -1
    } else {
        let r = first_match(acc.drop_last(), u);
        if r >= 0 {
            r
        } else if same_point(acc.last(), u) {
            acc.len() - 1
        } else {
            -1
        }
    }
}

/// Adds `u` into the consolidated `acc`: its diff joins the entry at its point,
/// which disappears when the sum is zero.
pub open spec fn merge(acc: Seq<UpdateView>, u: UpdateView) -> Seq<UpdateView> {
    let j = first_match(acc, u);
    if j < 0 {
        if u.diff == 0 {
            acc
        } else {
            acc.push(u)
        }
    } else if acc[j].diff + u.diff == 0 {
        acc.remove(j)
    } else {
        acc.update(j, UpdateView { kind: acc[j].kind, ts: acc[j].ts, diff: acc[j].diff + u.diff })
    }
}

/// The consolidation of `s`: one entry per (payload, position) holding the net
/// diff, zero nets dropped, in order of first appearance.
pub open spec fn consolidation(s: Seq<UpdateView>) -> Seq<UpdateView>
    decreases s.len(),
{
    if s.len() == 0 {
        Seq::empty()
    } else {
        merge(consolidation(s.drop_last()), s.last())
    }
}

/// Consolidation never lengthens a sequence.
pub proof fn lemma_consolidation_len(s: Seq<UpdateView>)
    ensures
        consolidation(s).len() <= s.len(),
    decreases s.len(),
{
    if s.len() > 0 {
        lemma_consolidation_len(s.drop_last());
        lemma_first_match(consolidation(s.drop_last()), s.last());
    }
}

/// Consolidation keeps a position shared by all of a sequence.
pub proof fn lemma_consolidation_uniform(s: Seq<UpdateView>, t: u64)
    requires
        forall|i: int| 0 <= i < s.len() ==> #[trigger] s[i].ts == t,
    ensures
        forall|i: int| 0 <= i < consolidation(s).len() ==> #[trigger] consolidation(s)[i].ts == t,
    decreases s.len(),
{
    if s.len() > 0 {
        let d = s.drop_last();
        assert(forall|i: int| 0 <= i < d.len() ==> d[i] == s[i]);
        lemma_consolidation_uniform(d, t);
        assert(s.last() == s[s.len() - 1]);
        let acc = consolidation(d);
        lemma_first_match(acc, s.last());
        let j = first_match(acc, s.last());
        if j >= 0 && acc[j].diff + s.last().diff == 0 {
            assert forall|i: int| 0 <= i < consolidation(s).len() implies #[trigger] consolidation(
                s,
            )[i].ts == t by {
                if i < j {
                    assert(consolidation(s)[i] == acc[i]);
                } else {
                    assert(consolidation(s)[i] == acc[i + 1]);
                }
            }
        }
    }
}

/// No two entries share a point, and no diff is zero.
pub open spec fn is_consolidated(s: Seq<UpdateView>) -> bool {
    &&& forall|i: int, j: int| 0 <= i < j < s.len() ==> !same_point(s[i], s[j])
    &&& forall|i: int| 0 <= i < s.len() ==> s[i].diff != 0
}

/// Every diff is -1, 0 or +1.
pub open spec fn unit_diffs(s: Seq<UpdateView>) -> bool {
    forall|i: int| 0 <= i < s.len() ==> -1 <= #[trigger] s[i].diff <= 1
}

/// Every diff is exactly -1 or +1.
pub open spec fn signed_unit_diffs(s: Seq<UpdateView>) -> bool {
    forall|i: int| 0 <= i < s.len() ==> (#[trigger] s[i].diff == 1 || s[i].diff == -1)
}

pub proof fn lemma_first_match(acc: Seq<UpdateView>, u: UpdateView)
    ensures
        -1 <= first_match(acc, u) < acc.len(),
        first_match(acc, u) == -1 <==> forall|m: int|
            0 <= m < acc.len() ==> !same_point(#[trigger] acc[m], u),
        first_match(acc, u) >= 0 ==> same_point(acc[first_match(acc, u)], u),
        forall|m: int| 0 <= m < first_match(acc, u) ==> !same_point(#[trigger] acc[m], u),
    decreases acc.len(),
{
    if acc.len() > 0 {
        lemma_first_match(acc.drop_last(), u);
        let d = acc.drop_last();
        assert(forall|m: int| 0 <= m < d.len() ==> d[m] == acc[m]);
    }
}

/// Consolidating an already consolidated sequence leaves it unchanged.
pub proof fn lemma_consolidation_idempotent(s: Seq<UpdateView>)
    requires
        is_consolidated(s),
    ensures
        consolidation(s) == s,
    decreases s.len(),
{
    if s.len() > 0 {
        let d = s.drop_last();
        assert(is_consolidated(d));
        lemma_consolidation_idempotent(d);
        lemma_first_match(d, s.last());
        assert forall|m: int| 0 <= m < d.len() implies !same_point(#[trigger] d[m], s.last()) by {
            assert(!same_point(s[m], s[s.len() - 1]));
        }
        assert(d.push(s.last()) =~= s);
    }
}

/// The result of consolidation is consolidated, and each net diff is bounded
/// by the number of updates.
pub proof fn lemma_consolidation_consolidated(s: Seq<UpdateView>)
    requires
        unit_diffs(s),
        s.len() < i64::MAX,
    ensures
        is_consolidated(consolidation(s)),
        forall|m: int|
            0 <= m < consolidation(s).len() ==> -s.len() <= #[trigger] consolidation(s)[m].diff
                <= s.len(),
    decreases s.len(),
{
    if s.len() > 0 {
        let d = s.drop_last();
        let acc = consolidation(d);
        let u = s.last();
        assert(u == s[s.len() - 1]);
        assert(unit_diffs(d)) by {
            assert forall|i: int| 0 <= i < d.len() implies -1 <= #[trigger] d[i].diff <= 1 by {
                assert(d[i] == s[i]);
            }
        }
        lemma_consolidation_consolidated(d);
        lemma_first_match(acc, u);
        let j = first_match(acc, u);
        let r = consolidation(s);
        assert(r == merge(acc, u));
        if j < 0 {
            if u.diff != 0 {
                assert(r == acc.push(u));
                assert forall|a: int, b: int| 0 <= a < b < r.len() implies !same_point(
                    r[a],
                    r[b],
                ) by {
                    if b == acc.len() {
                        assert(!same_point(acc[a], u));
                    } else {
                        assert(r[a] == acc[a] && r[b] == acc[b]);
                    }
                }
                assert forall|m: int| 0 <= m < r.len() implies r[m].diff != 0 by {
                    if m < acc.len() {
                        assert(r[m] == acc[m]);
                    }
                }
            }
        } else if acc[j].diff + u.diff == 0 {
            assert(r == acc.remove(j));
            assert forall|a: int, b: int| 0 <= a < b < r.len() implies !same_point(r[a], r[b]) by {
                let a2 = if a < j {
                    a
                } else {
                    a + 1
                };
                let b2 = if b < j {
                    b
                } else {
                    b + 1
                };
                assert(r[a] == acc[a2] && r[b] == acc[b2]);
            }
            assert forall|m: int| 0 <= m < r.len() implies r[m].diff != 0 && -s.len()
                <= #[trigger] r[m].diff <= s.len() by {
                let m2 = if m < j {
                    m
                } else {
                    m + 1
                };
                assert(r[m] == acc[m2]);
            }
        } else {
            let e = UpdateView { kind: acc[j].kind, ts: acc[j].ts, diff: acc[j].diff + u.diff };
            assert(r == acc.update(j, e));
            assert forall|a: int, b: int| 0 <= a < b < r.len() implies !same_point(r[a], r[b]) by {
                assert(!same_point(acc[a], acc[b]));
                assert(same_point(r[a], acc[a]) && same_point(r[b], acc[b]));
            }
            assert forall|m: int| 0 <= m < r.len() implies r[m].diff != 0 && -s.len()
                <= #[trigger] r[m].diff <= s.len() by {
                if m != j {
                    assert(r[m] == acc[m]);
                }
            }
        }
    }
}

/// Consolidates `updates` by payload and position.
pub fn consolidate_updates(updates: Vec<StateUpdate>) -> (r: Vec<StateUpdate>)
    requires
        unit_diffs(views(updates@)),
        updates@.len() < i64::MAX,
    ensures
        views(r@) == consolidation(views(updates@)),
        is_consolidated(views(r@)),
{
    let ghost s = views(updates@);
    let mut rest = updates;
    let mut acc: Vec<StateUpdate> = Vec::new();
    let n = rest.len();
    let mut i: usize = 0;
    assert(views(acc@) =~= consolidation(s.take(0)));
    while i < n
        invariant
            n == s.len(),
            n < i64::MAX,
            i <= n,
            unit_diffs(s),
            views(rest@) == s.skip(i as int),
            rest@.len() == n - i,
            views(acc@) == consolidation(s.take(i as int)),
            forall|m: int| 0 <= m < acc@.len() ==> -(i as int) <= #[trigger] acc@[m].diff <= i,
        decreases n - i,
    {
        let ghost before_rest = rest@;
        let u = rest.remove(0);
        proof {
            lemma_views_remove(before_rest, 0);
        }
        assert(u@ == views(before_rest)[0]);
        assert(u@ == s[i as int]);
        assert(s.take(i as int + 1).drop_last() =~= s.take(i as int));
        assert(views(rest@) =~= s.skip(i as int + 1));
        let ghost old_acc = acc@;
        let ghost va = views(acc@);
        proof {
            lemma_first_match(va, u@);
        }
        let mut j: usize = 0;
        let mut found = false;
        while j < acc.len()
            invariant
                acc@ == old_acc,
                va == views(old_acc),
                j <= acc@.len(),
                forall|m: int| 0 <= m < j ==> !same_point(#[trigger] va[m], u@),
                found ==> j < acc@.len() && same_point(va[j as int], u@),
            ensures
                acc@ == old_acc,
                forall|m: int| 0 <= m < j ==> !same_point(#[trigger] va[m], u@),
                !found ==> j == acc@.len(),
                found ==> j < acc@.len() && same_point(va[j as int], u@),
            decreases acc@.len() - j,
        {
            if kind_eq(&acc[j].kind, &u.kind) && acc[j].ts == u.ts {
                found = true;
                break;
            }
            j = j + 1;
        }
        if !found {
            assert(first_match(va, u@) == -1);
            if u.diff != 0 {
                acc.push(u);
                assert(views(acc@) =~= va.push(u@));
            }
        } else {
            assert(first_match(va, u@) == j as int);
            let e = acc.remove(j);
            let sum = e.diff + u.diff;
            if sum != 0 {
                acc.insert(j, StateUpdate { kind: e.kind, ts: e.ts, diff: sum });
                assert(views(acc@) =~= va.update(
                    j as int,
                    UpdateView { kind: va[j as int].kind, ts: va[j as int].ts, diff: va[j as int].diff + u@.diff },
                ));
            } else {
                assert(views(acc@) =~= va.remove(j as int));
            }
        }
        i = i + 1;
    }
    assert(s.take(n as int) =~= s);
    proof {
        lemma_consolidation_consolidated(s);
    }
    acc
}

} // verus!

verus! {

/// The application order: by position, within a position retractions before
/// insertions, and then by payload, so that the order does not depend on the
/// order of the input.
pub open spec fn apply_le(a: UpdateView, b: UpdateView) -> bool {
    a.ts < b.ts || (a.ts == b.ts && (a.diff < b.diff || (a.diff == b.diff && !kind_lt(
        b.kind,
        a.kind,
    ))))
}

/// The application order is transitive and total.
pub proof fn lemma_apply_le(a: UpdateView, b: UpdateView, c: UpdateView)
    ensures
        apply_le(a, b) || apply_le(b, a),
        apply_le(a, b) && apply_le(b, c) ==> apply_le(a, c),
        apply_le(a, b) && apply_le(b, a) ==> a.ts == b.ts && a.diff == b.diff && a.kind == b.kind,
{
    lemma_kind_order(a.kind, b.kind, c.kind);
    lemma_kind_order(c.kind, b.kind, a.kind);
    lemma_kind_order(b.kind, a.kind, c.kind);
    lemma_kind_order(a.kind, c.kind, b.kind);
}

/// Whether `a` may precede `b` in the application order.
pub fn update_le(a: &StateUpdate, b: &StateUpdate) -> (r: bool)
    ensures
        r == apply_le(a@, b@),
{
    a.ts < b.ts || (a.ts == b.ts && (a.diff < b.diff || (a.diff == b.diff && !kind_less(
        &b.kind,
        &a.kind,
    ))))
}

/// Where insertion sort places `u` in `acc`: after the last entry that does
/// not follow it.
pub open spec fn insert_pos(acc: Seq<UpdateView>, u: UpdateView) -> int
    decreases acc.len(),
{
    if acc.len() == 0 {
        0
    } else if apply_le(acc.last(), u) {
        acc.len() as int
    } else {
        insert_pos(acc.drop_last(), u)
    }
}

/// `s` sorted stably into application order.
pub open spec fn apply_order(s: Seq<UpdateView>) -> Seq<UpdateView>
    decreases s.len(),
{
    if s.len() == 0 {
        Seq::empty()
    } else {
        let a = apply_order(s.drop_last());
        a.insert(insert_pos(a, s.last()), s.last())
    }
}

pub open spec fn sorted_for_apply(s: Seq<UpdateView>) -> bool {
    forall|i: int, j: int| 0 <= i < j < s.len() ==> apply_le(s[i], s[j])
}

pub proof fn lemma_insert_pos(acc: Seq<UpdateView>, u: UpdateView)
    requires
        sorted_for_apply(acc),
    ensures
        0 <= insert_pos(acc, u) <= acc.len(),
        forall|i: int| 0 <= i < insert_pos(acc, u) ==> apply_le(#[trigger] acc[i], u),
        forall|i: int| insert_pos(acc, u) <= i < acc.len() ==> !apply_le(#[trigger] acc[i], u),
    decreases acc.len(),
{
    if acc.len() > 0 {
        let d = acc.drop_last();
        assert(forall|i: int| 0 <= i < d.len() ==> d[i] == acc[i]);
        assert(sorted_for_apply(d));
        lemma_insert_pos(d, u);
        if apply_le(acc.last(), u) {
            assert forall|i: int| 0 <= i < acc.len() implies apply_le(#[trigger] acc[i], u) by {
                if i < acc.len() - 1 {
                    assert(apply_le(acc[i], acc[acc.len() - 1]));
                    lemma_apply_le(acc[i], acc[acc.len() - 1], u);
                }
            }
        }
    }
}

/// Application order is sorted and holds the same updates.
pub proof fn lemma_apply_order(s: Seq<UpdateView>)
    ensures
        sorted_for_apply(apply_order(s)),
        apply_order(s).to_multiset() == s.to_multiset(),
        apply_order(s).len() == s.len(),
    decreases s.len(),
{
    if s.len() > 0 {
        let d = s.drop_last();
        let a = apply_order(d);
        let u = s.last();
        lemma_apply_order(d);
        lemma_insert_pos(a, u);
        let p = insert_pos(a, u);
        let r = a.insert(p, u);
        assert forall|i: int, j: int| 0 <= i < j < r.len() implies apply_le(r[i], r[j]) by {
            if i < p && j < p {
            } else if i < p && j == p {
            } else if i < p {
                assert(r[j] == a[j - 1]);
            } else if i == p {
                assert(r[j] == a[j - 1]);
                assert(!apply_le(a[j - 1], u));
                lemma_apply_le(a[j - 1], u, u);
            } else {
                assert(r[i] == a[i - 1] && r[j] == a[j - 1]);
            }
        }
        vstd::seq_lib::to_multiset_insert(a, p, u);
        assert(s =~= d.push(u));
        vstd::seq_lib::to_multiset_build(d, u);
        assert(apply_order(s) == r);
    } else {
        assert(apply_order(s) =~= s);
    }
}

/// A sorted sequence is its own application order.
pub proof fn lemma_apply_order_sorted(s: Seq<UpdateView>)
    requires
        sorted_for_apply(s),
    ensures
        apply_order(s) == s,
    decreases s.len(),
{
    if s.len() > 0 {
        let d = s.drop_last();
        assert(sorted_for_apply(d));
        lemma_apply_order_sorted(d);
        if d.len() > 0 {
            assert(apply_le(d.last(), s.last()));
        }
        assert(d.insert(d.len() as int, s.last()) =~= s);
    } else {
        assert(apply_order(s) =~= s);
    }
}

/// Every update of the application order of `s` is an update of `s`.
pub proof fn lemma_apply_order_elements(s: Seq<UpdateView>)
    ensures
        forall|i: int| 0 <= i < apply_order(s).len() ==> s.contains(#[trigger] apply_order(s)[i]),
{
    lemma_apply_order(s);
    let r = apply_order(s);
    assert forall|i: int| 0 <= i < r.len() implies s.contains(#[trigger] r[i]) by {
        vstd::seq_lib::to_multiset_contains(r, r[i]);
        vstd::seq_lib::to_multiset_contains(s, r[i]);
        assert(r.contains(r[i]));
    }
}

/// The application order of a consolidated sequence is consolidated.
pub proof fn lemma_apply_order_consolidated(s: Seq<UpdateView>)
    requires
        is_consolidated(s),
    ensures
        is_consolidated(apply_order(s)),
    decreases s.len(),
{
    if s.len() > 0 {
        let d = s.drop_last();
        let u = s.last();
        assert(forall|i: int| 0 <= i < d.len() ==> d[i] == s[i]);
        assert(is_consolidated(d));
        lemma_apply_order_consolidated(d);
        lemma_apply_order_elements(d);
        lemma_apply_order(d);
        let a = apply_order(d);
        let p = insert_pos(a, u);
        lemma_insert_pos(a, u);
        let r = a.insert(p, u);
        assert forall|i: int| 0 <= i < a.len() implies !same_point(#[trigger] a[i], u) by {
            assert(d.contains(a[i]));
            let m = choose|m: int| 0 <= m < d.len() && d[m] == a[i];
            assert(!same_point(s[m], s[s.len() - 1]));
        }
        assert forall|i: int, j: int| 0 <= i < j < r.len() implies !same_point(r[i], r[j]) by {
            if j < p {
            } else if j == p {
                assert(!same_point(a[i], u));
            } else if i < p {
                assert(r[j] == a[j - 1]);
            } else if i == p {
                assert(r[j] == a[j - 1]);
                assert(!same_point(a[j - 1], u));
            } else {
                assert(r[i] == a[i - 1] && r[j] == a[j - 1]);
            }
        }
        assert forall|i: int| 0 <= i < r.len() implies r[i].diff != 0 by {
            if i < p {
                assert(d.contains(a[i]));
            } else if i > p {
                assert(r[i] == a[i - 1]);
                assert(d.contains(a[i - 1]));
            } else {
                assert(u == s[s.len() - 1]);
            }
        }
        assert(apply_order(s) == r);
    } else {
        assert(apply_order(s) =~= s);
    }
}

/// Sorts `updates` stably into application order.
pub fn sort_for_apply(updates: Vec<StateUpdate>) -> (r: Vec<StateUpdate>)
    ensures
        views(r@) == apply_order(views(updates@)),
        sorted_for_apply(views(r@)),
        views(r@).to_multiset() == views(updates@).to_multiset(),
{
    let ghost s = views(updates@);
    let mut rest = updates;
    let mut acc: Vec<StateUpdate> = Vec::new();
    let n = rest.len();
    let mut i: usize = 0;
    assert(views(acc@) =~= apply_order(s.take(0)));
    while i < n
        invariant
            n == s.len(),
            i <= n,
            views(rest@) == s.skip(i as int),
            rest@.len() == n - i,
            views(acc@) == apply_order(s.take(i as int)),
        decreases n - i,
    {
        let ghost before_rest = rest@;
        let u = rest.remove(0);
        proof {
            lemma_views_remove(before_rest, 0);
        }
        assert(u@ == views(before_rest)[0]);
        assert(u@ == s[i as int]);
        assert(s.take(i as int + 1).drop_last() =~= s.take(i as int));
        assert(views(rest@) =~= s.skip(i as int + 1));
        let ghost va = views(acc@);
        let mut j: usize = acc.len();
        assert(va.take(j as int) =~= va);
        while j > 0 && !update_le(&acc[j - 1], &u)
            invariant
                va == views(acc@),
                j <= acc@.len(),
                insert_pos(va, u@) == insert_pos(va.take(j as int), u@),
            decreases j,
        {
            assert(va.take(j as int).drop_last() =~= va.take(j - 1));
            assert(va.take(j as int).last() == va[j - 1]);
            j = j - 1;
        }
        assert(va.take(0) =~= Seq::<UpdateView>::empty());
        assert(j > 0 ==> va.take(j as int).last() == va[j - 1]);
        acc.insert(j, u);
        assert(views(acc@) =~= va.insert(j as int, u@));
        i = i + 1;
    }
    assert(s.take(n as int) =~= s);
    proof {
        lemma_apply_order(s);
    }
    acc
}

/// `s` with every position replaced by `ts`.
pub open spec fn restamp(s: Seq<UpdateView>, ts: u64) -> Seq<UpdateView> {
    s.map_values(|u: UpdateView| UpdateView { kind: u.kind, ts, diff: u.diff })
}

/// Replaces the position of every update with `ts`.
pub fn restamp_updates(updates: Vec<StateUpdate>, ts: u64) -> (r: Vec<StateUpdate>)
    ensures
        views(r@) == restamp(views(updates@), ts),
{
    let ghost s = views(updates@);
    let mut rest = updates;
    let mut acc: Vec<StateUpdate> = Vec::new();
    let n = rest.len();
    let mut i: usize = 0;
    assert(views(acc@) =~= restamp(s.take(0), ts));
    while i < n
        invariant
            n == s.len(),
            i <= n,
            views(rest@) == s.skip(i as int),
            rest@.len() == n - i,
            views(acc@) == restamp(s.take(i as int), ts),
        decreases n - i,
    {
        let ghost before_rest = rest@;
        let u = rest.remove(0);
        proof {
            lemma_views_remove(before_rest, 0);
        }
        assert(u@ == views(before_rest)[0]);
        assert(views(rest@) =~= s.skip(i as int + 1));
        let ghost before_acc = acc@;
        acc.push(StateUpdate { kind: u.kind, ts, diff: u.diff });
        assert(s.take(i as int + 1) =~= s.take(i as int).push(s[i as int]));
        assert(views(acc@) =~= views(before_acc).push(UpdateView { kind: s[i as int].kind, ts, diff: s[i as int].diff }));
        assert(restamp(s.take(i as int + 1), ts) =~= restamp(s.take(i as int), ts).push(UpdateView { kind: s[i as int].kind, ts, diff: s[i as int].diff }));
        i = i + 1;
    }
    assert(s.take(n as int) =~= s);
    acc
}

} // verus!

use vstd::prelude::*;

use crate::consolidate::{consolidate_updates, consolidation, restamp, restamp_updates, unit_diffs};
use crate::error::Version;
use crate::update::{clone_update, views, StateUpdate, UpdateView};

verus! {

/// A conditional append found the shard's upper elsewhere than expected.
#[derive(Debug, Clone, Copy, PartialEq, Eq, Structural)]
pub struct UpperMismatch {
    pub expected: u64,
    pub current: u64,
}

/// An append-only, totally ordered log shard held in memory.
///
/// Every update lies below `upper`; `since` bounds from below the positions
/// that reads may choose; `applier_version` is the version of the code that
/// last wrote to the shard.
pub struct LogShard {
    pub updates: Vec<StateUpdate>,
    pub upper: u64,
    pub since: u64,
    pub applier_version: Option<Version>,
}

/// The mathematical value of a [`LogShard`].
pub struct LogView {
    pub updates: Seq<UpdateView>,
    pub upper: u64,
    pub since: u64,
    pub applier_version: Option<Version>,
}

impl View for LogShard {
    type V = LogView;

    open spec fn view(&self) -> LogView {
        LogView {
            updates: views(self.updates@),
            upper: self.upper,
            since: self.since,
            applier_version: self.applier_version,
        }
    }
}

/// The updates of `s` at or after position `from`.
pub open spec fn at_or_after(s: Seq<UpdateView>, from: u64) -> Seq<UpdateView> {
    s.filter(|u: UpdateView| u.ts >= from)
}

/// The updates of `s` at or before position `as_of`.
pub open spec fn at_or_before(s: Seq<UpdateView>, as_of: u64) -> Seq<UpdateView> {
    s.filter(|u: UpdateView| u.ts <= as_of)
}

/// Every position of `s` lies in `[lo, hi)`.
pub open spec fn within(s: Seq<UpdateView>, lo: u64, hi: u64) -> bool {
    forall|i: int| 0 <= i < s.len() ==> lo <= #[trigger] s[i].ts < hi
}

/// The outcome of a conditional append of `updates` that expects the upper at
/// `expected` and moves it to `new_upper`.
pub open spec fn append_outcome(
    l: LogView,
    updates: Seq<UpdateView>,
    expected: u64,
    new_upper: u64,
    version: Version,
) -> Result<LogView, UpperMismatch> {
    if l.upper == expected {
        Ok(
            LogView {
                updates: l.updates + updates,
                upper: new_upper,
                since: l.since,
                applier_version: Some(version),
            },
        )
    } else {
        Err(UpperMismatch { expected, current: l.upper })
    }
}

/// The consolidated contents of `l` as of position `as_of`, all at `as_of`.
pub open spec fn snapshot_at(l: LogView, as_of: u64) -> Seq<UpdateView> {
    consolidation(restamp(at_or_before(l.updates, as_of), as_of))
}

impl LogShard {
    pub open spec fn wf(&self) -> bool {
        &&& within(views(self.updates@), 0, self.upper)
        &&& unit_diffs(views(self.updates@))
        &&& self.updates@.len() < i64::MAX
        &&& self.since <= self.upper
    }

    /// A new, empty shard.
    pub fn new() -> (r: LogShard)
        ensures
            r.wf(),
            r@ == (LogView { updates: Seq::empty(), upper: 0, since: 0, applier_version: None }),
    {
        let r = LogShard { updates: Vec::new(), upper: 0, since: 0, applier_version: None };
        assert(views(r.updates@) =~= Seq::empty());
        r
    }

    /// The current upper.
    pub fn fetch_recent_upper(&self) -> (r: u64)
        ensures
            r == self.upper,
    {
        self.upper
    }

    /// Appends `updates` and moves the upper to `new_upper` if and only if the
    /// upper is `expected`.
    pub fn compare_and_append(
        &mut self,
        updates: Vec<StateUpdate>,
        expected: u64,
        new_upper: u64,
        version: Version,
    ) -> (r: Result<(), UpperMismatch>)
        requires
            old(self).wf(),
            expected < new_upper,
            within(views(updates@), expected, new_upper),
            unit_diffs(views(updates@)),
            old(self).updates@.len() + updates@.len() < i64::MAX,
        ensures
            final(self).wf(),
            match append_outcome(old(self)@, views(updates@), expected, new_upper, version) {
                Ok(l) => r is Ok && final(self)@ == l,
                Err(m) => r == Err::<(), UpperMismatch>(m) && final(self)@ == old(self)@,
            },
    {
        if self.upper != expected {
            return Err(UpperMismatch { expected, current: self.upper });
        }
        let ghost before = views(self.updates@);
        let mut rest = updates;
        let ghost added = views(rest@);
        let n = rest.len();
        let mut i: usize = 0;
        while i < n
            invariant
                n == added.len(),
                i <= n,
                views(rest@) == added.skip(i as int),
                rest@.len() == n - i,
                views(self.updates@) == before + added.take(i as int),
                self.updates@.len() == before.len() + i,
                self.upper == old(self).upper,
                self.since == old(self).since,
                self.applier_version == old(self).applier_version,
            decreases n - i,
        {
            let ghost r0 = rest@;
            let u = rest.remove(0);
            proof {
                crate::update::lemma_views_remove(r0, 0);
            }
            assert(u@ == views(r0)[0]);
            assert(views(rest@) =~= added.skip(i as int + 1));
            let ghost s0 = self.updates@;
            self.updates.push(u);
            assert(views(self.updates@) =~= views(s0).push(u@));
            assert(added.take(i as int + 1) =~= added.take(i as int).push(added[i as int]));
            assert(views(self.updates@) =~= before + added.take(i as int + 1));
            i = i + 1;
        }
        assert(added.take(n as int) =~= added);
        assert(views(self.updates@) == before + added);
        assert forall|k: int| 0 <= k < views(self.updates@).len() implies 0 <= #[trigger] views(
            self.updates@,
        )[k].ts < new_upper && -1 <= views(self.updates@)[k].diff <= 1 by {
            if k < before.len() {
                assert(views(self.updates@)[k] == before[k]);
            } else {
                assert(views(self.updates@)[k] == added[k - before.len()]);
            }
        }
        self.upper = new_upper;
        self.applier_version = Some(version);
        Ok(())
    }

    /// Advances `since` to `new_since`, if that is an advance and not past the
    /// upper.
    pub fn downgrade_since(&mut self, new_since: u64)
        requires
            old(self).wf(),
        ensures
            final(self).wf(),
            final(self)@ == (LogView {
                since: if old(self).since < new_since && new_since <= old(self).upper {
                    new_since
                } else {
                    old(self).since
                },
                ..old(self)@
            }),
    {
        if self.since < new_since && new_since <= self.upper {
            self.since = new_since;
        }
    }

    /// The updates at or after position `from`, in log order.
    pub fn listen(&self, from: u64) -> (r: Vec<StateUpdate>)
        ensures
            views(r@) == at_or_after(self@.updates, from),
            r@.len() <= self.updates@.len(),
    {
        let ghost s = views(self.updates@);
        let ghost pred = |u: UpdateView| u.ts >= from;
        let mut r: Vec<StateUpdate> = Vec::new();
        let mut i: usize = 0;
        assert(s.take(0) =~= Seq::<UpdateView>::empty());
        proof {
            reveal(Seq::filter);
        }
        while i < self.updates.len()
            invariant
                s == views(self.updates@),
                pred == (|u: UpdateView| u.ts >= from),
                i <= self.updates@.len(),
                views(r@) == s.take(i as int).filter(pred),
                r@.len() <= i,
            decreases self.updates@.len() - i,
        {
            assert(s.take(i as int + 1).drop_last() =~= s.take(i as int));
            assert(s.take(i as int + 1).last() == self.updates@[i as int]@);
            proof {
                s.take(i as int).lemma_filter_push(s[i as int], pred);
                assert(s.take(i as int + 1) =~= s.take(i as int).push(s[i as int]));
            }
            if self.updates[i].ts >= from {
                let ghost r0 = r@;
                r.push(clone_update(&self.updates[i]));
                assert(views(r@) =~= views(r0).push(self.updates@[i as int]@));
            }
            i = i + 1;
        }
        assert(s.take(i as int) =~= s);
        r
    }

    /// The updates at or before position `as_of`, in log order.
    fn read_through(&self, as_of: u64) -> (r: Vec<StateUpdate>)
        requires
            self.wf(),
        ensures
            views(r@) == at_or_before(self@.updates, as_of),
            unit_diffs(views(r@)),
            r@.len() <= self.updates@.len(),
    {
        let ghost s = views(self.updates@);
        let ghost pred = |u: UpdateView| u.ts <= as_of;
        let mut r: Vec<StateUpdate> = Vec::new();
        let mut i: usize = 0;
        assert(s.take(0) =~= Seq::<UpdateView>::empty());
        proof {
            reveal(Seq::filter);
        }
        while i < self.updates.len()
            invariant
                s == views(self.updates@),
                pred == (|u: UpdateView| u.ts <= as_of),
                i <= self.updates@.len(),
                views(r@) == s.take(i as int).filter(pred),
                unit_diffs(views(r@)),
                unit_diffs(s),
                r@.len() <= i,
            decreases self.updates@.len() - i,
        {
            assert(s.take(i as int + 1).drop_last() =~= s.take(i as int));
            assert(s.take(i as int + 1).last() == self.updates@[i as int]@);
            proof {
                s.take(i as int).lemma_filter_push(s[i as int], pred);
                assert(s.take(i as int + 1) =~= s.take(i as int).push(s[i as int]));
            }
            if self.updates[i].ts <= as_of {
                let ghost r0 = r@;
                r.push(clone_update(&self.updates[i]));
                assert(views(r@) =~= views(r0).push(self.updates@[i as int]@));
            }
            i = i + 1;
        }
        assert(s.take(i as int) =~= s);
        r
    }

    /// The consolidated contents as of position `as_of`, all at `as_of`.
    pub fn snapshot_and_fetch(&self, as_of: u64) -> (r: Vec<StateUpdate>)
        requires
            self.wf(),
        ensures
            views(r@) == snapshot_at(self@, as_of),
    {
        let upto = self.read_through(as_of);
        let stamped = restamp_updates(upto, as_of);
        assert(unit_diffs(views(stamped@))) by {
            assert forall|k: int| 0 <= k < views(stamped@).len() implies -1 <= #[trigger] views(
                stamped@,
            )[k].diff <= 1 by {
                assert(views(stamped@)[k].diff == views(upto@)[k].diff);
            }
        }
        consolidate_updates(stamped)
    }
}

/// Compare-and-append is atomic: of two appends that both expect the current
/// upper, exactly the first succeeds, and the second is told the upper that the
/// first wrote.
pub proof fn lemma_compare_and_append_exclusive(
    l: LogView,
    a: Seq<UpdateView>,
    b: Seq<UpdateView>,
    new_upper: u64,
    version: Version,
)
    requires
        l.upper < new_upper,
    ensures
        append_outcome(l, a, l.upper, new_upper, version) is Ok,
        append_outcome(append_outcome(l, a, l.upper, new_upper, version).unwrap(), b, l.upper, new_upper, version)
            == Err::<LogView, UpperMismatch>(UpperMismatch { expected: l.upper, current: new_upper }),
{
}

} // verus!

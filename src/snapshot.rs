use vstd::prelude::*;

use crate::error::Violation;
use crate::update::{views, CollectionType, KindView, StateUpdate, StateUpdateKind, UpdateView};

verus! {

/// The map that a sequence of key/value pairs denotes, later pairs winning.
pub open spec fn to_map<K, V>(s: Seq<(K, V)>) -> Map<K, V>
    decreases s.len(),
{
    if s.len() == 0 {
        Map::empty()
    } else {
        to_map(s.drop_last()).insert(s.last().0, s.last().1)
    }
}

/// No key occurs twice.
pub open spec fn unique_keys<K, V>(s: Seq<(K, V)>) -> bool {
    forall|i: int, j: int| 0 <= i < j < s.len() ==> s[i].0 != s[j].0
}

pub proof fn lemma_to_map_get<K, V>(s: Seq<(K, V)>)
    requires
        unique_keys(s),
    ensures
        forall|k: K| to_map(s).contains_key(k) <==> exists|i: int| 0 <= i < s.len() && s[i].0 == k,
        forall|i: int| 0 <= i < s.len() ==> to_map(s)[#[trigger] s[i].0] == s[i].1,
    decreases s.len(),
{
    if s.len() > 0 {
        let d = s.drop_last();
        assert(forall|i: int| 0 <= i < d.len() ==> d[i] == s[i]);
        lemma_to_map_get(d);
        assert forall|k: K| to_map(s).contains_key(k) implies exists|i: int|
            0 <= i < s.len() && s[i].0 == k by {
            assert(to_map(s) == to_map(d).insert(s.last().0, s.last().1));
            if k != s.last().0 {
                assert(to_map(d).contains_key(k));
                let i = choose|i: int| 0 <= i < d.len() && d[i].0 == k;
                assert(s[i].0 == k);
            } else {
                assert(s[s.len() - 1].0 == k);
            }
        }
        assert forall|k: K| (exists|i: int| 0 <= i < s.len() && s[i].0 == k) implies to_map(
            s,
        ).contains_key(k) by {
            let i = choose|i: int| 0 <= i < s.len() && s[i].0 == k;
            if i < s.len() - 1 {
                assert(d[i].0 == k);
            }
        }
        assert forall|i: int| 0 <= i < s.len() implies to_map(s)[#[trigger] s[i].0] == s[i].1 by {
            if i < s.len() - 1 {
                assert(s[i].0 != s[s.len() - 1].0);
                assert(d[i] == s[i]);
            }
        }
    }
}

pub proof fn lemma_to_map_remove<K, V>(s: Seq<(K, V)>, i: int)
    requires
        unique_keys(s),
        0 <= i < s.len(),
    ensures
        unique_keys(s.remove(i)),
        to_map(s.remove(i)) == to_map(s).remove(s[i].0),
    decreases s.len(),
{
    let d = s.drop_last();
    assert(forall|m: int| 0 <= m < d.len() ==> d[m] == s[m]);
    assert(unique_keys(d));
    let r = s.remove(i);
    assert forall|a: int, b: int| 0 <= a < b < r.len() implies r[a].0 != r[b].0 by {
        let a2 = if a < i { a } else { a + 1 };
        let b2 = if b < i { b } else { b + 1 };
        assert(r[a] == s[a2] && r[b] == s[b2]);
    }
    if i == s.len() - 1 {
        assert(r =~= d);
        lemma_to_map_get(d);
        assert(!to_map(d).contains_key(s.last().0)) by {
            if to_map(d).contains_key(s.last().0) {
                let m = choose|m: int| 0 <= m < d.len() && d[m].0 == s.last().0;
                assert(s[m].0 != s[s.len() - 1].0);
            }
        }
        assert(to_map(s).remove(s[i].0) =~= to_map(d));
    } else {
        lemma_to_map_remove(d, i);
        assert(r =~= d.remove(i).push(s.last()));
        assert(r.drop_last() =~= d.remove(i));
        assert(s[i].0 != s[s.len() - 1].0);
        assert(to_map(r) =~= to_map(s).remove(s[i].0));
    }
}

/// The mathematical value of a [`Snapshot`]: one map for the key/value
/// collections, keyed by collection and key, and one for the configuration.
pub struct SnapshotView {
    pub entries: Map<(CollectionType, Seq<char>), Seq<char>>,
    pub configs: Map<Seq<char>, u64>,
}

impl SnapshotView {
    pub open spec fn empty() -> SnapshotView {
        SnapshotView { entries: Map::empty(), configs: Map::empty() }
    }
}

/// Replays one update onto `m`: +1 inserts only where the key holds no live
/// value, -1 removes only the value that is live. Markers and append-only
/// payloads leave `m` unchanged.
pub open spec fn replay_step(m: SnapshotView, u: UpdateView) -> Result<SnapshotView, Violation> {
    if u.diff != 1 && u.diff != -1 {
        Err(Violation::InvalidDiff)
    } else {
        match u.kind {
            KindView::Config(k, v) => if u.diff == 1 {
                if m.configs.contains_key(k) {
                    Err(Violation::DuplicateInsert)
                } else {
                    Ok(SnapshotView { configs: m.configs.insert(k, v), ..m })
                }
            } else {
                if m.configs.contains_key(k) && m.configs[k] == v {
                    Ok(SnapshotView { configs: m.configs.remove(k), ..m })
                } else {
                    Err(Violation::MismatchedRetraction)
                }
            },
            KindView::Entry(c, k, v) => if u.diff == 1 {
                if m.entries.contains_key((c, k)) {
                    Err(Violation::DuplicateInsert)
                } else {
                    Ok(SnapshotView { entries: m.entries.insert((c, k), v), ..m })
                }
            } else {
                if m.entries.contains_key((c, k)) && m.entries[(c, k)] == v {
                    Ok(SnapshotView { entries: m.entries.remove((c, k)), ..m })
                } else {
                    Err(Violation::MismatchedRetraction)
                }
            },
            _ => Ok(m),
        }
    }
}

/// Replays `s` in order onto `m`, stopping at the first violation.
pub open spec fn replay(m: SnapshotView, s: Seq<UpdateView>) -> Result<SnapshotView, Violation>
    decreases s.len(),
{
    if s.len() == 0 {
        Ok(m)
    } else {
        match replay(m, s.drop_last()) {
            Ok(m2) => replay_step(m2, s.last()),
            Err(e) => Err(e),
        }
    }
}

/// The live key/value pairs of the catalog at one point in time.
pub struct Snapshot {
    pub entries: Vec<(CollectionType, String, String)>,
    pub configs: Vec<(String, u64)>,
}

pub open spec fn entry_pairs(s: Seq<(CollectionType, String, String)>) -> Seq<
    ((CollectionType, Seq<char>), Seq<char>),
> {
    s.map_values(|e: (CollectionType, String, String)| ((e.0, e.1@), e.2@))
}

pub open spec fn config_pairs(s: Seq<(String, u64)>) -> Seq<(Seq<char>, u64)> {
    s.map_values(|e: (String, u64)| (e.0@, e.1))
}

impl View for Snapshot {
    type V = SnapshotView;

    open spec fn view(&self) -> SnapshotView {
        SnapshotView {
            entries: to_map(entry_pairs(self.entries@)),
            configs: to_map(config_pairs(self.configs@)),
        }
    }
}

/// Whether `r` is the exec counterpart of the replay result `spec`.
pub open spec fn replay_result(r: Result<Snapshot, Violation>, spec: Result<SnapshotView, Violation>) -> bool {
    match (r, spec) {
        (Ok(s), Ok(m)) => s.wf() && s@ == m,
        (Err(e), Err(e2)) => e == e2,
        _ => false,
    }
}

impl Snapshot {
    pub open spec fn wf(&self) -> bool {
        unique_keys(entry_pairs(self.entries@)) && unique_keys(config_pairs(self.configs@))
    }

    /// An empty snapshot.
    pub fn empty() -> (r: Snapshot)
        ensures
            r.wf(),
            r@ == SnapshotView::empty(),
    {
        let r = Snapshot { entries: Vec::new(), configs: Vec::new() };
        assert(entry_pairs(r.entries@) =~= Seq::empty());
        assert(config_pairs(r.configs@) =~= Seq::empty());
        r
    }

    fn find_entry(&self, collection: CollectionType, key: &String) -> (r: Option<usize>)
        requires
            self.wf(),
        ensures
            match r {
                Some(i) => i < self.entries@.len() && entry_pairs(self.entries@)[i as int].0 == (
                collection, key@),
                None => !self@.entries.contains_key((collection, key@)),
            },
    {
        proof {
            lemma_to_map_get(entry_pairs(self.entries@));
        }
        let mut i: usize = 0;
        while i < self.entries.len()
            invariant
                i <= self.entries@.len(),
                forall|m: int| 0 <= m < i ==> entry_pairs(self.entries@)[m].0 != (collection, key@),
            decreases self.entries@.len() - i,
        {
            if self.entries[i].0 == collection && self.entries[i].1.eq(key) {
                return Some(i);
            }
            i = i + 1;
        }
        None
    }

    fn find_config(&self, key: &String) -> (r: Option<usize>)
        requires
            self.wf(),
        ensures
            match r {
                Some(i) => i < self.configs@.len() && config_pairs(self.configs@)[i as int].0
                    == key@,
                None => !self@.configs.contains_key(key@),
            },
    {
        proof {
            lemma_to_map_get(config_pairs(self.configs@));
        }
        let mut i: usize = 0;
        while i < self.configs.len()
            invariant
                i <= self.configs@.len(),
                forall|m: int| 0 <= m < i ==> config_pairs(self.configs@)[m].0 != key@,
            decreases self.configs@.len() - i,
        {
            if self.configs[i].0.eq(key) {
                return Some(i);
            }
            i = i + 1;
        }
        None
    }

    /// The live value of `key` in `collection`.
    pub fn get(&self, collection: CollectionType, key: &String) -> (r: Option<String>)
        requires
            self.wf(),
        ensures
            match r {
                Some(v) => self@.entries.contains_key((collection, key@)) && self@.entries[(
                collection,
                key@,
                )] == v@,
                None => !self@.entries.contains_key((collection, key@)),
            },
    {
        proof {
            lemma_to_map_get(entry_pairs(self.entries@));
        }
        match self.find_entry(collection, key) {
            Some(i) => {
                assert(entry_pairs(self.entries@)[i as int] == ((self.entries@[i as int].0, self.entries@[i as int].1@), self.entries@[i as int].2@));
                Some(self.entries[i].2.clone())
            },
            None => None,
        }
    }

    /// The live value of configuration `key`.
    pub fn get_config(&self, key: &String) -> (r: Option<u64>)
        requires
            self.wf(),
        ensures
            match r {
                Some(v) => self@.configs.contains_key(key@) && self@.configs[key@] == v,
                None => !self@.configs.contains_key(key@),
            },
    {
        proof {
            lemma_to_map_get(config_pairs(self.configs@));
        }
        match self.find_config(key) {
            Some(i) => Some(self.configs[i].1),
            None => None,
        }
    }

    /// The number of live configuration values.
    pub fn config_count(&self) -> (r: usize)
        requires
            self.wf(),
        ensures
            r == self@.configs.len(),
    {
        proof {
            lemma_to_map_len(config_pairs(self.configs@));
        }
        self.configs.len()
    }

    /// The number of live key/value entries, configuration excluded.
    pub fn len(&self) -> (r: usize)
        requires
            self.wf(),
        ensures
            r == self@.entries.len(),
    {
        proof {
            lemma_to_map_len(entry_pairs(self.entries@));
        }
        self.entries.len()
    }

    /// Replays one update onto this snapshot.
    pub fn apply(&mut self, u: &StateUpdate) -> (r: Result<(), Violation>)
        requires
            old(self).wf(),
        ensures
            final(self).wf(),
            r is Err ==> final(self)@ == old(self)@,
            match replay_step(old(self)@, u@) {
                Ok(m) => r is Ok && final(self)@ == m,
                Err(e) => r == Err::<(), Violation>(e),
            },
    {
        proof {
            lemma_to_map_get(entry_pairs(self.entries@));
            lemma_to_map_get(config_pairs(self.configs@));
        }
        if u.diff != 1 && u.diff != -1 {
            return Err(Violation::InvalidDiff);
        }
        match &u.kind {
            StateUpdateKind::Config(k, v) => {
                let found = self.find_config(k);
                if u.diff == 1 {
                    match found {
                        Some(_) => Err(Violation::DuplicateInsert),
                        None => {
                            let ghost before = config_pairs(self.configs@);
                            proof {
                                lemma_to_map_get(before);
                            }
                            self.configs.push((k.clone(), *v));
                            assert(config_pairs(self.configs@) =~= before.push((k@, *v)));
                            assert(config_pairs(self.configs@).drop_last() =~= before);
                            assert forall|a: int, b: int|
                                0 <= a < b < config_pairs(self.configs@).len() implies config_pairs(
                                self.configs@,
                            )[a].0 != config_pairs(self.configs@)[b].0 by {
                                if b == before.len() {
                                    assert(!to_map(before).contains_key(k@));
                                    assert(before[a].0 == config_pairs(self.configs@)[a].0);
                                }
                            }
                            Ok(())
                        },
                    }
                } else {
                    match found {
                        Some(i) => {
                            let ghost before = config_pairs(self.configs@);
                            proof {
                                lemma_to_map_get(before);
                            }
                            assert(before[i as int] == (self.configs@[i as int].0@, self.configs@[i as int].1));
                            if self.configs[i].1 == *v {
                                self.configs.remove(i);
                                proof {
                                    lemma_to_map_remove(before, i as int);
                                }
                                assert(config_pairs(self.configs@) =~= before.remove(i as int));
                                Ok(())
                            } else {
                                Err(Violation::MismatchedRetraction)
                            }
                        },
                        None => Err(Violation::MismatchedRetraction),
                    }
                }
            },
            StateUpdateKind::Entry(c, k, v) => {
                let found = self.find_entry(*c, k);
                if u.diff == 1 {
                    match found {
                        Some(_) => Err(Violation::DuplicateInsert),
                        None => {
                            let ghost before = entry_pairs(self.entries@);
                            proof {
                                lemma_to_map_get(before);
                            }
                            self.entries.push((*c, k.clone(), v.clone()));
                            assert(entry_pairs(self.entries@) =~= before.push(((*c, k@), v@)));
                            assert(entry_pairs(self.entries@).drop_last() =~= before);
                            assert forall|a: int, b: int|
                                0 <= a < b < entry_pairs(self.entries@).len() implies entry_pairs(
                                self.entries@,
                            )[a].0 != entry_pairs(self.entries@)[b].0 by {
                                if b == before.len() {
                                    assert(!to_map(before).contains_key((*c, k@)));
                                    assert(before[a].0 == entry_pairs(self.entries@)[a].0);
                                }
                            }
                            Ok(())
                        },
                    }
                } else {
                    match found {
                        Some(i) => {
                            let ghost before = entry_pairs(self.entries@);
                            proof {
                                lemma_to_map_get(before);
                            }
                            assert(before[i as int] == ((self.entries@[i as int].0, self.entries@[i as int].1@), self.entries@[i as int].2@));
                            if self.entries[i].2.eq(v) {
                                self.entries.remove(i);
                                proof {
                                    lemma_to_map_remove(before, i as int);
                                }
                                assert(entry_pairs(self.entries@) =~= before.remove(i as int));
                                Ok(())
                            } else {
                                Err(Violation::MismatchedRetraction)
                            }
                        },
                        None => Err(Violation::MismatchedRetraction),
                    }
                }
            },
            _ => Ok(()),
        }
    }
}

/// The number of keys of a map built from pairs with distinct keys.
pub proof fn lemma_to_map_len<K, V>(s: Seq<(K, V)>)
    requires
        unique_keys(s),
    ensures
        to_map(s).dom().finite(),
        to_map(s).len() == s.len(),
    decreases s.len(),
{
    if s.len() > 0 {
        let d = s.drop_last();
        assert(forall|m: int| 0 <= m < d.len() ==> d[m] == s[m]);
        lemma_to_map_len(d);
        lemma_to_map_get(d);
        assert(!to_map(d).contains_key(s.last().0)) by {
            if to_map(d).contains_key(s.last().0) {
                let m = choose|m: int| 0 <= m < d.len() && d[m].0 == s.last().0;
                assert(s[m].0 != s[s.len() - 1].0);
            }
        }
    }
}

/// Materializes a snapshot by replaying `updates` in order onto an empty one.
pub fn materialize(updates: &Vec<StateUpdate>) -> (r: Result<Snapshot, Violation>)
    ensures
        replay_result(r, replay(SnapshotView::empty(), views(updates@))),
{
    let mut snapshot = Snapshot::empty();
    let mut i: usize = 0;
    while i < updates.len()
        invariant
            i <= updates@.len(),
            snapshot.wf(),
            replay(SnapshotView::empty(), views(updates@).take(i as int)) == Ok::<SnapshotView, Violation>(
                snapshot@,
            ),
        decreases updates@.len() - i,
    {
        assert(views(updates@).take(i as int + 1).drop_last() =~= views(updates@).take(i as int));
        assert(views(updates@).take(i as int + 1).last() == updates@[i as int]@);
        let step = snapshot.apply(&updates[i]);
        match step {
            Ok(()) => {},
            Err(e) => {
                proof {
                    lemma_replay_stops(views(updates@), i as int + 1);
                }
                return Err(e);
            },
        }
        i = i + 1;
    }
    assert(views(updates@).take(i as int) =~= views(updates@));
    Ok(snapshot)
}

/// Once replay fails on a prefix, it fails with the same violation on the whole.
pub proof fn lemma_replay_stops(s: Seq<UpdateView>, n: int)
    requires
        0 <= n <= s.len(),
        replay(SnapshotView::empty(), s.take(n)) is Err,
    ensures
        replay(SnapshotView::empty(), s) == replay(SnapshotView::empty(), s.take(n)),
    decreases s.len() - n,
{
    if n < s.len() {
        assert(s.take(n + 1).drop_last() =~= s.take(n));
        lemma_replay_stops(s, n + 1);
    } else {
        assert(s.take(n) =~= s);
    }
}

} // verus!

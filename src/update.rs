use vstd::prelude::*;

verus! {

/// The logical key/value collections of the catalog that materialize into a
/// snapshot.
#[derive(Debug, Clone, Copy, PartialEq, Eq, Structural)]
pub enum CollectionType {
    Cluster,
    ClusterReplica,
    Comment,
    Database,
    DefaultPrivilege,
    IdAllocator,
    IntrospectionSourceIndex,
    Item,
    Role,
    Schema,
    Setting,
    SystemConfiguration,
    SystemObjectMapping,
    SystemPrivilege,
    StorageCollectionMetadata,
    UnfinalizedShard,
    PersistTxnShard,
}

/// The payload of one logged update.
#[derive(Debug, Clone)]
pub enum StateUpdateKind {
    /// A scalar configuration value.
    Config(String, u64),
    /// A writer-generation marker.
    Epoch(u64),
    /// An append-only audit event, by its encoded key.
    AuditLog(String),
    /// An append-only storage usage event, by its encoded key.
    StorageUsage(String),
    /// A key and a value of a key/value collection.
    Entry(CollectionType, String, String),
}

/// The mathematical value of a [`StateUpdateKind`].
pub enum KindView {
    Config(Seq<char>, u64),
    Epoch(u64),
    AuditLog(Seq<char>),
    StorageUsage(Seq<char>),
    Entry(CollectionType, Seq<char>, Seq<char>),
}

impl View for StateUpdateKind {
    type V = KindView;

    open spec fn view(&self) -> KindView {
        match self {
            StateUpdateKind::Config(k, v) => KindView::Config(k@, *v),
            StateUpdateKind::Epoch(e) => KindView::Epoch(*e),
            StateUpdateKind::AuditLog(k) => KindView::AuditLog(k@),
            StateUpdateKind::StorageUsage(k) => KindView::StorageUsage(k@),
            StateUpdateKind::Entry(c, k, v) => KindView::Entry(*c, k@, v@),
        }
    }
}

/// Returns a copy of `kind` with the same view.
pub fn clone_kind(kind: &StateUpdateKind) -> (r: StateUpdateKind)
    ensures
        r@ == kind@,
{
    match kind {
        StateUpdateKind::Config(k, v) => StateUpdateKind::Config(k.clone(), *v),
        StateUpdateKind::Epoch(e) => StateUpdateKind::Epoch(*e),
        StateUpdateKind::AuditLog(k) => StateUpdateKind::AuditLog(k.clone()),
        StateUpdateKind::StorageUsage(k) => StateUpdateKind::StorageUsage(k.clone()),
        StateUpdateKind::Entry(c, k, v) => StateUpdateKind::Entry(*c, k.clone(), v.clone()),
    }
}

/// Whether two payloads are equal.
pub fn kind_eq(a: &StateUpdateKind, b: &StateUpdateKind) -> (r: bool)
    ensures
        r == (a@ == b@),
{
    match a {
        StateUpdateKind::Config(k1, v1) => match b {
            StateUpdateKind::Config(k2, v2) => *v1 == *v2 && k1.eq(k2),
            _ => false,
        },
        StateUpdateKind::Epoch(e1) => match b {
            StateUpdateKind::Epoch(e2) => *e1 == *e2,
            _ => false,
        },
        StateUpdateKind::AuditLog(k1) => match b {
            StateUpdateKind::AuditLog(k2) => k1.eq(k2),
            _ => false,
        },
        StateUpdateKind::StorageUsage(k1) => match b {
            StateUpdateKind::StorageUsage(k2) => k1.eq(k2),
            _ => false,
        },
        StateUpdateKind::Entry(c1, k1, v1) => match b {
            StateUpdateKind::Entry(c2, k2, v2) => *c1 == *c2 && k1.eq(k2) && v1.eq(v2),
            _ => false,
        },
    }
}

/// One logged update: a payload, the log position it was written at, and its
/// multiplicity (+1 inserts, -1 retracts).
#[derive(Debug, Clone)]
pub struct StateUpdate {
    pub kind: StateUpdateKind,
    pub ts: u64,
    pub diff: i64,
}

/// Returns a copy of `u` with the same view.
pub fn clone_update(u: &StateUpdate) -> (r: StateUpdate)
    ensures
        r@ == u@,
{
    StateUpdate { kind: clone_kind(&u.kind), ts: u.ts, diff: u.diff }
}

impl View for StateUpdate {
    type V = UpdateView;

    open spec fn view(&self) -> UpdateView {
        UpdateView { kind: self.kind@, ts: self.ts, diff: self.diff as int }
    }
}

/// The mathematical value of a [`StateUpdate`].
pub struct UpdateView {
    pub kind: KindView,
    pub ts: u64,
    pub diff: int,
}

/// The views of a sequence of updates.
pub open spec fn views(s: Seq<StateUpdate>) -> Seq<UpdateView> {
    s.map_values(|u: StateUpdate| u@)
}

pub proof fn lemma_views_remove(s: Seq<StateUpdate>, i: int)
    requires
        0 <= i < s.len(),
    ensures
        views(s.remove(i)) == views(s).remove(i),
{
    assert(views(s.remove(i)) =~= views(s).remove(i));
}

} // verus!

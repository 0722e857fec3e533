use vstd::prelude::*;
use vstd::string::StrSliceExecFns;

use crate::update::{CollectionType, KindView, StateUpdateKind};

verus! {

/// Strict lexicographic order on character sequences, by code point.
pub open spec fn chars_lt(a: Seq<char>, b: Seq<char>) -> bool
    decreases a.len(),
{
    if a.len() == 0 {
        b.len() > 0
    } else if b.len() == 0 {
        false
    } else if a[0] != b[0] {
        (a[0] as int) < (b[0] as int)
    } else {
        chars_lt(a.drop_first(), b.drop_first())
    }
}

pub proof fn lemma_chars_lt_irreflexive(a: Seq<char>)
    ensures
        !chars_lt(a, a),
    decreases a.len(),
{
    if a.len() > 0 {
        lemma_chars_lt_irreflexive(a.drop_first());
    }
}

pub proof fn lemma_chars_lt_transitive(a: Seq<char>, b: Seq<char>, c: Seq<char>)
    requires
        chars_lt(a, b),
        chars_lt(b, c),
    ensures
        chars_lt(a, c),
    decreases a.len(),
{
    if a.len() > 0 && b.len() > 0 && c.len() > 0 {
        if a[0] == b[0] && b[0] == c[0] {
            lemma_chars_lt_transitive(a.drop_first(), b.drop_first(), c.drop_first());
        }
    }
}

pub proof fn lemma_chars_lt_total(a: Seq<char>, b: Seq<char>)
    ensures
        a == b || chars_lt(a, b) || chars_lt(b, a),
        !(chars_lt(a, b) && chars_lt(b, a)),
    decreases a.len(),
{
    if a.len() > 0 && b.len() > 0 {
        if a[0] == b[0] {
            lemma_chars_lt_total(a.drop_first(), b.drop_first());
            if a.drop_first() == b.drop_first() {
                assert(a =~= seq![a[0]] + a.drop_first());
                assert(b =~= seq![b[0]] + b.drop_first());
            }
        } else {
        }
    } else if a.len() == 0 && b.len() == 0 {
        assert(a =~= b);
    }
}

/// The rank of a collection in the payload order.
pub open spec fn collection_rank(c: CollectionType) -> int {
    match c {
        CollectionType::Cluster => 0,
        CollectionType::ClusterReplica => 1,
        CollectionType::Comment => 2,
        CollectionType::Database => 3,
        CollectionType::DefaultPrivilege => 4,
        CollectionType::IdAllocator => 5,
        CollectionType::IntrospectionSourceIndex => 6,
        CollectionType::Item => 7,
        CollectionType::Role => 8,
        CollectionType::Schema => 9,
        CollectionType::Setting => 10,
        CollectionType::SystemConfiguration => 11,
        CollectionType::SystemObjectMapping => 12,
        CollectionType::SystemPrivilege => 13,
        CollectionType::StorageCollectionMetadata => 14,
        CollectionType::UnfinalizedShard => 15,
        CollectionType::PersistTxnShard => 16,
    }
}

/// The rank of a payload's variant in the payload order.
pub open spec fn kind_rank(k: KindView) -> int {
    match k {
        KindView::Config(_, _) => 0,
        KindView::Epoch(_) => 1,
        KindView::AuditLog(_) => 2,
        KindView::StorageUsage(_) => 3,
        KindView::Entry(_, _, _) => 4,
    }
}

/// Strict total order on payloads: by variant, then field by field.
pub open spec fn kind_lt(a: KindView, b: KindView) -> bool {
    if kind_rank(a) != kind_rank(b) {
        kind_rank(a) < kind_rank(b)
    } else {
        match (a, b) {
            (KindView::Config(k1, v1), KindView::Config(k2, v2)) => chars_lt(k1, k2) || (k1 == k2
                && v1 < v2),
            (KindView::Epoch(e1), KindView::Epoch(e2)) => e1 < e2,
            (KindView::AuditLog(k1), KindView::AuditLog(k2)) => chars_lt(k1, k2),
            (KindView::StorageUsage(k1), KindView::StorageUsage(k2)) => chars_lt(k1, k2),
            (KindView::Entry(c1, k1, v1), KindView::Entry(c2, k2, v2)) => collection_rank(c1)
                < collection_rank(c2) || (c1 == c2 && (chars_lt(k1, k2) || (k1 == k2 && chars_lt(
                v1,
                v2,
            )))),
            _ => false,
        }
    }
}

proof fn lemma_collection_rank_injective(c1: CollectionType, c2: CollectionType)
    ensures
        collection_rank(c1) == collection_rank(c2) ==> c1 == c2,
{
}

/// The payload order is a strict total order.
pub proof fn lemma_kind_order(a: KindView, b: KindView, c: KindView)
    ensures
        !kind_lt(a, a),
        a == b || kind_lt(a, b) || kind_lt(b, a),
        !(kind_lt(a, b) && kind_lt(b, a)),
        kind_lt(a, b) && kind_lt(b, c) ==> kind_lt(a, c),
{
    match a {
        KindView::Config(k1, _) => {
            lemma_chars_lt_irreflexive(k1);
        },
        KindView::AuditLog(k1) => {
            lemma_chars_lt_irreflexive(k1);
        },
        KindView::StorageUsage(k1) => {
            lemma_chars_lt_irreflexive(k1);
        },
        KindView::Entry(_, k1, v1) => {
            lemma_chars_lt_irreflexive(k1);
            lemma_chars_lt_irreflexive(v1);
        },
        _ => {},
    }
    match (a, b) {
        (KindView::Config(k1, _), KindView::Config(k2, _)) => {
            lemma_chars_lt_total(k1, k2);
        },
        (KindView::AuditLog(k1), KindView::AuditLog(k2)) => {
            lemma_chars_lt_total(k1, k2);
        },
        (KindView::StorageUsage(k1), KindView::StorageUsage(k2)) => {
            lemma_chars_lt_total(k1, k2);
        },
        (KindView::Entry(c1, k1, v1), KindView::Entry(c2, k2, v2)) => {
            lemma_chars_lt_total(k1, k2);
            lemma_chars_lt_total(v1, v2);
            lemma_collection_rank_injective(c1, c2);
        },
        _ => {},
    }
    if kind_lt(a, b) && kind_lt(b, c) {
        match (a, b, c) {
            (KindView::Config(k1, _), KindView::Config(k2, _), KindView::Config(k3, _)) => {
                if chars_lt(k1, k2) && chars_lt(k2, k3) {
                    lemma_chars_lt_transitive(k1, k2, k3);
                }
            },
            (KindView::AuditLog(k1), KindView::AuditLog(k2), KindView::AuditLog(k3)) => {
                lemma_chars_lt_transitive(k1, k2, k3);
            },
            (KindView::StorageUsage(k1), KindView::StorageUsage(k2), KindView::StorageUsage(k3)) => {
                lemma_chars_lt_transitive(k1, k2, k3);
            },
            (KindView::Entry(_, k1, v1), KindView::Entry(_, k2, v2), KindView::Entry(_, k3, v3)) => {
                if chars_lt(k1, k2) && chars_lt(k2, k3) {
                    lemma_chars_lt_transitive(k1, k2, k3);
                }
                if chars_lt(v1, v2) && chars_lt(v2, v3) {
                    lemma_chars_lt_transitive(v1, v2, v3);
                }
            },
            _ => {},
        }
    }
}

/// Whether `a` comes before `b` in the code-point order.
pub fn str_lt(a: &String, b: &String) -> (r: bool)
    ensures
        r == chars_lt(a@, b@),
{
    let la = a.as_str().unicode_len();
    let lb = b.as_str().unicode_len();
    let mut i: usize = 0;
    assert(a@.skip(0) =~= a@);
    assert(b@.skip(0) =~= b@);
    while i < la && i < lb
        invariant
            la == a@.len(),
            lb == b@.len(),
            i <= la,
            i <= lb,
            chars_lt(a@, b@) == chars_lt(a@.skip(i as int), b@.skip(i as int)),
        decreases la - i,
    {
        let ca = a.as_str().get_char(i);
        let cb = b.as_str().get_char(i);
        assert(a@.skip(i as int)[0] == ca && b@.skip(i as int)[0] == cb);
        if ca != cb {
            return (ca as u32) < (cb as u32);
        }
        assert(a@.skip(i as int).drop_first() =~= a@.skip(i as int + 1));
        assert(b@.skip(i as int).drop_first() =~= b@.skip(i as int + 1));
        i = i + 1;
    }
    i < lb
}

fn collection_rank_exec(c: CollectionType) -> (r: u8)
    ensures
        r as int == collection_rank(c),
{
    match c {
        CollectionType::Cluster => 0,
        CollectionType::ClusterReplica => 1,
        CollectionType::Comment => 2,
        CollectionType::Database => 3,
        CollectionType::DefaultPrivilege => 4,
        CollectionType::IdAllocator => 5,
        CollectionType::IntrospectionSourceIndex => 6,
        CollectionType::Item => 7,
        CollectionType::Role => 8,
        CollectionType::Schema => 9,
        CollectionType::Setting => 10,
        CollectionType::SystemConfiguration => 11,
        CollectionType::SystemObjectMapping => 12,
        CollectionType::SystemPrivilege => 13,
        CollectionType::StorageCollectionMetadata => 14,
        CollectionType::UnfinalizedShard => 15,
        CollectionType::PersistTxnShard => 16,
    }
}

fn kind_rank_exec(k: &StateUpdateKind) -> (r: u8)
    ensures
        r as int == kind_rank(k@),
{
    match k {
        StateUpdateKind::Config(_, _) => 0,
        StateUpdateKind::Epoch(_) => 1,
        StateUpdateKind::AuditLog(_) => 2,
        StateUpdateKind::StorageUsage(_) => 3,
        StateUpdateKind::Entry(_, _, _) => 4,
    }
}

/// Whether payload `a` comes strictly before payload `b`.
pub fn kind_less(a: &StateUpdateKind, b: &StateUpdateKind) -> (r: bool)
    ensures
        r == kind_lt(a@, b@),
{
    let ra = kind_rank_exec(a);
    let rb = kind_rank_exec(b);
    if ra != rb {
        return ra < rb;
    }
    match a {
        StateUpdateKind::Config(k1, v1) => match b {
            StateUpdateKind::Config(k2, v2) => str_lt(k1, k2) || (k1.eq(k2) && *v1 < *v2),
            _ => false,
        },
        StateUpdateKind::Epoch(e1) => match b {
            StateUpdateKind::Epoch(e2) => *e1 < *e2,
            _ => false,
        },
        StateUpdateKind::AuditLog(k1) => match b {
            StateUpdateKind::AuditLog(k2) => str_lt(k1, k2),
            _ => false,
        },
        StateUpdateKind::StorageUsage(k1) => match b {
            StateUpdateKind::StorageUsage(k2) => str_lt(k1, k2),
            _ => false,
        },
        StateUpdateKind::Entry(c1, k1, v1) => match b {
            StateUpdateKind::Entry(c2, k2, v2) => {
                let r1 = collection_rank_exec(*c1);
                let r2 = collection_rank_exec(*c2);
                proof {
                    lemma_collection_rank_injective(*c1, *c2);
                }
                r1 < r2 || (r1 == r2 && (str_lt(k1, k2) || (k1.eq(k2) && str_lt(v1, v2))))
            },
            _ => false,
        },
    }
}

} // verus!

use vstd::prelude::*;
use crate::types::BlobView;

verus! {

/// A store's holdings after a sequence of saves, each inserting one blob
/// under one identifier.
pub open spec fn apply_saves(
    m0: Map<u128, BlobView>,
    saves: Seq<(u128, BlobView)>,
) -> Map<u128, BlobView>
    decreases saves.len(),
{
    if saves.len() == 0 {
        m0
    } else {
        apply_saves(m0.insert(saves[0].0, saves[0].1), saves.skip(1))
    }
}

/// Each save's identifier is fresh for the holdings at its own step, which
/// is what a store's save contract guarantees.
pub open spec fn saves_fresh(m0: Map<u128, BlobView>, saves: Seq<(u128, BlobView)>) -> bool
    decreases saves.len(),
{
    if saves.len() == 0 {
        true
    } else {
        !m0.contains_key(saves[0].0) && saves_fresh(
            m0.insert(saves[0].0, saves[0].1),
            saves.skip(1),
        )
    }
}

/// Two saves against one store return distinct identifiers: the second
/// save's identifier is fresh for holdings that already carry the first.
pub proof fn lemma_two_saves_distinct(
    m0: Map<u128, BlobView>,
    id1: u128,
    b1: BlobView,
    id2: u128,
    b2: BlobView,
)
    requires
        !m0.contains_key(id1),
        !m0.insert(id1, b1).contains_key(id2),
    ensures
        id1 != id2,
{
}

/// A blob saved into a store is reachable under the identifier the save
/// returned, byte for byte and field by field.
pub proof fn lemma_save_lookup(m0: Map<u128, BlobView>, id: u128, b: BlobView)
    requires
        !m0.contains_key(id),
    ensures
        m0.insert(id, b).contains_key(id),
        m0.insert(id, b)[id] == b,
{
}

/// A sequence of saves, each fresh at its own step, yields pairwise
/// distinct identifiers, none of which the store held before; afterwards
/// the store holds exactly one more blob per save, each reachable under
/// its identifier.
pub proof fn lemma_saves_distinct_and_counted(
    m0: Map<u128, BlobView>,
    saves: Seq<(u128, BlobView)>,
)
    requires
        m0.dom().finite(),
        saves_fresh(m0, saves),
    ensures
        apply_saves(m0, saves).dom().finite(),
        apply_saves(m0, saves).len() == m0.len() + saves.len(),
        forall|i: int| 0 <= i < saves.len() ==> !m0.contains_key((#[trigger] saves[i]).0),
        forall|i: int, j: int|
            0 <= i < j < saves.len() ==> (#[trigger] saves[i]).0 != (#[trigger] saves[j]).0,
        forall|i: int|
            0 <= i < saves.len() ==> apply_saves(m0, saves).contains_key(
                (#[trigger] saves[i]).0,
            ),
        forall|k: u128|
            m0.contains_key(k) ==> apply_saves(m0, saves).contains_key(k),
    decreases saves.len(),
{
    if saves.len() > 0 {
        let id0 = saves[0].0;
        let m1 = m0.insert(id0, saves[0].1);
        let rest = saves.skip(1);
        assert(m1.dom() =~= m0.dom().insert(id0));
        vstd::set::axiom_set_insert_len(m0.dom(), id0);
        lemma_saves_distinct_and_counted(m1, rest);
        assert forall|i: int| 0 <= i < saves.len() implies !m0.contains_key(
            (#[trigger] saves[i]).0,
        ) by {
            if i > 0 {
                assert(rest[i - 1] == saves[i]);
                assert(!m1.contains_key(rest[i - 1].0));
            }
        }
        assert forall|i: int, j: int| 0 <= i < j < saves.len() implies (#[trigger] saves[i]).0
            != (#[trigger] saves[j]).0 by {
            if i == 0 {
                assert(rest[j - 1] == saves[j]);
                assert(!m1.contains_key(rest[j - 1].0));
                assert(m1.contains_key(id0));
            } else {
                assert(rest[i - 1] == saves[i]);
                assert(rest[j - 1] == saves[j]);
            }
        }
        assert forall|k: u128| m0.contains_key(k) implies apply_saves(m0, saves).contains_key(
            k,
        ) by {
            assert(m1.contains_key(k));
            assert(apply_saves(m1, rest).contains_key(k));
        }
        assert forall|i: int| 0 <= i < saves.len() implies apply_saves(
            m0,
            saves,
        ).contains_key((#[trigger] saves[i]).0) by {
            if i == 0 {
                assert(m1.contains_key(id0));
                assert(apply_saves(m1, rest).contains_key(id0));
            } else {
                assert(rest[i - 1] == saves[i]);
            }
        }
    }
}

/// A record of issued identifiers after a sequence of saves, each issuing
/// one identifier.
pub open spec fn issue_all(s0: Set<u128>, ids: Seq<u128>) -> Set<u128>
    decreases ids.len(),
{
    if ids.len() == 0 {
        s0
    } else {
        issue_all(s0.insert(ids[0]), ids.skip(1))
    }
}

/// Each identifier is fresh for the record at its own step, which is what
/// the file-backed handler's save contract guarantees.
pub open spec fn ids_fresh(s0: Set<u128>, ids: Seq<u128>) -> bool
    decreases ids.len(),
{
    if ids.len() == 0 {
        true
    } else {
        !s0.contains(ids[0]) && ids_fresh(s0.insert(ids[0]), ids.skip(1))
    }
}

/// Identifiers issued one after another against one record are pairwise
/// distinct, and none of them was held before; so any two saves of one
/// file-backed handler return distinct identifiers, whatever the blobs
/// were.
pub proof fn lemma_issued_ids_distinct(s0: Set<u128>, ids: Seq<u128>)
    requires
        ids_fresh(s0, ids),
    ensures
        forall|i: int| 0 <= i < ids.len() ==> !s0.contains(#[trigger] ids[i]),
        forall|i: int, j: int| 0 <= i < j < ids.len() ==> ids[i] != ids[j],
        forall|i: int| 0 <= i < ids.len() ==> issue_all(s0, ids).contains(#[trigger] ids[i]),
        forall|k: u128| s0.contains(k) ==> issue_all(s0, ids).contains(k),
    decreases ids.len(),
{
    if ids.len() > 0 {
        let id0 = ids[0];
        let s1 = s0.insert(id0);
        let rest = ids.skip(1);
        lemma_issued_ids_distinct(s1, rest);
        assert forall|i: int| 0 <= i < ids.len() implies !s0.contains(#[trigger] ids[i]) by {
            if i > 0 {
                assert(rest[i - 1] == ids[i]);
                assert(!s1.contains(rest[i - 1]));
            }
        }
        assert forall|i: int, j: int| 0 <= i < j < ids.len() implies ids[i] != ids[j] by {
            if i == 0 {
                assert(rest[j - 1] == ids[j]);
                assert(!s1.contains(rest[j - 1]));
                assert(s1.contains(id0));
            } else {
                assert(rest[i - 1] == ids[i]);
                assert(rest[j - 1] == ids[j]);
            }
        }
        assert forall|k: u128| s0.contains(k) implies issue_all(s0, ids).contains(k) by {
            assert(s1.contains(k));
            assert(issue_all(s1, rest).contains(k));
        }
        assert forall|i: int| 0 <= i < ids.len() implies issue_all(s0, ids).contains(
            #[trigger] ids[i],
        ) by {
            if i == 0 {
                assert(s1.contains(id0));
                assert(issue_all(s1, rest).contains(id0));
            } else {
                assert(rest[i - 1] == ids[i]);
            }
        }
    }
}

} // verus!

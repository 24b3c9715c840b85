//! Identifiers and references shared by every other module.
//!
//! Identifiers and digests are fixed-width handles. The state machine only
//! stores, compares and orders them; whoever feeds it derives them from the
//! content they stand for.

use itertools::Itertools;
use vstd::prelude::*;
use vstd::relations::{sorted_by, total_ordering};
use vstd::seq_lib::lemma_sorted_unique;

verus! {

/// Identifier of an object.
pub type ObjectID = u64;

/// Version number of an object. It grows by one with each mutation.
pub type SequenceNumber = u64;

/// Digest of the content of one version of an object.
pub type ObjectDigest = u64;

/// Digest of a transaction's data. It names the transaction everywhere.
pub type TransactionDigest = u64;

/// Public name of an authority.
pub type AuthorityName = u64;

/// Address of an account.
pub type SuiAddress = u64;

/// Number of a committee's epoch.
pub type EpochId = u64;

/// A signature made by an authority or by a sender, as an opaque token.
pub type AuthoritySignature = u64;

/// Position of an executed transaction in the authority's log.
pub type TxSequenceNumber = u64;

/// Digest of a sealed batch. It links the next batch to this one.
pub type BatchDigest = u64;

/// One immutable snapshot of an object: identifier, version and digest.
pub type ObjectRef = (ObjectID, SequenceNumber, ObjectDigest);

/// The version that a shared object is given the first time consensus
/// sequences a transaction on it.
pub const INITIAL_SEQUENCE_NUMBER: SequenceNumber = 0;

/// The digest that stands for the genesis in place of a transaction.
pub const GENESIS_TRANSACTION_DIGEST: TransactionDigest = 0;

/// The largest version number an object can have.
pub const MAX_SEQUENCE_NUMBER: SequenceNumber = 0x7fff_ffff_ffff_ffff;

/// How far the consensus output has been consumed.
#[derive(Clone, Copy, Debug, PartialEq, Eq, Structural)]
pub struct ExecutionIndices {
    /// The next certificate of the consensus output.
    pub next_certificate_index: u64,
    /// The next batch within that certificate.
    pub next_batch_index: u64,
    /// The next transaction within that batch.
    pub next_transaction_index: u64,
}

/// Lexicographic order on object references: by identifier, then version,
/// then digest.
pub open spec fn ref_le(a: ObjectRef, b: ObjectRef) -> bool {
    a.0 < b.0 || (a.0 == b.0 && (a.1 < b.1 || (a.1 == b.1 && a.2 <= b.2)))
}

/// Whether a sequence of object references is in ascending order.
pub open spec fn refs_sorted(s: Seq<ObjectRef>) -> bool {
    forall|i: int, j: int| 0 <= i <= j < s.len() ==> ref_le(s[i], s[j])
}

/// The order of object references is a total order.
pub proof fn lemma_ref_le_total()
    ensures
        total_ordering(|a: ObjectRef, b: ObjectRef| ref_le(a, b)),
{
    let leq = |a: ObjectRef, b: ObjectRef| ref_le(a, b);
    assert forall|x: ObjectRef, y: ObjectRef| #[trigger] leq(x, y) && #[trigger] leq(y, x) implies x == y by {
        assert(x.0 == y.0 && x.1 == y.1 && x.2 == y.2);
    }
    assert forall|x: ObjectRef, y: ObjectRef, z: ObjectRef| #[trigger]
        leq(x, y) && #[trigger] leq(y, z) implies leq(x, z) by {}
    assert forall|x: ObjectRef, y: ObjectRef| #[trigger] leq(x, y) || #[trigger] leq(y, x) by {}
    assert forall|x: ObjectRef| #[trigger] leq(x, x) by {}
}

/// A list of object references in ascending order.
pub open spec fn sorted_refs(refs: Seq<ObjectRef>) -> Seq<ObjectRef> {
    refs.sort_by(|a: ObjectRef, b: ObjectRef| ref_le(a, b))
}

/// `Itertools::sorted` on object references. The crate collects the items
/// and sorts them with the standard stable sort, by the order of tuples of
/// integers: the result holds the same items, each as often as before, in
/// ascending order.
#[verifier::external_body]
fn sorted(refs: Vec<ObjectRef>) -> (r: Vec<ObjectRef>)
    ensures
        refs_sorted(r@),
        r@.to_multiset() == refs@.to_multiset(),
{
    refs.into_iter().sorted().collect()
}

/// Puts object references in ascending order.
pub fn sort_object_refs(refs: Vec<ObjectRef>) -> (r: Vec<ObjectRef>)
    ensures
        r@ == sorted_refs(refs@),
{
    let r = sorted(refs);
    proof {
        let leq = |a: ObjectRef, b: ObjectRef| ref_le(a, b);
        lemma_ref_le_total();
        refs@.lemma_sort_by_ensures(leq);
        assert(sorted_by(r@, leq)) by {
            assert forall|i: int, j: int| 0 <= i < j < r@.len() implies #[trigger] leq(r@[i], r@[j]) by {
                assert(ref_le(r@[i], r@[j]));
            }
        }
        lemma_sorted_unique(r@, refs@.sort_by(leq), leq);
    }
    r
}

/// Sorting keeps the items: the sorted list holds what the list holds, is as
/// long, and holds nothing twice if the list does not.
pub proof fn lemma_sorted_refs_elements(refs: Seq<ObjectRef>)
    ensures
        refs_sorted(sorted_refs(refs)),
        sorted_refs(refs).len() == refs.len(),
        forall|r: ObjectRef| sorted_refs(refs).contains(r) <==> refs.contains(r),
        refs.no_duplicates() ==> sorted_refs(refs).no_duplicates(),
{
    let leq = |a: ObjectRef, b: ObjectRef| ref_le(a, b);
    let sorted = sorted_refs(refs);
    lemma_ref_le_total();
    refs.lemma_sort_by_ensures(leq);
    refs.to_multiset_ensures();
    sorted.to_multiset_ensures();
    assert forall|i: int, j: int| 0 <= i <= j < sorted.len() implies ref_le(sorted[i], sorted[j]) by {
        if i < j {
            assert(leq(sorted[i], sorted[j]));
        }
    }
    assert forall|r: ObjectRef| sorted.contains(r) <==> refs.contains(r) by {
        assert(sorted.to_multiset().count(r) == refs.to_multiset().count(r));
    }
    if refs.no_duplicates() {
        refs.lemma_multiset_has_no_duplicates();
        sorted.lemma_multiset_has_no_duplicates_conv();
    }
}

} // verus!

//! The authority's store: objects, locks, certificates, effects, the
//! versions that consensus assigned to shared objects, and the executed log.
//!
//! Each mutation is one atomic step: it either fails and changes nothing, or
//! it succeeds and all of its writes are made.

use vstd::prelude::*;
use crate::base_types::{
    lemma_sorted_refs_elements, ref_le, sort_object_refs, sorted_refs, ExecutionIndices, ObjectID,
    ObjectRef, SequenceNumber, SuiAddress, TransactionDigest, TxSequenceNumber,
    INITIAL_SEQUENCE_NUMBER, MAX_SEQUENCE_NUMBER,
};
use crate::batch::{batch_views, AuthorityBatchView, SignedBatch, SignedBatchView};
use crate::error::SuiError;
use crate::messages::{
    CertifiedTransaction, CertifiedTransactionView, SignedTransaction, SignedTransactionEffects,
    SignedTransactionEffectsView, SignedTransactionView, TransactionInfoResponse,
    TransactionInfoResponseView,
};
use crate::object::{Object, Owner};
use crate::table::Table;

verus! {

/// The view of an [`AuthorityStore`]: each table as a map.
pub struct DatabaseView {
    /// The latest state of each object.
    pub objects: Map<ObjectID, Object>,
    /// The transaction that holds the lock on an object version. A version
    /// without an entry is unlocked.
    pub transaction_lock: Map<ObjectRef, TransactionDigest>,
    /// The transactions that this authority signed.
    pub transactions: Map<TransactionDigest, SignedTransactionView>,
    /// The certificates that this authority has seen.
    pub certificates: Map<TransactionDigest, CertifiedTransactionView>,
    /// The effects of the certificates that this authority executed.
    pub effects: Map<TransactionDigest, SignedTransactionEffectsView>,
    /// The transaction that produced an object version.
    pub parent_sync: Map<ObjectRef, TransactionDigest>,
    /// The version that consensus assigned to a shared object for one
    /// transaction.
    pub sequenced: Map<(TransactionDigest, ObjectID), SequenceNumber>,
    /// The version that consensus will assign next to a shared object.
    pub schedule: Map<ObjectID, SequenceNumber>,
    /// The executed transactions, each at its sequence number.
    pub executed_sequence: Seq<TransactionDigest>,
    /// The sealed batches, oldest first.
    pub batches: Seq<SignedBatchView>,
    /// How far the consensus output has been consumed.
    pub last_consensus_index: ExecutionIndices,
}

/// Whether `refs[i]` is locked by another transaction than `digest`.
pub open spec fn conflicts_at(
    lock: Map<ObjectRef, TransactionDigest>,
    refs: Seq<ObjectRef>,
    digest: TransactionDigest,
    i: int,
) -> bool {
    0 <= i < refs.len() && lock.contains_key(refs[i]) && lock[refs[i]] != digest
}

/// Whether `refs[i]` is the first of `refs` that is locked by another
/// transaction than `digest`.
pub open spec fn is_first_conflict(
    lock: Map<ObjectRef, TransactionDigest>,
    refs: Seq<ObjectRef>,
    digest: TransactionDigest,
    i: int,
) -> bool {
    conflicts_at(lock, refs, digest, i) && forall|j: int|
        0 <= j < i ==> !conflicts_at(lock, refs, digest, j)
}

/// The position of the first of `refs` that is locked by another
/// transaction than `digest`, if there is one.
pub open spec fn first_conflict(
    lock: Map<ObjectRef, TransactionDigest>,
    refs: Seq<ObjectRef>,
    digest: TransactionDigest,
) -> Option<int> {
    if exists|i: int| is_first_conflict(lock, refs, digest, i) {
        Some(choose|i: int| is_first_conflict(lock, refs, digest, i))
    } else {
        None
    }
}

/// The lock table after each of `refs` has been locked by `digest`.
pub open spec fn lock_refs(
    lock: Map<ObjectRef, TransactionDigest>,
    refs: Seq<ObjectRef>,
    digest: TransactionDigest,
) -> Map<ObjectRef, TransactionDigest>
    decreases refs.len(),
{
    if refs.len() == 0 {
        lock
    } else {
        lock_refs(lock, refs.drop_last(), digest).insert(refs.last(), digest)
    }
}

/// What `lock_refs` holds for one reference: `digest` if it is among `refs`,
/// and what was there before if it is not.
pub proof fn lemma_lock_refs(
    lock: Map<ObjectRef, TransactionDigest>,
    refs: Seq<ObjectRef>,
    digest: TransactionDigest,
    r: ObjectRef,
)
    ensures
        refs.contains(r) ==> lock_refs(lock, refs, digest).contains_key(r) && lock_refs(
            lock,
            refs,
            digest,
        )[r] == digest,
        !refs.contains(r) ==> (lock_refs(lock, refs, digest).contains_key(r) <==> lock.contains_key(r)),
        !refs.contains(r) && lock.contains_key(r) ==> lock_refs(lock, refs, digest)[r] == lock[r],
    decreases refs.len(),
{
    if refs.len() > 0 {
        let front = refs.drop_last();
        lemma_lock_refs(lock, front, digest, r);
        if refs.contains(r) {
            let i = choose|i: int| 0 <= i < refs.len() && refs[i] == r;
            if i < refs.len() - 1 {
                assert(front[i] == r);
            }
        }
        if front.contains(r) {
            let i = choose|i: int| 0 <= i < front.len() && front[i] == r;
            assert(refs[i] == r);
        }
        if r == refs.last() {
            assert(refs[refs.len() - 1] == r);
        }
    }
}

/// Where some reference of `refs` is locked by another transaction than
/// `digest`, there is a first such reference.
pub proof fn lemma_first_conflict_exists(
    lock: Map<ObjectRef, TransactionDigest>,
    refs: Seq<ObjectRef>,
    digest: TransactionDigest,
    k: int,
)
    requires
        conflicts_at(lock, refs, digest, k),
    ensures
        first_conflict(lock, refs, digest) is Some,
        is_first_conflict(lock, refs, digest, first_conflict(lock, refs, digest)->0),
        first_conflict(lock, refs, digest)->0 <= k,
    decreases k,
{
    if exists|j: int| 0 <= j < k && conflicts_at(lock, refs, digest, j) {
        let j = choose|j: int| 0 <= j < k && conflicts_at(lock, refs, digest, j);
        lemma_first_conflict_exists(lock, refs, digest, j);
    } else {
        assert(is_first_conflict(lock, refs, digest, k));
        let c = choose|c: int| is_first_conflict(lock, refs, digest, c);
        if k < c {
            assert(!conflicts_at(lock, refs, digest, k));
        }
    }
}

/// Locking the inputs of a transaction that conflicts with no lock keeps
/// the store's invariant.
pub proof fn lemma_set_transaction_lock_keeps_inv(
    store: DatabaseView,
    refs: Seq<ObjectRef>,
    transaction: SignedTransactionView,
)
    requires
        store.inv(),
    ensures
        store.set_transaction_lock(refs, transaction).inv(),
{
    let after = store.set_transaction_lock(refs, transaction);
    let digest = transaction.transaction.digest;
    assert forall|r: ObjectRef| #[trigger] after.transaction_lock.contains_key(r) implies after.transactions.contains_key(
        after.transaction_lock[r],
    ) by {
        lemma_lock_refs(store.transaction_lock, refs, digest, r);
        if !refs.contains(r) {
            assert(store.transaction_lock.contains_key(r));
            assert(store.transactions.contains_key(store.transaction_lock[r]));
        }
    }
}

/// Of two transactions with different digests that share an owned input,
/// at most one gets its locks. Once the first has locked its inputs, the
/// lock on the shared reference is held by the first, and the second is
/// refused with the holder of a lock as evidence, which is another
/// transaction than the second. Where the first is the only other
/// transaction that holds a lock on an input of the second, the evidence is
/// the first.
pub proof fn lemma_conflicting_lock_is_refused(
    store: DatabaseView,
    first_inputs: Seq<ObjectRef>,
    first: SignedTransactionView,
    second_inputs: Seq<ObjectRef>,
    second: SignedTransactionView,
    shared: ObjectRef,
)
    requires
        store.inv(),
        first_conflict(store.transaction_lock, first_inputs, first.transaction.digest) is None,
        first_inputs.contains(shared),
        second_inputs.contains(shared),
        first.transaction.digest != second.transaction.digest,
    ensures
        ({
            let after = store.set_transaction_lock(first_inputs, first);
            let conflict = first_conflict(
                after.transaction_lock,
                second_inputs,
                second.transaction.digest,
            );
            &&& after.inv()
            &&& after.transaction_lock.contains_key(shared)
            &&& after.transaction_lock[shared] == first.transaction.digest
            &&& !store.transactions.contains_key(first.transaction.digest) ==> after.lock_holder(shared)
                == Some(first)
            &&& conflict is Some
            &&& after.lock_holder(second_inputs[conflict->0]) is Some
            &&& after.lock_holder(second_inputs[conflict->0])->0.transaction.digest
                != second.transaction.digest
            &&& (forall|j: int| #[trigger]
                conflicts_at(after.transaction_lock, second_inputs, second.transaction.digest, j)
                    ==> after.transaction_lock[second_inputs[j]] == first.transaction.digest)
                ==> after.lock_holder(second_inputs[conflict->0]) == after.lock_holder(shared)
        }),
{
    let after = store.set_transaction_lock(first_inputs, first);
    let d1 = first.transaction.digest;
    let d2 = second.transaction.digest;
    lemma_lock_refs(store.transaction_lock, first_inputs, d1, shared);
    assert forall|r: ObjectRef| #[trigger] after.transaction_lock.contains_key(r) implies after.transactions.contains_key(
        after.transaction_lock[r],
    ) by {
        lemma_lock_refs(store.transaction_lock, first_inputs, d1, r);
        if !first_inputs.contains(r) {
            assert(store.transaction_lock.contains_key(r));
            assert(store.transactions.contains_key(store.transaction_lock[r]));
        }
    }
    let k = choose|k: int| 0 <= k < second_inputs.len() && second_inputs[k] == shared;
    assert(conflicts_at(after.transaction_lock, second_inputs, d2, k));
    lemma_first_conflict_exists(after.transaction_lock, second_inputs, d2, k);
    let c = first_conflict(after.transaction_lock, second_inputs, d2)->0;
    assert(conflicts_at(after.transaction_lock, second_inputs, d2, c));
    assert(after.transactions.contains_key(after.transaction_lock[second_inputs[c]]));
}

/// A batch starts where the batch before it ends, and ends no earlier than
/// it starts.
pub proof fn lemma_batch_bounds(batches: Seq<SignedBatchView>, log: Seq<TransactionDigest>, k: int)
    requires
        batches_follow_log(batches, log),
        0 < k < batches.len(),
    ensures
        batches[k - 1].batch.next_sequence_number == batches[k].batch.initial_sequence_number,
        batches[k].batch.initial_sequence_number <= batches[k].batch.next_sequence_number,
{
    assert(batch_follows(batch_before(batches, k), batches[k].batch, log));
}

/// Whether each batch but the first starts at or after the end of the batch
/// before it and ends no earlier than it starts.
pub open spec fn bounds_in_order(batches: Seq<SignedBatchView>) -> bool {
    forall|k: int|
        0 < k < batches.len() ==> batches[k - 1].batch.next_sequence_number <= (
        #[trigger] batches[k]).batch.initial_sequence_number && batches[k].batch.initial_sequence_number
            <= batches[k].batch.next_sequence_number
}

/// Where bounds are in order, a batch ends at or before the start of every
/// later batch.
pub proof fn lemma_bounds_in_order(batches: Seq<SignedBatchView>, i: int, k: int)
    requires
        bounds_in_order(batches),
        0 <= i < k < batches.len(),
    ensures
        batches[i].batch.next_sequence_number <= batches[k].batch.initial_sequence_number,
    decreases k - i,
{
    if i < k - 1 {
        lemma_bounds_in_order(batches, i, k - 1);
        assert(batches[k - 1].batch.initial_sequence_number <= batches[k - 1].batch.next_sequence_number);
        assert(batches[k - 1].batch.next_sequence_number <= batches[k].batch.initial_sequence_number);
    }
}

/// A batch ends at or before the start of every later batch.
pub proof fn lemma_batches_in_order(
    batches: Seq<SignedBatchView>,
    log: Seq<TransactionDigest>,
    i: int,
    k: int,
)
    requires
        batches_follow_log(batches, log),
        0 <= i < k < batches.len(),
    ensures
        batches[i].batch.next_sequence_number <= batches[k].batch.initial_sequence_number,
{
    assert forall|t: int| 0 < t < batches.len() implies batches[t - 1].batch.next_sequence_number <= (
    #[trigger] batches[t]).batch.initial_sequence_number && batches[t].batch.initial_sequence_number
        <= batches[t].batch.next_sequence_number by {
        lemma_batch_bounds(batches, log, t);
    }
    lemma_bounds_in_order(batches, i, k);
}

/// The batches show the executed log with no gap and nothing twice. Each
/// batch starts where the one before it ends, the first at the start of the
/// log; the transactions of a batch have consecutive sequence numbers from
/// the start of the batch on and are those of the log at these numbers; and
/// no digest occurs at two places of the batches.
pub proof fn lemma_batches_are_gap_free(store: DatabaseView)
    requires
        store.inv(),
    ensures
        store.executed_sequence.no_duplicates(),
        forall|i: int|
            0 <= i < store.batches.len() ==> (#[trigger] store.batches[i]).batch.initial_sequence_number
                == if i == 0 {
                0
            } else {
                store.batches[i - 1].batch.next_sequence_number
            },
        forall|i: int, j: int|
            0 <= i < store.batches.len() && 0 <= j < store.batches[i].batch.transactions.len() ==> {
                &&& store.batches[i].batch.initial_sequence_number + j < store.executed_sequence.len()
                &&& (#[trigger] store.batches[i].batch.transactions[j]) == (
                    (store.batches[i].batch.initial_sequence_number + j) as TxSequenceNumber,
                    store.executed_sequence[store.batches[i].batch.initial_sequence_number + j],
                )
            },
        forall|i: int, j: int, k: int, l: int|
            0 <= i < store.batches.len() && 0 <= j < store.batches[i].batch.transactions.len() && 0 <= k
                < store.batches.len() && 0 <= l < store.batches[k].batch.transactions.len() && (i != k
                || j != l) ==> (#[trigger] store.batches[i].batch.transactions[j]).1 != (
            #[trigger] store.batches[k].batch.transactions[l]).1,
{
    let log = store.executed_sequence;
    assert forall|i: int| 0 <= i < store.batches.len() implies (
    #[trigger] store.batches[i]).batch.initial_sequence_number == if i == 0 {
        0
    } else {
        store.batches[i - 1].batch.next_sequence_number
    } by {
        assert(batch_follows(batch_before(store.batches, i), store.batches[i].batch, log));
    }
    assert forall|i: int, j: int|
        0 <= i < store.batches.len() && 0 <= j < store.batches[i].batch.transactions.len() implies {
        &&& store.batches[i].batch.initial_sequence_number + j < log.len()
        &&& (#[trigger] store.batches[i].batch.transactions[j]) == (
            (store.batches[i].batch.initial_sequence_number + j) as TxSequenceNumber,
            log[store.batches[i].batch.initial_sequence_number + j],
        )
    } by {
        assert(batch_follows(batch_before(store.batches, i), store.batches[i].batch, log));
    }
    assert forall|i: int, j: int, k: int, l: int|
        0 <= i < store.batches.len() && 0 <= j < store.batches[i].batch.transactions.len() && 0 <= k
            < store.batches.len() && 0 <= l < store.batches[k].batch.transactions.len() && (i != k || j
            != l) implies (#[trigger] store.batches[i].batch.transactions[j]).1 != (
    #[trigger] store.batches[k].batch.transactions[l]).1 by {
        let a = store.batches[i].batch;
        let b = store.batches[k].batch;
        assert(batch_follows(batch_before(store.batches, i), a, log));
        assert(batch_follows(batch_before(store.batches, k), b, log));
        let x = a.initial_sequence_number + j;
        let y = b.initial_sequence_number + l;
        assert(a.transactions[j].1 == log[x]);
        assert(b.transactions[l].1 == log[y]);
        if i < k {
            lemma_batches_in_order(store.batches, log, i, k);
        } else if k < i {
            lemma_batches_in_order(store.batches, log, k, i);
        }
        assert(x != y);
    }
}

/// The lock table after the locks on `refs` have been released.
pub open spec fn release_locks(
    lock: Map<ObjectRef, TransactionDigest>,
    refs: Seq<ObjectRef>,
) -> Map<ObjectRef, TransactionDigest>
    decreases refs.len(),
{
    if refs.len() == 0 {
        lock
    } else {
        release_locks(lock, refs.drop_last()).remove(refs.last())
    }
}

/// What `release_locks` holds for one reference: nothing if it is among
/// `refs`, and what was there before if it is not.
pub proof fn lemma_release_locks(
    lock: Map<ObjectRef, TransactionDigest>,
    refs: Seq<ObjectRef>,
    r: ObjectRef,
)
    ensures
        refs.contains(r) ==> !release_locks(lock, refs).contains_key(r),
        !refs.contains(r) ==> (release_locks(lock, refs).contains_key(r) <==> lock.contains_key(r)),
        release_locks(lock, refs).contains_key(r) ==> lock.contains_key(r) && release_locks(lock, refs)[r]
            == lock[r],
    decreases refs.len(),
{
    if refs.len() > 0 {
        let front = refs.drop_last();
        lemma_release_locks(lock, front, r);
        if refs.contains(r) {
            let i = choose|i: int| 0 <= i < refs.len() && refs[i] == r;
            if i < refs.len() - 1 {
                assert(front[i] == r);
            }
        }
        if front.contains(r) {
            let i = choose|i: int| 0 <= i < front.len() && front[i] == r;
            assert(refs[i] == r);
        }
        if r == refs.last() {
            assert(refs[refs.len() - 1] == r);
        }
    }
}

/// The objects after each of `written` has been stored under its
/// identifier, a later one over an earlier one.
pub open spec fn write_objects(objects: Map<ObjectID, Object>, written: Seq<Object>) -> Map<
    ObjectID,
    Object,
>
    decreases written.len(),
{
    if written.len() == 0 {
        objects
    } else {
        write_objects(objects, written.drop_last()).insert(written.last().id, written.last())
    }
}

/// The objects after those that `deleted` refers to have left.
pub open spec fn delete_objects(objects: Map<ObjectID, Object>, deleted: Seq<ObjectRef>) -> Map<
    ObjectID,
    Object,
>
    decreases deleted.len(),
{
    if deleted.len() == 0 {
        objects
    } else {
        delete_objects(objects, deleted.drop_last()).remove(deleted.last().0)
    }
}

/// Writing and deleting objects keeps each object under its own identifier.
pub proof fn lemma_objects_keyed_by_id(
    objects: Map<ObjectID, Object>,
    written: Seq<Object>,
    deleted: Seq<ObjectRef>,
)
    requires
        forall|id: ObjectID| objects.contains_key(id) ==> (#[trigger] objects[id]).id == id,
    ensures
        forall|id: ObjectID|
            delete_objects(objects, deleted).contains_key(id) ==> (#[trigger] delete_objects(
                objects,
                deleted,
            )[id]).id == id,
        forall|id: ObjectID|
            write_objects(objects, written).contains_key(id) ==> (#[trigger] write_objects(
                objects,
                written,
            )[id]).id == id,
    decreases written.len() + deleted.len(),
{
    if deleted.len() > 0 {
        lemma_objects_keyed_by_id(objects, Seq::empty(), deleted.drop_last());
    }
    if written.len() > 0 {
        lemma_objects_keyed_by_id(objects, written.drop_last(), Seq::empty());
    }
}

/// Whether `x` is among the first `k + 1` items of a sequence: it is among
/// the first `k`, or it is the item at `k`.
pub proof fn lemma_prefix_contains<T>(s: Seq<T>, k: int, x: T)
    requires
        0 <= k < s.len(),
    ensures
        s.subrange(0, k + 1).contains(x) <==> (s.subrange(0, k).contains(x) || x == s[k]),
        s.subrange(0, k + 1).drop_last() == s.subrange(0, k),
{
    let a = s.subrange(0, k + 1);
    let b = s.subrange(0, k);
    if a.contains(x) {
        let i = choose|i: int| 0 <= i < a.len() && a[i] == x;
        if i < k {
            assert(b[i] == x);
        }
    }
    if b.contains(x) {
        let i = choose|i: int| 0 <= i < b.len() && b[i] == x;
        assert(a[i] == x);
    }
    if x == s[k] {
        assert(a[k] == x);
    }
}

/// Whether the batch `batch` continues the log `log` from the batch `previous`:
/// it starts where `previous` ends, is linked to it, and holds the
/// transactions of the log at its sequence numbers, at least one. Without a
/// batch before it, it is the empty batch at the start of the log.
pub open spec fn batch_follows(
    previous: Option<AuthorityBatchView>,
    batch: AuthorityBatchView,
    log: Seq<TransactionDigest>,
) -> bool {
    &&& match previous {
        None => {
            &&& batch.initial_sequence_number == 0
            &&& batch.previous_digest is None
            &&& batch.transactions.len() == 0
        },
        Some(p) => {
            &&& batch.initial_sequence_number == p.next_sequence_number
            &&& batch.previous_digest == Some(p.digest)
            &&& batch.transactions.len() > 0
        },
    }
    &&& batch.next_sequence_number == batch.initial_sequence_number + batch.transactions.len()
    &&& batch.size == batch.transactions.len()
    &&& batch.next_sequence_number <= log.len()
    &&& forall|j: int|
        0 <= j < batch.transactions.len() ==> #[trigger] batch.transactions[j] == (
            (batch.initial_sequence_number + j) as TxSequenceNumber,
            log[batch.initial_sequence_number + j],
        )
}

/// Whether each of `batches` continues the log `log` from the batch before
/// it.
pub open spec fn batches_follow_log(batches: Seq<SignedBatchView>, log: Seq<TransactionDigest>) -> bool {
    forall|i: int|
        0 <= i < batches.len() ==> batch_follows(
            batch_before(batches, i),
            (#[trigger] batches[i]).batch,
            log,
        )
}

/// The batch before the batch at `i`, if there is one.
pub open spec fn batch_before(batches: Seq<SignedBatchView>, i: int) -> Option<AuthorityBatchView> {
    if i == 0 {
        None
    } else {
        Some(batches[i - 1].batch)
    }
}

/// The position of the last batch that ends at or before `start`, if there
/// is one.
pub open spec fn prior_batch(batches: Seq<SignedBatchView>, start: TxSequenceNumber) -> Option<int>
    decreases batches.len(),
{
    if batches.len() == 0 {
        None
    } else if batches.last().batch.next_sequence_number <= start {
        Some(batches.len() - 1)
    } else {
        prior_batch(batches.drop_last(), start)
    }
}

/// The position of the first batch from `from` on that starts at or after
/// `end`, or the number of batches if there is none.
pub open spec fn batches_until(batches: Seq<SignedBatchView>, from: int, end: TxSequenceNumber) -> int
    decreases batches.len() - from,
{
    if from < 0 || from >= batches.len() {
        batches.len() as int
    } else if batches[from].batch.initial_sequence_number >= end {
        from
    } else {
        batches_until(batches, from + 1, end)
    }
}

/// The smaller of two numbers.
pub open spec fn min_int(a: int, b: int) -> int {
    if a <= b {
        a
    } else {
        b
    }
}

/// The larger of two numbers.
pub open spec fn max_int(a: int, b: int) -> int {
    if a >= b {
        a
    } else {
        b
    }
}

/// The transactions of `log` with the sequence numbers from `low` up to, not
/// including, `high`, as far as the log reaches.
pub open spec fn log_range(log: Seq<TransactionDigest>, low: int, high: int) -> Seq<
    (TxSequenceNumber, TransactionDigest),
> {
    let lo = min_int(low, log.len() as int);
    let hi = min_int(high, log.len() as int);
    Seq::new(
        if hi >= lo {
            (hi - lo) as nat
        } else {
            0
        },
        |t: int| ((lo + t) as TxSequenceNumber, log[lo + t]),
    )
}

impl DatabaseView {
    /// The store's invariant.
    pub open spec fn inv(&self) -> bool {
        &&& forall|id: ObjectID|
            self.objects.contains_key(id) ==> (#[trigger] self.objects[id]).id == id
        &&& forall|d: TransactionDigest|
            self.transactions.contains_key(d) ==> (#[trigger] self.transactions[d]).transaction.digest == d
        &&& forall|r: ObjectRef| #[trigger]
            self.transaction_lock.contains_key(r) ==> self.transactions.contains_key(
                self.transaction_lock[r],
            )
        &&& forall|d: TransactionDigest|
            self.certificates.contains_key(d) ==> (#[trigger] self.certificates[d]).transaction.digest == d
        &&& forall|d: TransactionDigest|
            self.effects.contains_key(d) ==> (#[trigger] self.effects[d]).effects.transaction_digest == d
                && self.certificates.contains_key(d)
        &&& forall|i: int|
            0 <= i < self.executed_sequence.len() ==> #[trigger] self.effects.contains_key(
                self.executed_sequence[i],
            )
        &&& self.executed_sequence.no_duplicates()
        &&& self.executed_sequence.len() <= u64::MAX
        &&& batches_follow_log(self.batches, self.executed_sequence)
    }

    /// The last sealed batch, if a batch has been sealed.
    pub open spec fn last_batch(&self) -> Option<SignedBatchView> {
        if self.batches.len() > 0 {
            Some(self.batches.last())
        } else {
            None
        }
    }

    /// Whether `batch` can be stored after the batches that the store holds.
    pub open spec fn accepts_batch(&self, batch: SignedBatchView) -> bool {
        batch_follows(
            match self.last_batch() {
                Some(b) => Some(b.batch),
                None => None,
            },
            batch.batch,
            self.executed_sequence,
        )
    }

    /// The batches that a replay of the sequence numbers from `start` up to,
    /// not including, `end` shows: from the last batch that ends at or
    /// before `start` to the last batch that starts before `end`. None if no
    /// batch ends at or before `start`.
    pub open spec fn batches_in_range(&self, start: TxSequenceNumber, end: TxSequenceNumber) -> Option<
        Seq<SignedBatchView>,
    > {
        match prior_batch(self.batches, start) {
            None => None,
            Some(first) => Some(
                self.batches.subrange(first, batches_until(self.batches, first + 1, end)),
            ),
        }
    }

    /// The transactions that a replay with the batches `batches` shows:
    /// those after the first of the batches, up to the end of the last of
    /// them or up to `end`, whichever is later.
    pub open spec fn transactions_in_range(&self, batches: Seq<SignedBatchView>, end: TxSequenceNumber) -> Seq<
        (TxSequenceNumber, TransactionDigest),
    > {
        log_range(
            self.executed_sequence,
            batches.first().batch.next_sequence_number as int,
            max_int(batches.last().batch.next_sequence_number as int, end as int),
        )
    }

    /// Whether `list` holds the recorded versions of the object `id`, at
    /// `version` if one is given, each with the transaction that produced
    /// it, in ascending order.
    pub open spec fn is_parent_list(
        &self,
        list: Seq<(ObjectRef, TransactionDigest)>,
        id: ObjectID,
        version: Option<SequenceNumber>,
    ) -> bool {
        &&& forall|i: int|
            0 <= i < list.len() ==> self.is_parent_entry((#[trigger] list[i]).0, id, version) && list[i].1
                == self.parent_sync[list[i].0]
        &&& forall|r: ObjectRef|
            self.is_parent_entry(r, id, version) ==> exists|i: int|
                0 <= i < list.len() && (#[trigger] list[i]).0 == r
        &&& forall|i: int, j: int|
            0 <= i < j < list.len() ==> (#[trigger] list[i]).0 != (#[trigger] list[j]).0 && ref_le(
                list[i].0,
                list[j].0,
            )
    }

    /// Whether `r` is the reference of an object that `account` owns.
    pub open spec fn is_owned_by(&self, r: ObjectRef, account: SuiAddress) -> bool {
        &&& self.objects.contains_key(r.0)
        &&& self.objects[r.0].object_ref() == r
        &&& self.objects[r.0].owner == Owner::AddressOwner(account)
    }

    /// The store after `batch` has been stored.
    pub open spec fn add_batch(self, batch: SignedBatchView) -> DatabaseView {
        DatabaseView { batches: self.batches.push(batch), ..self }
    }

    /// The store with `batch` as its first batch if it holds none.
    pub open spec fn with_first_batch(self, batch: SignedBatchView) -> DatabaseView {
        if self.batches.len() > 0 {
            self
        } else {
            self.add_batch(batch)
        }
    }

    /// Whether `r` is the recorded version of the object `id` that a request
    /// for `version` is answered with: the least reference at that version,
    /// or the latest version if none is asked for.
    pub open spec fn is_chosen_parent(&self, r: ObjectRef, id: ObjectID, version: Option<SequenceNumber>) -> bool {
        &&& self.is_parent_entry(r, id, version)
        &&& forall|other: ObjectRef|
            self.is_parent_entry(other, id, version) ==> if version is None {
                ref_le(other, r)
            } else {
                ref_le(r, other)
            }
    }

    /// Whether `refs` are the references of the objects that `account`
    /// owns, in ascending order.
    pub open spec fn is_account_list(&self, refs: Seq<ObjectRef>, account: SuiAddress) -> bool {
        &&& forall|x: ObjectRef| refs.contains(x) <==> self.is_owned_by(x, account)
        &&& forall|i: int, j: int| 0 <= i < j < refs.len() ==> refs[i] != refs[j] && ref_le(refs[i], refs[j])
    }

    /// The signed transaction that holds the lock on `r`, if any does.
    pub open spec fn lock_holder(&self, r: ObjectRef) -> Option<SignedTransactionView> {
        if self.transaction_lock.contains_key(r) {
            Some(self.transactions[self.transaction_lock[r]])
        } else {
            None
        }
    }

    /// The store after `transaction` has locked each of `refs`. The signed
    /// transaction is recorded unless one of the same digest already is.
    pub open spec fn set_transaction_lock(
        self,
        refs: Seq<ObjectRef>,
        transaction: SignedTransactionView,
    ) -> DatabaseView {
        let digest = transaction.transaction.digest;
        DatabaseView {
            transaction_lock: lock_refs(self.transaction_lock, refs, digest),
            transactions: if self.transactions.contains_key(digest) {
                self.transactions
            } else {
                self.transactions.insert(digest, transaction)
            },
            ..self
        }
    }

    /// The version that consensus assigns next to the shared object `id`.
    pub open spec fn next_shared_version(&self, id: ObjectID) -> SequenceNumber {
        if self.schedule.contains_key(id) {
            self.schedule[id]
        } else {
            INITIAL_SEQUENCE_NUMBER
        }
    }

    /// Whether each of `ids` can be given one more version.
    pub open spec fn can_sequence(&self, ids: Seq<ObjectID>) -> bool {
        forall|i: int| 0 <= i < ids.len() ==> self.next_shared_version(#[trigger] ids[i]) < MAX_SEQUENCE_NUMBER
    }

    /// The store after consensus has delivered `certificate` at `index`: the
    /// certificate is recorded, each of its shared inputs is assigned the
    /// next version of that object for this transaction, the version after
    /// it becomes the next one, and the consensus index is advanced.
    pub open spec fn persist_certificate_and_lock_shared_objects(
        self,
        certificate: CertifiedTransactionView,
        index: ExecutionIndices,
    ) -> DatabaseView {
        let digest = certificate.transaction.digest;
        let ids = certificate.transaction.shared_input_objects();
        DatabaseView {
            certificates: self.certificates.insert(digest, certificate),
            sequenced: self.sequenced_with(digest, ids),
            schedule: self.schedule_with(ids),
            last_consensus_index: index,
            ..self
        }
    }

    /// The assignments after each of `ids` has been assigned its next
    /// version for the transaction `digest`.
    pub open spec fn sequenced_with(&self, digest: TransactionDigest, ids: Seq<ObjectID>) -> Map<
        (TransactionDigest, ObjectID),
        SequenceNumber,
    > {
        Map::new(
            |k: (TransactionDigest, ObjectID)|
                self.sequenced.contains_key(k) || (k.0 == digest && ids.contains(k.1)),
            |k: (TransactionDigest, ObjectID)|
                if k.0 == digest && ids.contains(k.1) {
                    self.next_shared_version(k.1)
                } else {
                    self.sequenced[k]
                },
        )
    }

    /// The schedule after each of `ids` has been given one more version.
    pub open spec fn schedule_with(&self, ids: Seq<ObjectID>) -> Map<ObjectID, SequenceNumber> {
        Map::new(
            |id: ObjectID| self.schedule.contains_key(id) || ids.contains(id),
            |id: ObjectID|
                if ids.contains(id) {
                    (self.next_shared_version(id) + 1) as SequenceNumber
                } else {
                    self.schedule[id]
                },
        )
    }

    /// The version that consensus assigned to the shared object `id` for the
    /// transaction `digest`, if it did.
    pub open spec fn shared_lock(&self, digest: TransactionDigest, id: ObjectID) -> Option<
        SequenceNumber,
    > {
        if self.sequenced.contains_key((digest, id)) {
            Some(self.sequenced[(digest, id)])
        } else {
            None
        }
    }

    /// Whether `list` holds the versions that consensus assigned to shared
    /// objects for the transaction `digest`, each with the identifier of
    /// its object, in ascending order of the identifiers.
    pub open spec fn is_shared_lock_list(
        &self,
        list: Seq<(ObjectID, SequenceNumber)>,
        digest: TransactionDigest,
    ) -> bool {
        &&& forall|i: int|
            0 <= i < list.len() ==> self.shared_lock(digest, (#[trigger] list[i]).0) == Some(list[i].1)
        &&& forall|id: ObjectID|
            self.sequenced.contains_key((digest, id)) ==> exists|i: int|
                0 <= i < list.len() && (#[trigger] list[i]).0 == id
        &&& forall|i: int, j: int|
            0 <= i < j < list.len() ==> (#[trigger] list[i]).0 < (#[trigger] list[j]).0
    }

    /// The store after the certificate of `effects` has been committed: the
    /// certificate and the effects are recorded, the locks on
    /// `active_inputs` are released, the objects of `deleted` leave the
    /// store and those of `written` enter it, each new reference gets the
    /// transaction as its parent, and the transaction is appended to the
    /// executed log.
    pub open spec fn update_state(
        self,
        active_inputs: Seq<ObjectRef>,
        written: Seq<Object>,
        deleted: Seq<ObjectRef>,
        certificate: CertifiedTransactionView,
        effects: SignedTransactionEffectsView,
    ) -> DatabaseView {
        let digest = certificate.transaction.digest;
        DatabaseView {
            certificates: self.certificates.insert(digest, certificate),
            effects: self.effects.insert(digest, effects),
            transaction_lock: release_locks(self.transaction_lock, active_inputs),
            objects: write_objects(delete_objects(self.objects, deleted), written),
            parent_sync: lock_refs(
                lock_refs(self.parent_sync, deleted, digest),
                written.map_values(|o: Object| o.object_ref()),
                digest,
            ),
            executed_sequence: self.executed_sequence.push(digest),
            ..self
        }
    }

    /// The store after `object` has entered it at the genesis.
    pub open spec fn insert_genesis_object(self, object: Object) -> DatabaseView {
        DatabaseView {
            objects: self.objects.insert(object.id, object),
            parent_sync: self.parent_sync.insert(object.object_ref(), object.previous_transaction),
            ..self
        }
    }

    /// Whether `r` is a recorded version of the object `id`, at `version`
    /// if one is given.
    pub open spec fn is_parent_entry(&self, r: ObjectRef, id: ObjectID, version: Option<SequenceNumber>) -> bool {
        &&& self.parent_sync.contains_key(r)
        &&& r.0 == id
        &&& version matches Some(v) ==> r.1 == v
    }

    /// What the store knows of the transaction `digest`.
    pub open spec fn transaction_info(&self, digest: TransactionDigest) -> TransactionInfoResponseView {
        TransactionInfoResponseView {
            signed_transaction: if self.transactions.contains_key(digest) {
                Some(self.transactions[digest])
            } else {
                None
            },
            certified_transaction: if self.certificates.contains_key(digest) {
                Some(self.certificates[digest])
            } else {
                None
            },
            signed_effects: if self.effects.contains_key(digest) {
                Some(self.effects[digest])
            } else {
                None
            },
        }
    }
}

/// The store after each of `objects` has entered it at the genesis.
pub open spec fn insert_genesis_objects(store: DatabaseView, objects: Seq<Object>) -> DatabaseView
    decreases objects.len(),
{
    if objects.len() == 0 {
        store
    } else {
        insert_genesis_objects(store, objects.drop_last()).insert_genesis_object(objects.last())
    }
}

/// Putting objects into the store at the genesis changes the objects and
/// their recorded versions and nothing else.
pub proof fn lemma_insert_genesis_objects_frame(store: DatabaseView, objects: Seq<Object>)
    ensures
        insert_genesis_objects(store, objects) == (DatabaseView {
            objects: insert_genesis_objects(store, objects).objects,
            parent_sync: insert_genesis_objects(store, objects).parent_sync,
            ..store
        }),
    decreases objects.len(),
{
    if objects.len() > 0 {
        lemma_insert_genesis_objects_frame(store, objects.drop_last());
    }
}

/// The objects that a store holds after objects have entered it at the
/// genesis depend only on the objects that it held before.
pub proof fn lemma_insert_genesis_objects_same(a: DatabaseView, b: DatabaseView, objects: Seq<Object>)
    requires
        a.objects == b.objects,
    ensures
        insert_genesis_objects(a, objects).objects == insert_genesis_objects(b, objects).objects,
    decreases objects.len(),
{
    if objects.len() > 0 {
        lemma_insert_genesis_objects_same(a, b, objects.drop_last());
    }
}

/// The commit of a certificate that has not been executed before keeps the
/// store's invariant, and appends the transaction to the executed log, in
/// which it did not occur before.
pub proof fn lemma_update_state_keeps_inv(
    store: DatabaseView,
    active_inputs: Seq<ObjectRef>,
    written: Seq<Object>,
    deleted: Seq<ObjectRef>,
    certificate: CertifiedTransactionView,
    effects: SignedTransactionEffectsView,
)
    requires
        store.inv(),
        effects.effects.transaction_digest == certificate.transaction.digest,
        !store.effects.contains_key(certificate.transaction.digest),
        store.executed_sequence.len() < u64::MAX,
    ensures
        store.update_state(active_inputs, written, deleted, certificate, effects).inv(),
        !store.executed_sequence.contains(certificate.transaction.digest),
{
    let v0 = store;
    let v = store.update_state(active_inputs, written, deleted, certificate, effects);
    let digest = certificate.transaction.digest;
    lemma_objects_keyed_by_id(v0.objects, Seq::empty(), deleted);
    lemma_objects_keyed_by_id(delete_objects(v0.objects, deleted), written, Seq::empty());
    assert forall|r: ObjectRef| #[trigger] v.transaction_lock.contains_key(r) implies v.transactions.contains_key(
        v.transaction_lock[r],
    ) by {
        lemma_release_locks(v0.transaction_lock, active_inputs, r);
        assert(v0.transactions.contains_key(v0.transaction_lock[r]));
    }
    assert forall|i: int| 0 <= i < v.executed_sequence.len() implies #[trigger] v.effects.contains_key(
        v.executed_sequence[i],
    ) by {
        if i < v0.executed_sequence.len() {
            assert(v.executed_sequence[i] == v0.executed_sequence[i]);
            assert(v0.effects.contains_key(v0.executed_sequence[i]));
        }
    }
    assert(!v0.executed_sequence.contains(digest)) by {
        if v0.executed_sequence.contains(digest) {
            let i = choose|i: int| 0 <= i < v0.executed_sequence.len() && v0.executed_sequence[i] == digest;
            assert(v0.effects.contains_key(v0.executed_sequence[i]));
        }
    }
    assert(v.executed_sequence.no_duplicates()) by {
        assert forall|a: int, b: int|
            0 <= a < v.executed_sequence.len() && 0 <= b < v.executed_sequence.len() && a
                != b implies v.executed_sequence[a] != v.executed_sequence[b] by {
            if a < v0.executed_sequence.len() {
                assert(v0.effects.contains_key(v0.executed_sequence[a]));
            }
            if b < v0.executed_sequence.len() {
                assert(v0.effects.contains_key(v0.executed_sequence[b]));
            }
        }
    }
    assert(batches_follow_log(v.batches, v.executed_sequence)) by {
        assert forall|i: int| 0 <= i < v.batches.len() implies batch_follows(
            batch_before(v.batches, i),
            (#[trigger] v.batches[i]).batch,
            v.executed_sequence,
        ) by {
            assert(batch_follows(batch_before(v0.batches, i), v0.batches[i].batch, v0.executed_sequence));
        }
    }
}

/// Locks each of `refs` for `digest` in `table`.
fn lock_all(table: &mut Table<ObjectRef, TransactionDigest>, refs: &Vec<ObjectRef>, digest: TransactionDigest)
    requires
        old(table).wf(),
    ensures
        final(table).wf(),
        final(table)@ == lock_refs(old(table)@, refs@, digest),
{
    let mut k: usize = 0;
    while k < refs.len()
        invariant
            k <= refs@.len(),
            table.wf(),
            table@ == lock_refs(old(table)@, refs@.subrange(0, k as int), digest),
        decreases refs@.len() - k,
    {
        table.insert(refs[k], digest);
        assert(refs@.subrange(0, k + 1).drop_last() == refs@.subrange(0, k as int));
        k += 1;
    }
    assert(refs@.subrange(0, k as int) == refs@);
}

/// Releases the lock on each of `refs` in `table`.
fn release_all(table: &mut Table<ObjectRef, TransactionDigest>, refs: &Vec<ObjectRef>)
    requires
        old(table).wf(),
    ensures
        final(table).wf(),
        final(table)@ == release_locks(old(table)@, refs@),
{
    let mut k: usize = 0;
    while k < refs.len()
        invariant
            k <= refs@.len(),
            table.wf(),
            table@ == release_locks(old(table)@, refs@.subrange(0, k as int)),
        decreases refs@.len() - k,
    {
        table.remove(&refs[k]);
        assert(refs@.subrange(0, k + 1).drop_last() == refs@.subrange(0, k as int));
        k += 1;
    }
    assert(refs@.subrange(0, k as int) == refs@);
}

/// Takes the objects that `deleted` refers to out of `objects`.
fn delete_all(objects: &mut Table<ObjectID, Object>, deleted: &Vec<ObjectRef>)
    requires
        old(objects).wf(),
    ensures
        final(objects).wf(),
        final(objects)@ == delete_objects(old(objects)@, deleted@),
{
    let mut k: usize = 0;
    while k < deleted.len()
        invariant
            k <= deleted@.len(),
            objects.wf(),
            objects@ == delete_objects(old(objects)@, deleted@.subrange(0, k as int)),
        decreases deleted@.len() - k,
    {
        objects.remove(&deleted[k].0);
        assert(deleted@.subrange(0, k + 1).drop_last() == deleted@.subrange(0, k as int));
        k += 1;
    }
    assert(deleted@.subrange(0, k as int) == deleted@);
}

/// Stores each of `written` in `objects` under its identifier.
fn write_all(objects: &mut Table<ObjectID, Object>, written: &Vec<Object>)
    requires
        old(objects).wf(),
    ensures
        final(objects).wf(),
        final(objects)@ == write_objects(old(objects)@, written@),
{
    let mut k: usize = 0;
    while k < written.len()
        invariant
            k <= written@.len(),
            objects.wf(),
            objects@ == write_objects(old(objects)@, written@.subrange(0, k as int)),
        decreases written@.len() - k,
    {
        let object = written[k];
        objects.insert(object.id, object);
        assert(written@.subrange(0, k + 1).drop_last() == written@.subrange(0, k as int));
        k += 1;
    }
    assert(written@.subrange(0, k as int) == written@);
}

/// The references of `written`, in order.
fn written_refs(written: &Vec<Object>) -> (r: Vec<ObjectRef>)
    ensures
        r@ == written@.map_values(|o: Object| o.object_ref()),
{
    let mut r: Vec<ObjectRef> = Vec::new();
    let mut k: usize = 0;
    while k < written.len()
        invariant
            k <= written@.len(),
            r@ == written@.subrange(0, k as int).map_values(|o: Object| o.object_ref()),
        decreases written@.len() - k,
    {
        r.push(written[k].compute_object_reference());
        assert(r@ == written@.subrange(0, k + 1).map_values(|o: Object| o.object_ref()));
        k += 1;
    }
    assert(written@.subrange(0, k as int) == written@);
    r
}

/// Assigns to each of `ids` its version among `versions` for the
/// transaction `digest`, and schedules the version after it.
fn assign_versions(
    sequenced: &mut Table<(TransactionDigest, ObjectID), SequenceNumber>,
    schedule: &mut Table<ObjectID, SequenceNumber>,
    digest: TransactionDigest,
    ids: &Vec<ObjectID>,
    versions: &Vec<SequenceNumber>,
    Ghost(v0): Ghost<DatabaseView>,
)
    requires
        old(sequenced).wf(),
        old(schedule).wf(),
        old(sequenced)@ == v0.sequenced,
        old(schedule)@ == v0.schedule,
        versions@.len() == ids@.len(),
        forall|j: int| 0 <= j < ids@.len() ==> versions@[j] == v0.next_shared_version(#[trigger] ids@[j]),
        forall|j: int| 0 <= j < ids@.len() ==> v0.next_shared_version(#[trigger] ids@[j]) < MAX_SEQUENCE_NUMBER,
    ensures
        final(sequenced).wf(),
        final(schedule).wf(),
        final(sequenced)@ == v0.sequenced_with(digest, ids@),
        final(schedule)@ == v0.schedule_with(ids@),
{
    let n = ids.len();
    assert(sequenced@ =~= v0.sequenced_with(digest, ids@.subrange(0, 0)));
    assert(schedule@ =~= v0.schedule_with(ids@.subrange(0, 0)));
    let mut k: usize = 0;
    while k < n
        invariant
            sequenced.wf(),
            schedule.wf(),
            n == ids@.len(),
            k <= n,
            versions@.len() == n,
            forall|j: int| 0 <= j < n ==> versions@[j] == v0.next_shared_version(#[trigger] ids@[j]),
            forall|j: int| 0 <= j < n ==> v0.next_shared_version(#[trigger] ids@[j]) < MAX_SEQUENCE_NUMBER,
            sequenced@ == v0.sequenced_with(digest, ids@.subrange(0, k as int)),
            schedule@ == v0.schedule_with(ids@.subrange(0, k as int)),
        decreases n - k,
    {
        let id = ids[k];
        let version = versions[k];
        sequenced.insert((digest, id), version);
        schedule.insert(id, version + 1);
        proof {
            assert forall|x: ObjectID|
                ids@.subrange(0, k + 1).contains(x) <==> (ids@.subrange(0, k as int).contains(x) || x
                    == id) by {
                lemma_prefix_contains(ids@, k as int, x);
            }
            assert(sequenced@ =~= v0.sequenced_with(digest, ids@.subrange(0, k + 1)));
            assert(schedule@ =~= v0.schedule_with(ids@.subrange(0, k + 1)));
        }
        k += 1;
    }
    assert(ids@.subrange(0, k as int) == ids@);
}

/// Whether `transactions` are the transactions of `log` from the sequence
/// number `initial` on.
fn matches_log(
    transactions: &Vec<(TxSequenceNumber, TransactionDigest)>,
    initial: TxSequenceNumber,
    log: &Vec<TransactionDigest>,
) -> (b: bool)
    requires
        initial + transactions@.len() <= log@.len(),
        log@.len() <= u64::MAX,
    ensures
        b == (forall|j: int|
            0 <= j < transactions@.len() ==> #[trigger] transactions@[j] == (
                (initial + j) as TxSequenceNumber,
                log@[initial + j],
            )),
{
    let count = transactions.len();
    let n = log.len();
    let mut j: usize = 0;
    while j < count
        invariant
            count == transactions@.len(),
            initial + count <= log@.len(),
            log@.len() <= u64::MAX,
            n == log@.len(),
            j <= count,
            forall|t: int|
                0 <= t < j ==> #[trigger] transactions@[t] == (
                    (initial + t) as TxSequenceNumber,
                    log@[initial + t],
                ),
        decreases count - j,
    {
        let (seq, digest) = transactions[j];
        let position = initial as usize + j;
        if seq != initial + j as u64 || digest != log[position] {
            assert(transactions@[j as int] != ((initial + j) as TxSequenceNumber, log@[initial + j]));
            return false;
        }
        j += 1;
    }
    true
}

/// The position of the last of `batches` that ends at or before `start`.
fn find_prior_batch(batches: &Vec<SignedBatch>, start: TxSequenceNumber) -> (r: Option<usize>)
    ensures
        match r {
            Some(f) => prior_batch(batch_views(batches@), start) == Some(f as int) && f
                < batches@.len(),
            None => prior_batch(batch_views(batches@), start) is None,
        },
{
    let ghost all = batch_views(batches@);
    let mut i: usize = batches.len();
    assert(all.subrange(0, i as int) == all);
    while i > 0
        invariant
            all == batch_views(batches@),
            i <= batches@.len(),
            prior_batch(all, start) == prior_batch(all.subrange(0, i as int), start),
        decreases i,
    {
        assert(all.subrange(0, i as int).last() == all[i - 1]);
        assert(all.subrange(0, i as int).drop_last() == all.subrange(0, i - 1));
        if batches[i - 1].batch.next_sequence_number <= start {
            return Some(i - 1);
        }
        i -= 1;
    }
    None
}

/// The batches from the one at `first` up to the first later one that
/// starts at or after `end`.
fn collect_batches(batches: &Vec<SignedBatch>, first: usize, end: TxSequenceNumber) -> (r: Vec<
    SignedBatch,
>)
    requires
        first < batches@.len(),
    ensures
        r@.len() > 0,
        batch_views(r@) == batch_views(batches@).subrange(
            first as int,
            batches_until(batch_views(batches@), first + 1, end),
        ),
{
    let ghost all = batch_views(batches@);
    let n = batches.len();
    let mut r: Vec<SignedBatch> = Vec::new();
    r.push(batches[first].clone());
    assert(batch_views(r@) == all.subrange(first as int, first + 1));
    let mut k: usize = first + 1;
    while k < n && batches[k].batch.initial_sequence_number < end
        invariant
            all == batch_views(batches@),
            n == all.len(),
            first < k <= n,
            batches_until(all, first + 1, end) == batches_until(all, k as int, end),
            batch_views(r@) == all.subrange(first as int, k as int),
        decreases n - k,
    {
        let ghost before = batch_views(r@);
        r.push(batches[k].clone());
        assert(batch_views(r@) == before.push(all[k as int]));
        assert(all.subrange(first as int, k + 1) == all.subrange(first as int, k as int).push(
            all[k as int],
        ));
        k += 1;
    }
    r
}

/// The transactions of `log` with the sequence numbers from `low` up to, not
/// including, `high`, as far as the log reaches.
fn collect_log(log: &Vec<TransactionDigest>, low: TxSequenceNumber, high: TxSequenceNumber) -> (r: Vec<
    (TxSequenceNumber, TransactionDigest),
>)
    ensures
        r@ == log_range(log@, low as int, high as int),
{
    let n = log.len();
    let lo = if (low as u128) < n as u128 {
        low as usize
    } else {
        n
    };
    let hi = if (high as u128) < n as u128 {
        high as usize
    } else {
        n
    };
    let mut r: Vec<(TxSequenceNumber, TransactionDigest)> = Vec::new();
    let mut position: usize = lo;
    while position < hi
        invariant
            lo == min_int(low as int, log@.len() as int),
            hi == min_int(high as int, log@.len() as int),
            lo <= position,
            position <= hi || position == lo,
            hi <= log@.len(),
            r@.len() == position - lo,
            forall|t: int|
                0 <= t < r@.len() ==> #[trigger] r@[t] == ((lo + t) as TxSequenceNumber, log@[lo + t]),
        decreases hi - position,
    {
        r.push((position as u64, log[position]));
        position += 1;
    }
    assert(r@ =~= log_range(log@, low as int, high as int));
    r
}

/// The store of one authority.
pub struct AuthorityStore {
    objects: Table<ObjectID, Object>,
    transaction_lock: Table<ObjectRef, TransactionDigest>,
    transactions: Table<TransactionDigest, SignedTransaction>,
    certificates: Table<TransactionDigest, CertifiedTransaction>,
    effects: Table<TransactionDigest, SignedTransactionEffects>,
    parent_sync: Table<ObjectRef, TransactionDigest>,
    sequenced: Table<(TransactionDigest, ObjectID), SequenceNumber>,
    schedule: Table<ObjectID, SequenceNumber>,
    executed_sequence: Vec<TransactionDigest>,
    batches: Vec<SignedBatch>,
    last_consensus_index: ExecutionIndices,
}

impl View for AuthorityStore {
    type V = DatabaseView;

    closed spec fn view(&self) -> DatabaseView {
        DatabaseView {
            objects: self.objects@,
            transaction_lock: self.transaction_lock@,
            transactions: self.transactions@,
            certificates: self.certificates@,
            effects: self.effects@,
            parent_sync: self.parent_sync@,
            sequenced: self.sequenced@,
            schedule: self.schedule@,
            executed_sequence: self.executed_sequence@,
            batches: batch_views(self.batches@),
            last_consensus_index: self.last_consensus_index,
        }
    }
}

impl AuthorityStore {
    /// Whether the store is well formed: each table is, and the store's
    /// invariant holds of the view.
    pub closed spec fn wf(&self) -> bool {
        &&& self.objects.wf()
        &&& self.transaction_lock.wf()
        &&& self.transactions.wf()
        &&& self.certificates.wf()
        &&& self.effects.wf()
        &&& self.parent_sync.wf()
        &&& self.sequenced.wf()
        &&& self.schedule.wf()
        &&& self@.inv()
    }

    /// A well-formed store satisfies the invariant of its view.
    pub proof fn lemma_inv(&self)
        requires
            self.wf(),
        ensures
            self@.inv(),
    {
    }

    /// The view of an empty store.
    pub open spec fn empty_view() -> DatabaseView {
        DatabaseView {
            objects: Map::empty(),
            transaction_lock: Map::empty(),
            transactions: Map::empty(),
            certificates: Map::empty(),
            effects: Map::empty(),
            parent_sync: Map::empty(),
            sequenced: Map::empty(),
            schedule: Map::empty(),
            executed_sequence: Seq::empty(),
            batches: Seq::empty(),
            last_consensus_index: ExecutionIndices {
                next_certificate_index: 0,
                next_batch_index: 0,
                next_transaction_index: 0,
            },
        }
    }

    /// An empty store.
    pub fn new() -> (s: Self)
        ensures
            s.wf(),
            s@ == AuthorityStore::empty_view(),
    {
        let s = AuthorityStore {
            objects: Table::new(),
            transaction_lock: Table::new(),
            transactions: Table::new(),
            certificates: Table::new(),
            effects: Table::new(),
            parent_sync: Table::new(),
            sequenced: Table::new(),
            schedule: Table::new(),
            executed_sequence: Vec::new(),
            batches: Vec::new(),
            last_consensus_index: ExecutionIndices {
                next_certificate_index: 0,
                next_batch_index: 0,
                next_transaction_index: 0,
            },
        };
        assert(s@.batches == Seq::<SignedBatchView>::empty());
        s
    }

    /// Whether this authority signed the transaction `digest`.
    pub fn transaction_exists(&self, digest: &TransactionDigest) -> (b: bool)
        requires
            self.wf(),
        ensures
            b == self@.transactions.contains_key(*digest),
    {
        self.transactions.contains_key(digest)
    }

    /// Whether the certificate of `digest` has been executed.
    pub fn effects_exists(&self, digest: &TransactionDigest) -> (b: bool)
        requires
            self.wf(),
        ensures
            b == self@.effects.contains_key(*digest),
    {
        self.effects.contains_key(digest)
    }

    /// The latest state of the object `id`, if the store has it.
    pub fn get_object(&self, id: &ObjectID) -> (r: Option<Object>)
        requires
            self.wf(),
        ensures
            r == if self@.objects.contains_key(*id) {
                Some(self@.objects[*id])
            } else {
                None
            },
    {
        match self.objects.get(id) {
            Some(o) => Some(*o),
            None => None,
        }
    }

    /// The transaction as this authority signed it, if it did.
    pub fn get_transaction(&self, digest: &TransactionDigest) -> (r: Option<SignedTransaction>)
        requires
            self.wf(),
        ensures
            match r {
                Some(t) => self@.transactions.contains_key(*digest) && t@ == self@.transactions[*digest],
                None => !self@.transactions.contains_key(*digest),
            },
    {
        match self.transactions.get(digest) {
            Some(t) => Some(t.clone()),
            None => None,
        }
    }

    /// The certificate of `digest`, if the store has it.
    pub fn read_certificate(&self, digest: &TransactionDigest) -> (r: Option<CertifiedTransaction>)
        requires
            self.wf(),
        ensures
            match r {
                Some(c) => self@.certificates.contains_key(*digest) && c@ == self@.certificates[*digest],
                None => !self@.certificates.contains_key(*digest),
            },
    {
        match self.certificates.get(digest) {
            Some(c) => Some(c.clone()),
            None => None,
        }
    }

    /// The signed effects of `digest`, if its certificate has been executed.
    pub fn get_effects(&self, digest: &TransactionDigest) -> (r: Option<SignedTransactionEffects>)
        requires
            self.wf(),
        ensures
            match r {
                Some(e) => self@.effects.contains_key(*digest) && e@ == self@.effects[*digest],
                None => !self@.effects.contains_key(*digest),
            },
    {
        match self.effects.get(digest) {
            Some(e) => Some(e.clone()),
            None => None,
        }
    }

    /// What the store knows of the transaction `digest`.
    pub fn get_signed_transaction_info(&self, digest: &TransactionDigest) -> (r: TransactionInfoResponse)
        requires
            self.wf(),
        ensures
            r@ == self@.transaction_info(*digest),
    {
        TransactionInfoResponse {
            signed_transaction: self.get_transaction(digest),
            certified_transaction: self.read_certificate(digest),
            signed_effects: self.get_effects(digest),
        }
    }

    /// The signed transaction that holds the lock on `object_ref`, if any.
    pub fn get_transaction_lock(&self, object_ref: &ObjectRef) -> (r: Option<SignedTransaction>)
        requires
            self.wf(),
        ensures
            match r {
                Some(t) => self@.lock_holder(*object_ref) == Some(t@),
                None => self@.lock_holder(*object_ref) is None,
            },
    {
        match self.transaction_lock.get(object_ref) {
            Some(digest) => self.get_transaction(digest),
            None => None,
        }
    }

    /// Locks each of `owned_input_objects` for `signed_transaction`, or none
    /// of them. The call fails when another transaction holds the lock on
    /// one of them, and returns the holder of the first such reference.
    /// Locking again what the same transaction holds changes nothing.
    pub fn set_transaction_lock(
        &mut self,
        owned_input_objects: &Vec<ObjectRef>,
        signed_transaction: SignedTransaction,
    ) -> (r: Result<(), SuiError>)
        requires
            old(self).wf(),
        ensures
            final(self).wf(),
            match first_conflict(
                old(self)@.transaction_lock,
                owned_input_objects@,
                signed_transaction@.transaction.digest,
            ) {
                Some(i) => {
                    &&& r matches Err(SuiError::ConflictingTransaction { pending_transaction })
                    &&& Some(pending_transaction@) == old(self)@.lock_holder(owned_input_objects@[i])
                    &&& final(self)@ == old(self)@
                },
                None => {
                    &&& r is Ok
                    &&& final(self)@ == old(self)@.set_transaction_lock(
                        owned_input_objects@,
                        signed_transaction@,
                    )
                },
            },
    {
        let digest = signed_transaction.digest();
        let n = owned_input_objects.len();
        let ghost lock0 = self@.transaction_lock;
        let ghost refs = owned_input_objects@;
        let mut i: usize = 0;
        while i < n
            invariant
                self.wf(),
                *self == *old(self),
                i <= n,
                n == refs.len(),
                refs == owned_input_objects@,
                lock0 == self@.transaction_lock,
                digest == signed_transaction@.transaction.digest,
                forall|j: int| 0 <= j < i ==> !conflicts_at(lock0, refs, digest, j),
            decreases n - i,
        {
            let holder = match self.transaction_lock.get(&owned_input_objects[i]) {
                Some(d) => Some(*d),
                None => None,
            };
            match holder {
                Some(previous) => {
                    if previous != digest {
                        assert(is_first_conflict(lock0, refs, digest, i as int));
                        proof {
                            let c = choose|c: int| is_first_conflict(lock0, refs, digest, c);
                            assert(c == i) by {
                                if c < i {
                                    assert(!conflicts_at(lock0, refs, digest, c));
                                }
                                if i < c {
                                    assert(!conflicts_at(lock0, refs, digest, i as int));
                                }
                            }
                        }
                        let pending_transaction = self.get_transaction(&previous).unwrap();
                        return Err(SuiError::ConflictingTransaction { pending_transaction });
                    }
                },
                None => {},
            }
            i += 1;
        }
        assert(first_conflict(lock0, refs, digest) is None) by {
            if exists|c: int| is_first_conflict(lock0, refs, digest, c) {
                let c = choose|c: int| is_first_conflict(lock0, refs, digest, c);
                assert(!conflicts_at(lock0, refs, digest, c));
            }
        }
        if !self.transactions.contains_key(&digest) {
            self.transactions.insert(digest, signed_transaction);
        }
        lock_all(&mut self.transaction_lock, owned_input_objects, digest);
        proof {
            let v = self@;
            let v0 = old(self)@;
            assert(v.objects == v0.objects);
            assert(v.certificates == v0.certificates);
            assert(v.effects == v0.effects);
            assert(v.executed_sequence == v0.executed_sequence);
            assert(v.transactions.contains_key(digest));
            assert forall|r: ObjectRef| #[trigger] v.transaction_lock.contains_key(r) implies v.transactions.contains_key(
                v.transaction_lock[r],
            ) by {
                lemma_lock_refs(lock0, refs, digest, r);
                if refs.contains(r) {
                } else {
                    assert(lock0.contains_key(r));
                    assert(v0.transactions.contains_key(lock0[r]));
                }
            }
        }
        Ok(())
    }

    /// The version that consensus assigned to the shared object `id` for the
    /// transaction `digest`, if it did.
    pub fn get_shared_lock(&self, digest: &TransactionDigest, id: &ObjectID) -> (r: Option<
        SequenceNumber,
    >)
        requires
            self.wf(),
        ensures
            r == self@.shared_lock(*digest, *id),
    {
        match self.sequenced.get(&(*digest, *id)) {
            Some(v) => Some(*v),
            None => None,
        }
    }

    /// For each of `ids`, the version that consensus assigned to it for the
    /// transaction `digest`, if it did.
    pub fn sequenced(&self, digest: &TransactionDigest, ids: &Vec<ObjectID>) -> (r: Vec<
        Option<SequenceNumber>,
    >)
        requires
            self.wf(),
        ensures
            r@.len() == ids@.len(),
            forall|i: int| 0 <= i < ids@.len() ==> r@[i] == self@.shared_lock(*digest, ids@[i]),
    {
        let mut r: Vec<Option<SequenceNumber>> = Vec::new();
        let mut i: usize = 0;
        while i < ids.len()
            invariant
                self.wf(),
                i <= ids@.len(),
                r@.len() == i,
                forall|j: int| 0 <= j < i ==> r@[j] == self@.shared_lock(*digest, ids@[j]),
            decreases ids@.len() - i,
        {
            r.push(self.get_shared_lock(digest, &ids[i]));
            i += 1;
        }
        r
    }

    /// How far the consensus output has been consumed.
    pub fn last_consensus_index(&self) -> (r: ExecutionIndices)
        ensures
            r == self@.last_consensus_index,
    {
        self.last_consensus_index
    }

    /// The sequence number that the next executed transaction gets.
    pub fn next_sequence_number(&self) -> (r: TxSequenceNumber)
        requires
            self.wf(),
        ensures
            r == self@.executed_sequence.len(),
    {
        self.executed_sequence.len() as u64
    }

    /// Records a certificate that consensus delivered and assigns a version
    /// of each of its shared inputs to it, in one step. Fails, and changes
    /// nothing, when one of the shared inputs has no version left.
    #[verifier::loop_isolation(false)]
    pub fn persist_certificate_and_lock_shared_objects(
        &mut self,
        certificate: CertifiedTransaction,
        global_certificate_index: ExecutionIndices,
    ) -> (r: Result<(), SuiError>)
        requires
            old(self).wf(),
        ensures
            final(self).wf(),
            if old(self)@.can_sequence(certificate@.transaction.shared_input_objects()) {
                &&& r is Ok
                &&& final(self)@ == old(self)@.persist_certificate_and_lock_shared_objects(
                    certificate@,
                    global_certificate_index,
                )
            } else {
                &&& r == Err::<(), SuiError>(SuiError::InvalidSequenceNumber)
                &&& final(self)@ == old(self)@
            },
    {
        let digest = certificate.digest();
        let ids = certificate.shared_input_objects();
        let n = ids.len();
        let mut versions: Vec<SequenceNumber> = Vec::new();
        let mut i: usize = 0;
        while i < n
            invariant
                self.wf(),
                *self == *old(self),
                n == ids@.len(),
                i <= n,
                versions@.len() == i,
                forall|j: int| 0 <= j < i ==> versions@[j] == self@.next_shared_version(#[trigger] ids@[j]),
                forall|j: int| 0 <= j < i ==> self@.next_shared_version(#[trigger] ids@[j]) < MAX_SEQUENCE_NUMBER,
            decreases n - i,
        {
            let version = match self.schedule.get(&ids[i]) {
                Some(v) => *v,
                None => INITIAL_SEQUENCE_NUMBER,
            };
            if version >= MAX_SEQUENCE_NUMBER {
                assert(self@.next_shared_version(ids@[i as int]) >= MAX_SEQUENCE_NUMBER);
                return Err(SuiError::InvalidSequenceNumber);
            }
            versions.push(version);
            i += 1;
        }
        let ghost v0 = self@;
        assign_versions(&mut self.sequenced, &mut self.schedule, digest, &ids, &versions, Ghost(v0));
        self.certificates.insert(digest, certificate);
        self.last_consensus_index = global_certificate_index;
        proof {
            let v = self@;
            assert(v.objects == v0.objects);
            assert(v.transactions == v0.transactions);
            assert(v.transaction_lock == v0.transaction_lock);
            assert(v.effects == v0.effects);
            assert(v.executed_sequence == v0.executed_sequence);
            assert(v.parent_sync == v0.parent_sync);
            assert(v.batches == v0.batches);
        }
        Ok(())
    }

    /// Puts an object into the store at the genesis.
    pub fn insert_genesis_object(&mut self, object: Object)
        requires
            old(self).wf(),
        ensures
            final(self).wf(),
            final(self)@ == old(self)@.insert_genesis_object(object),
    {
        self.objects.insert(object.id, object);
        self.parent_sync.insert(object.compute_object_reference(), object.previous_transaction);
        proof {
            let v = self@;
            let v0 = old(self)@;
            assert(v.transactions == v0.transactions);
            assert(v.transaction_lock == v0.transaction_lock);
            assert(v.certificates == v0.certificates);
            assert(v.effects == v0.effects);
            assert(v.executed_sequence == v0.executed_sequence);
        }
    }

    /// Commits an executed certificate in one step.
    pub(crate) fn update_state(
        &mut self,
        active_inputs: &Vec<ObjectRef>,
        written: &Vec<Object>,
        deleted: &Vec<ObjectRef>,
        certificate: CertifiedTransaction,
        signed_effects: SignedTransactionEffects,
    )
        requires
            old(self).wf(),
            signed_effects@.effects.transaction_digest == certificate@.transaction.digest,
            !old(self)@.effects.contains_key(certificate@.transaction.digest),
            old(self)@.executed_sequence.len() < u64::MAX,
        ensures
            final(self).wf(),
            final(self)@ == old(self)@.update_state(
                active_inputs@,
                written@,
                deleted@,
                certificate@,
                signed_effects@,
            ),
    {
        let digest = certificate.digest();
        let ghost v0 = self@;
        self.certificates.insert(digest, certificate);
        self.effects.insert(digest, signed_effects);
        release_all(&mut self.transaction_lock, active_inputs);
        delete_all(&mut self.objects, deleted);
        write_all(&mut self.objects, written);
        lock_all(&mut self.parent_sync, deleted, digest);
        let refs = written_refs(written);
        lock_all(&mut self.parent_sync, &refs, digest);
        self.executed_sequence.push(digest);
        proof {
            let v = self@;
            assert(v.transactions == v0.transactions);
            assert(v.sequenced == v0.sequenced);
            assert(v.schedule == v0.schedule);
            assert(v.batches == v0.batches);
            lemma_update_state_keeps_inv(
                v0,
                active_inputs@,
                written@,
                deleted@,
                certificate@,
                signed_effects@,
            );
        }
    }

    /// For each of `ids`, the latest state of that object, if the store has
    /// it.
    pub fn get_objects(&self, ids: &Vec<ObjectID>) -> (r: Vec<Option<Object>>)
        requires
            self.wf(),
        ensures
            r@.len() == ids@.len(),
            forall|i: int|
                0 <= i < ids@.len() ==> r@[i] == if self@.objects.contains_key(ids@[i]) {
                    Some(self@.objects[ids@[i]])
                } else {
                    None
                },
    {
        let mut r: Vec<Option<Object>> = Vec::new();
        let mut i: usize = 0;
        while i < ids.len()
            invariant
                self.wf(),
                i <= ids@.len(),
                r@.len() == i,
                forall|j: int|
                    0 <= j < i ==> r@[j] == if self@.objects.contains_key(ids@[j]) {
                        Some(self@.objects[ids@[j]])
                    } else {
                        None
                    },
            decreases ids@.len() - i,
        {
            r.push(self.get_object(&ids[i]));
            i += 1;
        }
        r
    }

    /// The transaction that produced the object version `object_ref`, if it
    /// is recorded.
    pub fn parent(&self, object_ref: &ObjectRef) -> (r: Option<TransactionDigest>)
        requires
            self.wf(),
        ensures
            r == if self@.parent_sync.contains_key(*object_ref) {
                Some(self@.parent_sync[*object_ref])
            } else {
                None
            },
    {
        match self.parent_sync.get(object_ref) {
            Some(d) => Some(*d),
            None => None,
        }
    }

    /// The recorded versions of the object `object_id`, at the version `seq`
    /// if one is given, each with the transaction that produced it, in
    /// ascending order.
    pub fn get_parent_iterator(&self, object_id: ObjectID, seq: Option<SequenceNumber>) -> (r: Vec<
        (ObjectRef, TransactionDigest),
    >)
        requires
            self.wf(),
        ensures
            self@.is_parent_list(r@, object_id, seq),
    {
        let ghost keys = self.parent_sync.key_seq();
        proof {
            self.parent_sync.lemma_keys();
        }
        let n = self.parent_sync.len();
        let mut matches: Vec<ObjectRef> = Vec::new();
        let mut i: usize = 0;
        while i < n
            invariant
                self.wf(),
                keys == self.parent_sync.key_seq(),
                keys.no_duplicates(),
                forall|k: ObjectRef| keys.contains(k) <==> self@.parent_sync.contains_key(k),
                n == keys.len(),
                i <= n,
                forall|j: int|
                    0 <= j < matches@.len() ==> self@.is_parent_entry(
                        #[trigger] matches@[j],
                        object_id,
                        seq,
                    ),
                forall|j: int|
                    0 <= j < matches@.len() ==> keys.subrange(0, i as int).contains(#[trigger] matches@[j]),
                forall|t: int|
                    0 <= t < i && self@.is_parent_entry(#[trigger] keys[t], object_id, seq)
                        ==> matches@.contains(keys[t]),
                matches@.no_duplicates(),
            decreases n - i,
        {
            let key = *self.parent_sync.key_at(i);
            let wanted = key.0 == object_id && match seq {
                Some(v) => key.1 == v,
                None => true,
            };
            proof {
                assert forall|x: ObjectRef| keys.subrange(0, i as int).contains(x) implies keys.subrange(
                    0,
                    i + 1,
                ).contains(x) by {
                    lemma_prefix_contains(keys, i as int, x);
                }
                if keys.subrange(0, i as int).contains(key) {
                    let t = choose|t: int| 0 <= t < i && keys.subrange(0, i as int)[t] == key;
                    assert(keys[t] == keys[i as int]);
                }
            }
            if wanted {
                let ghost before = matches@;
                matches.push(key);
                proof {
                    assert(keys.subrange(0, i + 1)[i as int] == key);
                    assert forall|t: int|
                        0 <= t < i + 1 && self@.is_parent_entry(
                            #[trigger] keys[t],
                            object_id,
                            seq,
                        ) implies matches@.contains(keys[t]) by {
                        if t < i {
                            let j = choose|j: int| 0 <= j < before.len() && before[j] == keys[t];
                            assert(matches@[j] == keys[t]);
                        } else {
                            assert(matches@[before.len() as int] == key);
                        }
                    }
                }
            }
            i += 1;
        }
        let sorted = sort_object_refs(matches);
        proof {
            lemma_sorted_refs_elements(matches@);
            assert forall|j: int| 0 <= j < sorted@.len() implies self@.is_parent_entry(
                #[trigger] sorted@[j],
                object_id,
                seq,
            ) by {
                assert(sorted_refs(matches@).contains(sorted@[j]));
                assert(matches@.contains(sorted@[j]));
                let t = choose|t: int| 0 <= t < matches@.len() && matches@[t] == sorted@[j];
                assert(self@.is_parent_entry(matches@[t], object_id, seq));
            }
        }
        let mut r: Vec<(ObjectRef, TransactionDigest)> = Vec::new();
        let mut k: usize = 0;
        while k < sorted.len()
            invariant
                self.wf(),
                k <= sorted@.len(),
                r@.len() == k,
                forall|j: int|
                    0 <= j < sorted@.len() ==> self@.is_parent_entry(
                        #[trigger] sorted@[j],
                        object_id,
                        seq,
                    ),
                forall|j: int|
                    0 <= j < k ==> (#[trigger] r@[j]).0 == sorted@[j] && r@[j].1 == self@.parent_sync[sorted@[j]],
            decreases sorted@.len() - k,
        {
            let object_ref = sorted[k];
            assert(self@.is_parent_entry(sorted@[k as int], object_id, seq));
            let digest = self.parent(&object_ref).unwrap();
            r.push((object_ref, digest));
            k += 1;
        }
        proof {
            assert forall|x: ObjectRef| self@.is_parent_entry(x, object_id, seq) implies exists|j: int|
                0 <= j < r@.len() && (#[trigger] r@[j]).0 == x by {
                assert(keys.contains(x));
                let t = choose|t: int| 0 <= t < keys.len() && keys[t] == x;
                assert(matches@.contains(keys[t]));
                assert(sorted_refs(matches@).contains(x));
                let j = choose|j: int| 0 <= j < sorted@.len() && sorted@[j] == x;
                assert(r@[j].0 == x);
            }
            assert(sorted@.no_duplicates());
            assert forall|a: int, b: int| 0 <= a < b < r@.len() implies (#[trigger] r@[a]).0 != (
            #[trigger] r@[b]).0 && ref_le(r@[a].0, r@[b].0) by {
                assert(sorted@[a] != sorted@[b]);
                assert(ref_le(sorted@[a], sorted@[b]));
            }
        }
        r
    }

    /// The latest recorded version of the object `object_id`, with the
    /// transaction that produced it.
    pub fn get_latest_parent_entry(&self, object_id: ObjectID) -> (r: Option<
        (ObjectRef, TransactionDigest),
    >)
        requires
            self.wf(),
        ensures
            match r {
                Some((object_ref, digest)) => {
                    &&& self@.is_parent_entry(object_ref, object_id, None)
                    &&& digest == self@.parent_sync[object_ref]
                    &&& forall|other: ObjectRef|
                        self@.is_parent_entry(other, object_id, None) ==> ref_le(other, object_ref)
                },
                None => forall|other: ObjectRef| !self@.is_parent_entry(other, object_id, None),
            },
    {
        let entries = self.get_parent_iterator(object_id, None);
        let n = entries.len();
        if n == 0 {
            proof {
                assert forall|other: ObjectRef| !self@.is_parent_entry(other, object_id, None) by {
                    if self@.is_parent_entry(other, object_id, None) {
                        let i = choose|i: int| 0 <= i < entries@.len() && (#[trigger] entries@[i]).0 == other;
                    }
                }
            }
            None
        } else {
            let last = entries[n - 1];
            proof {
                assert forall|other: ObjectRef|
                    self@.is_parent_entry(other, object_id, None) implies ref_le(other, last.0) by {
                    let i = choose|i: int| 0 <= i < entries@.len() && (#[trigger] entries@[i]).0 == other;
                    if i < n - 1 {
                        assert(ref_le(entries@[i].0, entries@[n - 1].0));
                    }
                }
            }
            Some(last)
        }
    }

    /// The references of the objects that `account` owns, in ascending
    /// order.
    pub fn get_account_objects(&self, account: SuiAddress) -> (r: Vec<ObjectRef>)
        requires
            self.wf(),
        ensures
            self@.is_account_list(r@, account),
    {
        let ghost keys = self.objects.key_seq();
        proof {
            self.objects.lemma_keys();
        }
        let n = self.objects.len();
        let mut owned: Vec<ObjectRef> = Vec::new();
        let mut i: usize = 0;
        while i < n
            invariant
                self.wf(),
                keys == self.objects.key_seq(),
                keys.no_duplicates(),
                forall|k: ObjectID| keys.contains(k) <==> self@.objects.contains_key(k),
                n == keys.len(),
                i <= n,
                forall|j: int| 0 <= j < owned@.len() ==> self@.is_owned_by(#[trigger] owned@[j], account),
                forall|j: int|
                    0 <= j < owned@.len() ==> keys.subrange(0, i as int).contains((#[trigger] owned@[j]).0),
                forall|t: int|
                    0 <= t < i && self@.is_owned_by(
                        (#[trigger] self@.objects[keys[t]]).object_ref(),
                        account,
                    ) ==> owned@.contains(self@.objects[keys[t]].object_ref()),
                owned@.no_duplicates(),
            decreases n - i,
        {
            let object = *self.objects.value_at(i);
            let is_owner = match object.owner {
                Owner::AddressOwner(owner) => owner == account,
                _ => false,
            };
            proof {
                assert(self@.objects.contains_key(keys[i as int]));
                assert(object == self@.objects[keys[i as int]]);
                assert(object.id == keys[i as int]);
                assert forall|x: ObjectID| keys.subrange(0, i as int).contains(x) implies keys.subrange(
                    0,
                    i + 1,
                ).contains(x) by {
                    lemma_prefix_contains(keys, i as int, x);
                }
                if keys.subrange(0, i as int).contains(object.id) {
                    let t = choose|t: int| 0 <= t < i && keys.subrange(0, i as int)[t] == object.id;
                    assert(keys[t] == keys[i as int]);
                }
            }
            if is_owner {
                let ghost before = owned@;
                owned.push(object.compute_object_reference());
                proof {
                    assert(keys.subrange(0, i + 1)[i as int] == object.id);
                    assert forall|t: int|
                        0 <= t < i + 1 && self@.is_owned_by(
                            (#[trigger] self@.objects[keys[t]]).object_ref(),
                            account,
                        ) implies owned@.contains(self@.objects[keys[t]].object_ref()) by {
                        if t < i {
                            let x = self@.objects[keys[t]].object_ref();
                            let j = choose|j: int| 0 <= j < before.len() && before[j] == x;
                            assert(owned@[j] == x);
                        } else {
                            assert(owned@[before.len() as int] == object.object_ref());
                        }
                    }
                    assert forall|a: int, b: int|
                        0 <= a < owned@.len() && 0 <= b < owned@.len() && a != b implies owned@[a]
                        != owned@[b] by {
                        if a == before.len() || b == before.len() {
                            let c = if a == before.len() {
                                b
                            } else {
                                a
                            };
                            assert(keys.subrange(0, i as int).contains(before[c].0));
                        }
                    }
                }
            }
            i += 1;
        }
        let r = sort_object_refs(owned);
        proof {
            lemma_sorted_refs_elements(owned@);
            assert forall|x: ObjectRef| r@.contains(x) <==> self@.is_owned_by(x, account) by {
                if self@.is_owned_by(x, account) {
                    assert(keys.contains(x.0));
                    let t = choose|t: int| 0 <= t < keys.len() && keys[t] == x.0;
                    assert(self@.objects[keys[t]].object_ref() == x);
                    assert(owned@.contains(self@.objects[keys[t]].object_ref()));
                    assert(sorted_refs(owned@).contains(x));
                }
                if r@.contains(x) {
                    assert(sorted_refs(owned@).contains(x));
                    assert(owned@.contains(x));
                    let j = choose|j: int| 0 <= j < owned@.len() && owned@[j] == x;
                    assert(self@.is_owned_by(owned@[j], account));
                }
            }
            assert(r@.no_duplicates());
        }
        r
    }

    /// Puts objects into the store at the genesis.
    pub fn bulk_object_insert(&mut self, objects: &Vec<Object>)
        requires
            old(self).wf(),
        ensures
            final(self).wf(),
            final(self)@ == insert_genesis_objects(old(self)@, objects@),
    {
        let mut i: usize = 0;
        while i < objects.len()
            invariant
                self.wf(),
                i <= objects@.len(),
                self@ == insert_genesis_objects(old(self)@, objects@.subrange(0, i as int)),
            decreases objects@.len() - i,
        {
            self.insert_genesis_object(objects[i]);
            assert(objects@.subrange(0, i + 1).drop_last() == objects@.subrange(0, i as int));
            i += 1;
        }
        assert(objects@.subrange(0, i as int) == objects@);
    }

    /// Whether the store holds no object.
    pub fn database_is_empty(&self) -> (b: bool)
        requires
            self.wf(),
        ensures
            b == (self@.objects.dom().len() == 0),
    {
        self.objects.len() == 0
    }

    /// The last sealed batch, if a batch has been sealed.
    pub fn last_batch(&self) -> (r: Option<SignedBatch>)
        requires
            self.wf(),
        ensures
            match r {
                Some(b) => self@.last_batch() == Some(b@),
                None => self@.last_batch() is None,
            },
    {
        let n = self.batches.len();
        if n == 0 {
            None
        } else {
            Some(self.batches[n - 1].clone())
        }
    }

    /// Stores a sealed batch. The batch must continue the log from the last
    /// stored batch, or, as the first, be the empty batch at the start of the
    /// log.
    pub fn add_batch(&mut self, batch: SignedBatch) -> (r: Result<(), SuiError>)
        requires
            old(self).wf(),
        ensures
            final(self).wf(),
            if old(self)@.accepts_batch(batch@) {
                &&& r is Ok
                &&& final(self)@ == old(self)@.add_batch(batch@)
            } else {
                &&& r == Err::<(), SuiError>(SuiError::GenericAuthorityError)
                &&& final(self)@ == old(self)@
            },
    {
        let n = self.batches.len();
        let count = batch.batch.transactions.len();
        let log_len = self.executed_sequence.len();
        let initial = batch.batch.initial_sequence_number;
        if n == 0 {
            if initial != 0 || batch.batch.previous_digest.is_some() || count != 0 {
                return Err(SuiError::GenericAuthorityError);
            }
        } else {
            let last = &self.batches[n - 1].batch;
            assert(self@.batches.last().batch == last@);
            let linked = match batch.batch.previous_digest {
                Some(d) => d == last.digest,
                None => false,
            };
            if initial != last.next_sequence_number || !linked || count == 0 {
                return Err(SuiError::GenericAuthorityError);
            }
        }
        if initial as u128 + count as u128 > log_len as u128 {
            return Err(SuiError::GenericAuthorityError);
        }
        if batch.batch.next_sequence_number as u128 != initial as u128 + count as u128
            || batch.batch.size as u128 != count as u128 {
            return Err(SuiError::GenericAuthorityError);
        }
        if !matches_log(&batch.batch.transactions, initial, &self.executed_sequence) {
            return Err(SuiError::GenericAuthorityError);
        }
        assert(self@.accepts_batch(batch@));
        let ghost bv = batch@;
        self.batches.push(batch);
        proof {
            let v = self@;
            let v0 = old(self)@;
            assert(v.batches =~= v0.batches.push(bv));
            assert(v.objects == v0.objects);
            assert(v.transactions == v0.transactions);
            assert(v.transaction_lock == v0.transaction_lock);
            assert(v.certificates == v0.certificates);
            assert(v.effects == v0.effects);
            assert(v.executed_sequence == v0.executed_sequence);
            assert forall|i: int| 0 <= i < v.batches.len() implies batch_follows(
                batch_before(v.batches, i),
                (#[trigger] v.batches[i]).batch,
                v.executed_sequence,
            ) by {
                if i < v0.batches.len() {
                    assert(v.batches[i] == v0.batches[i]);
                    assert(batch_before(v.batches, i) == batch_before(v0.batches, i));
                }
            }
        }
        Ok(())
    }

    /// What a replay of the sequence numbers from `start` up to, not
    /// including, `end` shows: the batches from the last one that ends at
    /// or before `start` to the last one that starts before `end`, and the
    /// transactions after the first of these batches, up to the end of the
    /// last of them or up to `end`, whichever is later.
    pub fn batches_and_transactions(&self, start: TxSequenceNumber, end: TxSequenceNumber) -> (r: Result<
        (Vec<SignedBatch>, Vec<(TxSequenceNumber, TransactionDigest)>),
        SuiError,
    >)
        requires
            self.wf(),
        ensures
            match r {
                Ok((batches, transactions)) => {
                    &&& self@.batches_in_range(start, end) == Some(
                        batch_views(batches@),
                    )
                    &&& batches@.len() > 0
                    &&& transactions@ == self@.transactions_in_range(
                        batch_views(batches@),
                        end,
                    )
                },
                Err(e) => {
                    &&& e == SuiError::NoBatchesFoundError
                    &&& self@.batches_in_range(start, end) is None
                },
            },
    {
        let first = match find_prior_batch(&self.batches, start) {
            Some(f) => f,
            None => {
                return Err(SuiError::NoBatchesFoundError);
            },
        };
        let batches = collect_batches(&self.batches, first, end);
        let n = batches.len();
        let first_seq = batches[0].batch.next_sequence_number;
        let last_next = batches[n - 1].batch.next_sequence_number;
        let last_seq = if last_next > end {
            last_next
        } else {
            end
        };
        let transactions = collect_log(&self.executed_sequence, first_seq, last_seq);
        proof {
            let shown = batch_views(batches@);
            assert(shown.first() == batches@[0]@);
            assert(shown.last() == batches@[n - 1]@);
        }
        Ok((batches, transactions))
    }

    /// The executed transaction at the sequence number `seq`, if the log
    /// reaches that far.
    pub fn executed_transaction(&self, seq: TxSequenceNumber) -> (r: Option<
        (TxSequenceNumber, TransactionDigest),
    >)
        requires
            self.wf(),
        ensures
            r == if seq < self@.executed_sequence.len() {
                Some((seq, self@.executed_sequence[seq as int]))
            } else {
                None
            },
    {
        let n = self.executed_sequence.len();
        if (seq as u128) < n as u128 {
            Some((seq, self.executed_sequence[seq as usize]))
        } else {
            None
        }
    }

    /// The versions that consensus assigned to shared objects for the
    /// transaction `digest`, each with the identifier of its object, in
    /// ascending order of the identifiers.
    pub fn all_shared_locks(&self, digest: &TransactionDigest) -> (r: Vec<(ObjectID, SequenceNumber)>)
        requires
            self.wf(),
        ensures
            self@.is_shared_lock_list(r@, *digest),
    {
        let ghost keys = self.sequenced.key_seq();
        proof {
            self.sequenced.lemma_keys();
        }
        let n = self.sequenced.len();
        let mut found: Vec<ObjectRef> = Vec::new();
        let mut i: usize = 0;
        while i < n
            invariant
                self.wf(),
                keys == self.sequenced.key_seq(),
                keys.no_duplicates(),
                forall|k: (TransactionDigest, ObjectID)|
                    keys.contains(k) <==> self@.sequenced.contains_key(k),
                n == keys.len(),
                i <= n,
                forall|j: int|
                    0 <= j < found@.len() ==> self@.shared_lock(*digest, (#[trigger] found@[j]).0) == Some(
                        found@[j].1,
                    ) && found@[j].2 == 0,
                forall|j: int|
                    0 <= j < found@.len() ==> keys.subrange(0, i as int).contains(
                        (*digest, (#[trigger] found@[j]).0),
                    ),
                forall|t: int|
                    0 <= t < i && (#[trigger] keys[t]).0 == *digest ==> exists|j: int|
                        0 <= j < found@.len() && (#[trigger] found@[j]).0 == keys[t].1,
                forall|a: int, b: int|
                    0 <= a < found@.len() && 0 <= b < found@.len() && a != b ==> (#[trigger] found@[a]).0
                        != (#[trigger] found@[b]).0,
            decreases n - i,
        {
            let key = *self.sequenced.key_at(i);
            let version = *self.sequenced.value_at(i);
            proof {
                assert forall|x: (TransactionDigest, ObjectID)|
                    keys.subrange(0, i as int).contains(x) implies keys.subrange(0, i + 1).contains(
                    x,
                ) by {
                    lemma_prefix_contains(keys, i as int, x);
                }
                if keys.subrange(0, i as int).contains(key) {
                    let t = choose|t: int| 0 <= t < i && keys.subrange(0, i as int)[t] == key;
                    assert(keys[t] == keys[i as int]);
                }
            }
            if key.0 == *digest {
                let ghost before = found@;
                found.push((key.1, version, 0));
                proof {
                    assert(keys.subrange(0, i + 1)[i as int] == key);
                    assert forall|t: int|
                        0 <= t < i + 1 && (#[trigger] keys[t]).0 == *digest implies exists|j: int|
                        0 <= j < found@.len() && (#[trigger] found@[j]).0 == keys[t].1 by {
                        if t < i {
                            let j = choose|j: int| 0 <= j < before.len() && (#[trigger] before[j]).0 == keys[t].1;
                            assert(found@[j] == before[j]);
                        } else {
                            assert(found@[before.len() as int].0 == key.1);
                        }
                    }
                    assert forall|a: int, b: int|
                        0 <= a < found@.len() && 0 <= b < found@.len() && a != b implies (
                    #[trigger] found@[a]).0 != (#[trigger] found@[b]).0 by {
                        if a == before.len() || b == before.len() {
                            let c = if a == before.len() {
                                b
                            } else {
                                a
                            };
                            assert(found@[c] == before[c]);
                            assert(keys.subrange(0, i as int).contains((*digest, before[c].0)));
                        } else {
                            assert(found@[a] == before[a] && found@[b] == before[b]);
                        }
                    }
                }
            }
            i += 1;
        }
        let sorted = sort_object_refs(found);
        proof {
            lemma_sorted_refs_elements(found@);
        }
        let mut r: Vec<(ObjectID, SequenceNumber)> = Vec::new();
        let mut k: usize = 0;
        while k < sorted.len()
            invariant
                k <= sorted@.len(),
                r@.len() == k,
                forall|j: int| 0 <= j < k ==> (#[trigger] r@[j]) == (sorted@[j].0, sorted@[j].1),
            decreases sorted@.len() - k,
        {
            r.push((sorted[k].0, sorted[k].1));
            k += 1;
        }
        proof {
            assert forall|j: int| 0 <= j < r@.len() implies self@.shared_lock(
                *digest,
                (#[trigger] r@[j]).0,
            ) == Some(r@[j].1) by {
                assert(sorted_refs(found@).contains(sorted@[j]));
                assert(found@.contains(sorted@[j]));
                let t = choose|t: int| 0 <= t < found@.len() && found@[t] == sorted@[j];
                assert(self@.shared_lock(*digest, found@[t].0) == Some(found@[t].1));
            }
            assert forall|id: ObjectID| self@.sequenced.contains_key((*digest, id)) implies exists|j: int|
                0 <= j < r@.len() && (#[trigger] r@[j]).0 == id by {
                assert(keys.contains((*digest, id)));
                let t = choose|t: int| 0 <= t < keys.len() && keys[t] == (*digest, id);
                assert(keys[t].0 == *digest);
                let j = choose|j: int| 0 <= j < found@.len() && (#[trigger] found@[j]).0 == keys[t].1;
                assert(found@.contains(found@[j]));
                assert(sorted_refs(found@).contains(found@[j]));
                let m = choose|m: int| 0 <= m < sorted@.len() && sorted@[m] == found@[j];
                assert(r@[m].0 == id);
            }
            assert forall|a: int, b: int| 0 <= a < b < r@.len() implies (#[trigger] r@[a]).0 < (
            #[trigger] r@[b]).0 by {
                assert(ref_le(sorted@[a], sorted@[b]));
                assert(sorted_refs(found@).contains(sorted@[a]));
                assert(sorted_refs(found@).contains(sorted@[b]));
                assert(found@.contains(sorted@[a]));
                assert(found@.contains(sorted@[b]));
                let ta = choose|t: int| 0 <= t < found@.len() && found@[t] == sorted@[a];
                let tb = choose|t: int| 0 <= t < found@.len() && found@[t] == sorted@[b];
                if sorted@[a].0 == sorted@[b].0 {
                    assert(ta == tb);
                    assert(sorted@.no_duplicates());
                }
            }
        }
        r
    }
}

} // verus!

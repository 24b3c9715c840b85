//! The authority's state machine.
//!
//! The state holds the store, the committee and the notifier. Each request
//! is one atomic step on it. A request that is refused leaves the store as
//! it was, and a request that is repeated is answered as it was the first
//! time.
//!
//! Two pieces of work are done outside and handed in: signatures, which
//! come as opaque tokens together with a flag that says whether they were
//! checked, and the execution of a certificate, whose output is handed to
//! [`AuthorityState::commit_certificate`].

use std::collections::{HashMap, VecDeque};
use vstd::prelude::*;
use crate::authority_notifier::{lemma_ready_len, NotifierView, TransactionNotifier};
use crate::authority_store::{
    first_conflict, insert_genesis_objects, lemma_insert_genesis_objects_frame, lemma_lock_refs,
    lemma_set_transaction_lock_keeps_inv, lemma_update_state_keeps_inv, AuthorityStore,
    DatabaseView,
};
use crate::authority_batch::{
    forwarded, last_batch_of, last_transaction_of, lemma_service_forwards_in_order, BatchAction,
    BatchEvent, BatchService, BatchServiceView, BatchStream, BatchStreamView,
};
use crate::batch::{
    batch_views, item_views, AuthorityBatch, AuthorityBatchView, SignedBatch, SignedBatchView,
    UpdateItem, UpdateItemView,
};
use crate::base_types::{
    ref_le, sort_object_refs, sorted_refs, AuthorityName, AuthoritySignature, BatchDigest,
    ExecutionIndices, ObjectID, ObjectRef, SequenceNumber, SuiAddress, TransactionDigest,
    TxSequenceNumber, GENESIS_TRANSACTION_DIGEST,
};
use crate::committee::{Committee, CommitteeView};
use crate::error::{SuiError, SuiErrorView};
use crate::messages::{
    AccountInfoRequest, AccountInfoResponse, BatchInfoRequest, CertifiedTransaction,
    CertifiedTransactionView, ConfirmationTransaction, InputObjectKind, ObjectInfoRequest,
    ObjectInfoRequestKind, ObjectInfoResponse, ObjectInfoResponseView, ObjectResponse,
    ObjectResponseView, SignedTransaction, SignedTransactionEffects, SignedTransactionEffectsView,
    SignedTransactionView, SuiGasStatus, Transaction, TransactionInfoRequest,
    TransactionInfoResponse, TransactionInfoResponseView, TransactionView,
};
use crate::object::Object;
use crate::transaction_input_checker::{
    check_transaction_input, check_transaction_input_spec, filter_owned_objects,
    filter_shared_objects, owned_refs, shared_refs,
};

verus! {

/// The most items of the log that one request may ask for.
pub const MAX_ITEMS_LIMIT: u64 = 100_000;

/// How many updates the stream to subscribers buffers.
pub const BROADCAST_CAPACITY: usize = 10_000;

/// A counter after one more event. It stops at the largest value.
pub open spec fn bump(counter: u64) -> u64 {
    if counter < u64::MAX {
        (counter + 1) as u64
    } else {
        counter
    }
}

/// A counter after `n` more events. It stops at the largest value.
pub open spec fn bump_by(counter: u64, n: u64) -> u64 {
    if counter + n <= u64::MAX {
        (counter + n) as u64
    } else {
        u64::MAX
    }
}

fn bumped(counter: u64) -> (r: u64)
    ensures
        r == bump(counter),
{
    if counter < u64::MAX {
        counter + 1
    } else {
        counter
    }
}

fn bumped_by(counter: u64, n: u64) -> (r: u64)
    ensures
        r == bump_by(counter, n),
{
    if n <= u64::MAX - counter {
        counter + n
    } else {
        u64::MAX
    }
}

/// Counters of what the authority has done.
#[derive(Clone, Copy, Debug, PartialEq, Eq, Structural)]
pub struct AuthorityMetrics {
    /// Transactions received.
    pub tx_orders: u64,
    /// Certificates received.
    pub total_certs: u64,
    /// Effects produced, which is certificates executed.
    pub total_effects: u64,
    /// Events that executions emitted.
    pub total_events: u64,
    /// Signature errors.
    pub signature_errors: u64,
    /// Transactions with shared objects whose inputs passed the check.
    pub shared_obj_tx: u64,
    /// Transactions that had been processed before.
    pub tx_already_processed: u64,
}

impl AuthorityMetrics {
    /// Counters that have counted nothing.
    pub open spec fn zero() -> AuthorityMetrics {
        AuthorityMetrics {
            tx_orders: 0,
            total_certs: 0,
            total_effects: 0,
            total_events: 0,
            signature_errors: 0,
            shared_obj_tx: 0,
            tx_already_processed: 0,
        }
    }

    /// Counters that have counted nothing.
    pub fn new() -> (r: AuthorityMetrics)
        ensures
            r == AuthorityMetrics::zero(),
    {
        AuthorityMetrics {
            tx_orders: 0,
            total_certs: 0,
            total_effects: 0,
            total_events: 0,
            signature_errors: 0,
            shared_obj_tx: 0,
            tx_already_processed: 0,
        }
    }
}

impl Default for AuthorityMetrics {
    fn default() -> (r: Self)
        ensures
            r == AuthorityMetrics::zero(),
    {
        AuthorityMetrics::new()
    }
}

/// The empty batch at the start of the log, sealed by `name` with the given
/// digest and signature.
pub open spec fn initial_batch(
    name: AuthorityName,
    digest: BatchDigest,
    signature: AuthoritySignature,
) -> SignedBatchView {
    SignedBatchView { batch: AuthorityBatchView::initial(digest), authority: name, signature }
}

/// The view of a response or of the error in its place.
pub open spec fn response_view(r: Result<TransactionInfoResponse, SuiError>) -> Result<
    TransactionInfoResponseView,
    SuiErrorView,
> {
    match r {
        Ok(response) => Ok(response@),
        Err(e) => Err(e@),
    }
}

/// The failure of the check of the shared inputs of the transaction
/// `digest`, if it fails: that of the first of `refs` to which consensus has
/// not assigned a version, or has assigned another version than the one
/// presented.
pub open spec fn shared_lock_error(
    store: DatabaseView,
    digest: TransactionDigest,
    refs: Seq<ObjectRef>,
) -> Option<SuiErrorView>
    decreases refs.len(),
{
    if refs.len() == 0 {
        None
    } else {
        match shared_lock_error(store, digest, refs.drop_last()) {
            Some(e) => Some(e),
            None => shared_lock_error_at(store, digest, refs.last()),
        }
    }
}

/// The failure of the check of one shared input, if it fails.
pub open spec fn shared_lock_error_at(store: DatabaseView, digest: TransactionDigest, r: ObjectRef) -> Option<
    SuiErrorView,
> {
    match store.shared_lock(digest, r.0) {
        None => Some(SuiErrorView::SharedObjectLockNotSetObject),
        Some(version) => if version != r.1 {
            Some(
                SuiErrorView::UnexpectedSequenceNumber {
                    object_id: r.0,
                    expected_sequence: version,
                    given_sequence: r.1,
                },
            )
        } else {
            None
        },
    }
}

/// A failure among the first `k` shared inputs is the failure of all.
pub proof fn lemma_shared_lock_error_prefix(
    store: DatabaseView,
    digest: TransactionDigest,
    refs: Seq<ObjectRef>,
    k: int,
)
    requires
        0 <= k <= refs.len(),
        shared_lock_error(store, digest, refs.subrange(0, k)) is Some,
    ensures
        shared_lock_error(store, digest, refs) == shared_lock_error(store, digest, refs.subrange(0, k)),
    decreases refs.len() - k,
{
    if k == refs.len() {
        assert(refs.subrange(0, k) == refs);
    } else {
        assert(refs.subrange(0, k + 1).drop_last() == refs.subrange(0, k));
        lemma_shared_lock_error_prefix(store, digest, refs, k + 1);
    }
}

/// The transactions that produced the inputs, in the order of the inputs.
pub open spec fn dependencies_of(all_objects: Seq<(InputObjectKind, Object)>) -> Seq<TransactionDigest> {
    all_objects.map_values(|p: (InputObjectKind, Object)| p.1.previous_transaction)
}

/// What the execution engine is given to execute a certificate.
#[derive(Debug, PartialEq, Eq)]
pub struct ExecutionInput {
    /// The shared inputs, in ascending order, at the versions that
    /// consensus assigned.
    pub shared_object_refs: Vec<ObjectRef>,
    /// Every input with its object as the store has it.
    pub objects_by_kind: Vec<(InputObjectKind, Object)>,
    /// The transaction to execute.
    pub transaction: Transaction,
    /// The digest of the transaction.
    pub transaction_digest: TransactionDigest,
    /// The transactions that produced the inputs.
    pub transaction_dependencies: Vec<TransactionDigest>,
    /// The gas that the transaction may use.
    pub gas_status: SuiGasStatus,
}

/// The view of an [`ExecutionInput`].
pub struct ExecutionInputView {
    pub shared_object_refs: Seq<ObjectRef>,
    pub objects_by_kind: Seq<(InputObjectKind, Object)>,
    pub transaction: TransactionView,
    pub transaction_digest: TransactionDigest,
    pub transaction_dependencies: Seq<TransactionDigest>,
    pub gas_status: SuiGasStatus,
}

impl View for ExecutionInput {
    type V = ExecutionInputView;

    open spec fn view(&self) -> ExecutionInputView {
        ExecutionInputView {
            shared_object_refs: self.shared_object_refs@,
            objects_by_kind: self.objects_by_kind@,
            transaction: self.transaction@,
            transaction_digest: self.transaction_digest,
            transaction_dependencies: self.transaction_dependencies@,
            gas_status: self.gas_status,
        }
    }
}

/// What the execution of a certificate wrote and deleted.
#[derive(Debug, PartialEq, Eq)]
pub struct AuthorityTemporaryStore {
    /// The new state of each object that was created or mutated.
    pub written: Vec<Object>,
    /// The references of the objects that were deleted.
    pub deleted: Vec<ObjectRef>,
}

/// How far the confirmation of a certificate has come.
#[derive(Debug, PartialEq, Eq)]
pub enum ConfirmationStep {
    /// The certificate had been executed before: this is what the store
    /// knows of it.
    AlreadyExecuted(TransactionInfoResponse),
    /// The certificate is ready for execution with this input.
    Execute(ExecutionInput),
}

/// The view of a [`ConfirmationStep`].
pub enum ConfirmationStepView {
    AlreadyExecuted(TransactionInfoResponseView),
    Execute(ExecutionInputView),
}

impl View for ConfirmationStep {
    type V = ConfirmationStepView;

    open spec fn view(&self) -> ConfirmationStepView {
        match self {
            ConfirmationStep::AlreadyExecuted(r) => ConfirmationStepView::AlreadyExecuted(r@),
            ConfirmationStep::Execute(i) => ConfirmationStepView::Execute(i@),
        }
    }
}

/// The view of a confirmation step or of the error in its place.
pub open spec fn step_view(r: Result<ConfirmationStep, SuiError>) -> Result<
    ConfirmationStepView,
    SuiErrorView,
> {
    match r {
        Ok(step) => Ok(step@),
        Err(e) => Err(e@),
    }
}

/// The items of a replay: before each batch the transactions with sequence
/// numbers below its end that have not been shown yet, then the batch, and
/// after the last batch the transactions that are left.
pub open spec fn interleave(
    batches: Seq<SignedBatchView>,
    transactions: Seq<(TxSequenceNumber, TransactionDigest)>,
) -> Seq<UpdateItemView>
    decreases batches.len() + transactions.len(),
{
    if batches.len() > 0 {
        if transactions.len() > 0 && transactions[0].0 < batches[0].batch.next_sequence_number {
            seq![UpdateItemView::Transaction(transactions[0])] + interleave(batches, transactions.skip(1))
        } else {
            seq![UpdateItemView::Batch(batches[0])] + interleave(batches.skip(1), transactions)
        }
    } else if transactions.len() > 0 {
        seq![UpdateItemView::Transaction(transactions[0])] + interleave(batches, transactions.skip(1))
    } else {
        Seq::empty()
    }
}

/// The answer to a request for a range of the log: the items of the replay,
/// whether the range goes past the last batch shown, and the bounds of the
/// range.
pub open spec fn batch_info(store: DatabaseView, request: BatchInfoRequest) -> Result<
    (Seq<UpdateItemView>, (bool, TxSequenceNumber, TxSequenceNumber)),
    SuiErrorView,
> {
    if request.length == 0 {
        Err(SuiErrorView::InvalidSequenceRangeError)
    } else if request.length > MAX_ITEMS_LIMIT {
        Err(SuiErrorView::TooManyItemsError(MAX_ITEMS_LIMIT))
    } else {
        let start = match request.start {
            Some(start) => start,
            None => store.batches.last().batch.next_sequence_number,
        };
        if start + request.length > u64::MAX {
            Err(SuiErrorView::InvalidSequenceRangeError)
        } else {
            replay_of(store, start, (start + request.length) as TxSequenceNumber)
        }
    }
}

/// The replay of the sequence numbers from `start` up to, not including,
/// `end`: the batches and transactions that the store shows for the range,
/// interleaved, and whether the range goes past the last batch shown.
pub open spec fn replay_of(store: DatabaseView, start: TxSequenceNumber, end: TxSequenceNumber) -> Result<
    (Seq<UpdateItemView>, (bool, TxSequenceNumber, TxSequenceNumber)),
    SuiErrorView,
> {
    match store.batches_in_range(start, end) {
        None => Err(SuiErrorView::NoBatchesFoundError),
        Some(batches) => Ok(
            (
                interleave(batches, store.transactions_in_range(batches, end)),
                (end > batches.last().batch.next_sequence_number, start, end),
            ),
        ),
    }
}

/// The version that a request for the state of an object asks for, if it
/// asks for one.
pub open spec fn requested_version(request: ObjectInfoRequest) -> Option<SequenceNumber> {
    match request.request_kind {
        ObjectInfoRequestKind::PastObjectInfo(seq) => Some(seq),
        ObjectInfoRequestKind::LatestObjectInfo => None,
    }
}

/// The object and its lock in the answer to a request for the state of an
/// object: the object if the latest state is asked for and the store has
/// it, with the transaction that holds the lock on it unless the object is
/// immutable.
pub open spec fn object_and_lock(store: DatabaseView, request: ObjectInfoRequest) -> Option<ObjectResponseView> {
    if request.request_kind is LatestObjectInfo && store.objects.contains_key(request.object_id) {
        let object = store.objects[request.object_id];
        Some(
            ObjectResponseView {
                object,
                lock: if object.owner is Immutable {
                    None
                } else {
                    store.lock_holder(object.object_ref())
                },
            },
        )
    } else {
        None
    }
}

/// Whether `response` is the answer to a request for the state of an
/// object.
///
/// The reference asked for is the latest recorded version of the object, or
/// the least recorded reference at the version asked for. With it comes the
/// certificate that produced it, unless the genesis did; the request fails
/// where that certificate is not in the store. Where the latest state is
/// asked for, the object comes too, with the transaction that holds the
/// lock on it.
pub open spec fn object_info(store: DatabaseView, request: ObjectInfoRequest, response: Result<
    ObjectInfoResponseView,
    SuiErrorView,
>) -> bool {
    let id = request.object_id;
    let version = requested_version(request);
    match response {
        Ok(info) => {
            &&& info.object_and_lock == object_and_lock(store, request)
            &&& match info.requested_object_reference {
                None => info.parent_certificate is None && forall|r: ObjectRef|
                    !store.is_parent_entry(r, id, version),
                Some(r) => {
                    &&& store.is_chosen_parent(r, id, version)
                    &&& info.parent_certificate == if store.parent_sync[r] == GENESIS_TRANSACTION_DIGEST {
                        None
                    } else {
                        Some(store.certificates[store.parent_sync[r]])
                    }
                    &&& store.parent_sync[r] != GENESIS_TRANSACTION_DIGEST
                        ==> store.certificates.contains_key(store.parent_sync[r])
                },
            }
        },
        Err(e) => exists|r: ObjectRef|
            {
                &&& #[trigger] store.is_chosen_parent(r, id, version)
                &&& store.parent_sync[r] != GENESIS_TRANSACTION_DIGEST
                &&& !store.certificates.contains_key(store.parent_sync[r])
                &&& e == SuiErrorView::CertificateNotfound { certificate_digest: store.parent_sync[r] }
            },
    }
}

/// The view of an answer about an object or of the error in its place.
pub open spec fn object_info_view(r: Result<ObjectInfoResponse, SuiError>) -> Result<
    ObjectInfoResponseView,
    SuiErrorView,
> {
    match r {
        Ok(response) => Ok(response@),
        Err(e) => Err(e@),
    }
}

/// The view of an [`AuthorityState`].
pub struct AuthorityStateView {
    /// The name of this authority.
    pub name: AuthorityName,
    /// The committee of the epoch.
    pub committee: CommitteeView,
    /// The store.
    pub store: DatabaseView,
    /// The notifier.
    pub notifier: NotifierView,
    /// How many tasks hold or wait for the right to feed consensus output.
    pub consensus_guardrail: u64,
    /// The counters.
    pub metrics: AuthorityMetrics,
}

impl AuthorityStateView {
    /// The state's invariant: the store's invariant holds, no ticket is
    /// outstanding between two requests, and the next ticket is the length of
    /// the executed log.
    pub open spec fn inv(&self) -> bool {
        &&& self.store.inv()
        &&& self.notifier.inv()
        &&& self.notifier.slots.len() == 0
        &&& self.notifier.low_watermark == self.store.executed_sequence.len()
        &&& self.store.batches.len() > 0
    }

    /// The transaction as this authority signs it.
    pub open spec fn sign(&self, transaction: TransactionView, signature: AuthoritySignature) -> SignedTransactionView {
        SignedTransactionView {
            transaction,
            epoch: self.committee.epoch,
            authority: self.name,
            signature,
        }
    }

    /// What the intake of a transaction that this authority has not signed
    /// before does: the inputs are checked and the owned ones are locked,
    /// all or none.
    pub open spec fn lock_transaction(
        &self,
        transaction: TransactionView,
        signature: AuthoritySignature,
    ) -> (Result<(), SuiErrorView>, DatabaseView) {
        match check_transaction_input_spec(self.store, transaction) {
            Err(e) => (Err(e), self.store),
            Ok(all_objects) => {
                let refs = owned_refs(all_objects);
                match first_conflict(self.store.transaction_lock, refs, transaction.digest) {
                    Some(i) => (
                        Err(
                            SuiErrorView::ConflictingTransaction {
                                pending_transaction: self.store.lock_holder(refs[i])->0,
                            },
                        ),
                        self.store,
                    ),
                    None => (
                        Ok(()),
                        self.store.set_transaction_lock(refs, self.sign(transaction, signature)),
                    ),
                }
            },
        }
    }

    /// Whether the store has the answer to the transaction `digest` already:
    /// its certificate has been executed, or this authority has signed it.
    pub open spec fn is_known(&self, digest: TransactionDigest) -> bool {
        self.store.effects.contains_key(digest) || self.store.transactions.contains_key(digest)
    }

    /// Whether the intake of `transaction` counts a transaction with shared
    /// objects: its inputs are checked and pass, and one of them is shared.
    pub open spec fn counts_shared(&self, transaction: TransactionView) -> bool {
        &&& transaction.is_verified
        &&& !self.is_known(transaction.digest)
        &&& check_transaction_input_spec(self.store, transaction) is Ok
        &&& transaction.contains_shared_object()
    }

    /// The answer to a transaction, and the state after it.
    ///
    /// A transaction whose signature has not been checked is refused. One
    /// whose certificate has been executed, or that this authority has
    /// signed, is answered from the store, and nothing is written. Only
    /// otherwise are the inputs checked and the owned ones locked.
    pub open spec fn handle_transaction(
        self,
        transaction: TransactionView,
        signature: AuthoritySignature,
    ) -> (Result<TransactionInfoResponseView, SuiErrorView>, AuthorityStateView) {
        let digest = transaction.digest;
        let counted = AuthorityMetrics { tx_orders: bump(self.metrics.tx_orders), ..self.metrics };
        if !transaction.is_verified {
            (
                Err(SuiErrorView::SignatureError),
                AuthorityStateView {
                    metrics: AuthorityMetrics {
                        signature_errors: bump(counted.signature_errors),
                        ..counted
                    },
                    ..self
                },
            )
        } else if self.is_known(digest) {
            (
                Ok(self.store.transaction_info(digest)),
                AuthorityStateView {
                    metrics: AuthorityMetrics {
                        tx_already_processed: bump(counted.tx_already_processed),
                        ..counted
                    },
                    ..self
                },
            )
        } else {
            let (locked, store) = self.lock_transaction(transaction, signature);
            let counted = if self.counts_shared(transaction) {
                AuthorityMetrics { shared_obj_tx: bump(counted.shared_obj_tx), ..counted }
            } else {
                counted
            };
            match locked {
                Ok(_) => (
                    Ok(store.transaction_info(digest)),
                    AuthorityStateView { store, metrics: counted, ..self },
                ),
                Err(e) => (Err(e), AuthorityStateView { metrics: counted, ..self }),
            }
        }
    }

    /// What the preparation of a certificate for execution yields: the
    /// failure of the check of its inputs, else the failure of the check of
    /// its shared inputs against the versions that consensus assigned, else
    /// what the execution engine is to be given.
    pub open spec fn process_certificate(&self, certificate: CertifiedTransactionView) -> Result<
        ExecutionInputView,
        SuiErrorView,
    > {
        let transaction = certificate.transaction;
        match check_transaction_input_spec(self.store, transaction) {
            Err(e) => Err(e),
            Ok(all_objects) => {
                let shared = sorted_refs(shared_refs(all_objects));
                match shared_lock_error(self.store, transaction.digest, shared) {
                    Some(e) => Err(e),
                    None => Ok(
                        ExecutionInputView {
                            shared_object_refs: shared,
                            objects_by_kind: all_objects,
                            transaction,
                            transaction_digest: transaction.digest,
                            transaction_dependencies: dependencies_of(all_objects),
                            gas_status: SuiGasStatus { gas_budget: transaction.gas_budget },
                        },
                    ),
                }
            },
        }
    }

    /// The answer to a request for confirmation, and the state after it.
    /// Only counters change.
    pub open spec fn handle_confirmation_transaction(self, certificate: CertifiedTransactionView) -> (
        Result<ConfirmationStepView, SuiErrorView>,
        AuthorityStateView,
    ) {
        let digest = certificate.transaction.digest;
        let counted = AuthorityMetrics { total_certs: bump(self.metrics.total_certs), ..self.metrics };
        if self.store.effects.contains_key(digest) {
            (
                Ok(ConfirmationStepView::AlreadyExecuted(self.store.transaction_info(digest))),
                AuthorityStateView { metrics: counted, ..self },
            )
        } else if !self.committee.certifies(certificate) {
            (
                Err(SuiErrorView::SignatureError),
                AuthorityStateView {
                    metrics: AuthorityMetrics {
                        signature_errors: bump(counted.signature_errors),
                        ..counted
                    },
                    ..self
                },
            )
        } else {
            let counted = if check_transaction_input_spec(self.store, certificate.transaction) is Ok
                && certificate.transaction.contains_shared_object() {
                AuthorityMetrics { shared_obj_tx: bump(counted.shared_obj_tx), ..counted }
            } else {
                counted
            };
            (
                match self.process_certificate(certificate) {
                    Ok(input) => Ok(ConfirmationStepView::Execute(input)),
                    Err(e) => Err(e),
                },
                AuthorityStateView { metrics: counted, ..self },
            )
        }
    }

    /// The answer to the output of an execution, and the state after it.
    ///
    /// A certificate that has been executed before is answered from the
    /// store. Otherwise the effects must be those of the certificate, signed
    /// by this authority in the epoch of its committee, the certificate must
    /// carry a quorum, and its inputs must pass the checks that precede the
    /// execution. Then the output is committed in one step under the next
    /// ticket of the notifier, which is resolved at once.
    pub open spec fn commit_certificate(
        self,
        certificate: CertifiedTransactionView,
        written: Seq<Object>,
        deleted: Seq<ObjectRef>,
        effects: SignedTransactionEffectsView,
    ) -> (Result<TransactionInfoResponseView, SuiErrorView>, AuthorityStateView) {
        let digest = certificate.transaction.digest;
        if self.store.effects.contains_key(digest) {
            (Ok(self.store.transaction_info(digest)), self)
        } else if effects.effects.transaction_digest != digest {
            (Err(SuiErrorView::InvalidTransactionDigest), self)
        } else if effects.authority != self.name {
            (Err(SuiErrorView::UnknownSigner), self)
        } else if effects.epoch != self.committee.epoch {
            (Err(SuiErrorView::WrongEpoch), self)
        } else if !self.committee.certifies(certificate) {
            (Err(SuiErrorView::SignatureError), self)
        } else {
            match self.process_certificate(certificate) {
                Err(e) => (Err(e), self),
                Ok(input) => if !self.notifier.can_issue() {
                    (Err(SuiErrorView::ClosedNotifierError), self)
                } else {
                    let store = self.store.update_state(
                        owned_refs(input.objects_by_kind),
                        written,
                        deleted,
                        certificate,
                        effects,
                    );
                    (
                        Ok(store.transaction_info(digest)),
                        AuthorityStateView {
                            store,
                            notifier: NotifierView {
                                low_watermark: (self.notifier.low_watermark + 1) as u64,
                                ..self.notifier
                            },
                            metrics: AuthorityMetrics {
                                total_effects: bump(self.metrics.total_effects),
                                total_events: bump_by(self.metrics.total_events, effects.effects.events),
                                ..self.metrics
                            },
                            ..self
                        },
                    )
                },
            }
        }
    }

    /// The state after consensus has delivered a certificate, or the reason
    /// why the certificate is refused. A certificate without shared inputs,
    /// and one whose first shared input has been assigned a version for it
    /// before, change nothing.
    pub open spec fn handle_consensus_certificate(
        self,
        certificate: CertifiedTransactionView,
        index: ExecutionIndices,
    ) -> (Result<(), SuiErrorView>, AuthorityStateView) {
        let digest = certificate.transaction.digest;
        let ids = certificate.transaction.shared_input_objects();
        if ids.len() == 0 {
            (Ok(()), self)
        } else if self.store.shared_lock(digest, ids[0]) is Some {
            (Ok(()), self)
        } else if !self.committee.certifies(certificate) {
            (Err(SuiErrorView::SignatureError), self)
        } else if !self.store.can_sequence(ids) {
            (Err(SuiErrorView::InvalidSequenceNumber), self)
        } else {
            (
                Ok(()),
                AuthorityStateView {
                    store: self.store.persist_certificate_and_lock_shared_objects(certificate, index),
                    ..self
                },
            )
        }
    }
}

impl AuthorityStateView {
    /// The next transaction of the executed log from the sequence number
    /// `next` on that subscribers may see, if there is one: a transaction is
    /// visible once every ticket up to its own has been resolved.
    pub open spec fn next_batch_item(&self, next: TxSequenceNumber) -> Option<
        (TxSequenceNumber, TransactionDigest),
    > {
        if next < self.notifier.low_watermark && next < self.store.executed_sequence.len() {
            Some((next, self.store.executed_sequence[next as int]))
        } else {
            None
        }
    }

    /// The batch that sealing `transactions` makes.
    pub open spec fn next_batch(
        &self,
        transactions: Seq<(TxSequenceNumber, TransactionDigest)>,
        digest: BatchDigest,
        signature: AuthoritySignature,
    ) -> SignedBatchView {
        SignedBatchView {
            batch: AuthorityBatchView::make_next(self.store.batches.last().batch, transactions, digest),
            authority: self.name,
            signature,
        }
    }

    /// Whether `transactions` can be sealed into the next batch: there is at
    /// least one, and they continue the log from where the last batch ends.
    pub open spec fn can_seal(
        &self,
        transactions: Seq<(TxSequenceNumber, TransactionDigest)>,
        digest: BatchDigest,
        signature: AuthoritySignature,
    ) -> bool {
        &&& transactions.len() > 0
        &&& transactions.len() <= u64::MAX
        &&& transactions.last().0 < u64::MAX
        &&& self.store.accepts_batch(self.next_batch(transactions, digest, signature))
    }
}

/// A transaction that the authority has answered without error is answered
/// in the same way when it comes again, and the second time the store is
/// left as it was.
pub proof fn lemma_handle_transaction_is_idempotent(
    state: AuthorityStateView,
    transaction: TransactionView,
    signature: AuthoritySignature,
)
    requires
        state.inv(),
        state.handle_transaction(transaction, signature).0 is Ok,
    ensures
        ({
            let (first, after) = state.handle_transaction(transaction, signature);
            let (second, last) = after.handle_transaction(transaction, signature);
            &&& second == first
            &&& last.store == after.store
            &&& after.inv()
        }),
{
    let digest = transaction.digest;
    let (first, after) = state.handle_transaction(transaction, signature);
    if state.store.transactions.contains_key(digest) {
    } else {
        let (locked, store) = state.lock_transaction(transaction, signature);
        match locked {
            Ok(_) => {
                let all_objects = check_transaction_input_spec(state.store, transaction)->Ok_0;
                let refs = owned_refs(all_objects);
                assert(store == state.store.set_transaction_lock(refs, state.sign(transaction, signature)));
                assert(store.transactions.contains_key(digest));
                lemma_set_transaction_lock_keeps_inv(state.store, refs, state.sign(transaction, signature));
            },
            Err(e) => {
                assert(after.store == state.store);
            },
        }
    }
}

/// An authority that stops between two requests and starts again over its
/// store has lost nothing: the store is as it was, with every lock,
/// certificate, effect and assigned version, the log continues at the next
/// sequence number, and every request is answered as it would have been.
pub proof fn lemma_restart_keeps_the_store(
    state: AuthorityStateView,
    batch: SignedBatchView,
    transaction: TransactionView,
    signature: AuthoritySignature,
    certificate: CertifiedTransactionView,
)
    requires
        state.inv(),
    ensures
        ({
            let restarted = AuthorityStateView {
                store: state.store.with_first_batch(batch),
                notifier: NotifierView {
                    low_watermark: state.store.executed_sequence.len() as u64,
                    slots: Seq::empty(),
                    is_closed: false,
                },
                consensus_guardrail: 0,
                metrics: AuthorityMetrics::zero(),
                ..state
            };
            &&& restarted.inv()
            &&& restarted.store == state.store
            &&& restarted.notifier.low_watermark == state.notifier.low_watermark
            &&& restarted.handle_transaction(transaction, signature).0 == state.handle_transaction(
                transaction,
                signature,
            ).0
            &&& restarted.handle_transaction(transaction, signature).1.store == state.handle_transaction(
                transaction,
                signature,
            ).1.store
            &&& restarted.handle_confirmation_transaction(certificate).0
                == state.handle_confirmation_transaction(certificate).0
        }),
{
}

/// The executed log grows by one transaction at a time, and no transaction
/// enters it twice. A commit either leaves the log as it was, or appends the
/// transaction of the certificate, which the log did not hold; the entry gets
/// the next sequence number, which is also the next that subscribers may see.
pub proof fn lemma_commit_extends_log(
    state: AuthorityStateView,
    certificate: CertifiedTransactionView,
    written: Seq<Object>,
    deleted: Seq<ObjectRef>,
    effects: SignedTransactionEffectsView,
)
    requires
        state.inv(),
    ensures
        ({
            let (answer, after) = state.commit_certificate(certificate, written, deleted, effects);
            let log = state.store.executed_sequence;
            let digest = certificate.transaction.digest;
            &&& after.inv()
            &&& after.store.executed_sequence.no_duplicates()
            &&& after.notifier.low_watermark == after.store.executed_sequence.len()
            &&& if answer is Ok && !state.store.effects.contains_key(digest) {
                &&& !log.contains(digest)
                &&& after.store.executed_sequence == log.push(digest)
                &&& after.next_batch_item(log.len() as TxSequenceNumber) == Some(
                    (log.len() as TxSequenceNumber, digest),
                )
            } else {
                after == state
            }
        }),
{
    let (answer, after) = state.commit_certificate(certificate, written, deleted, effects);
    let digest = certificate.transaction.digest;
    if answer is Ok && !state.store.effects.contains_key(digest) {
        let input = state.process_certificate(certificate)->Ok_0;
        lemma_update_state_keeps_inv(
            state.store,
            owned_refs(input.objects_by_kind),
            written,
            deleted,
            certificate,
            effects,
        );
    }
}

/// Once the output of a certificate has been committed, the certificate is
/// not executed again: a later request for confirmation is answered with
/// what the commit answered and asks for no execution, and a later commit,
/// whatever output it brings, is answered in the same way and changes
/// nothing.
pub proof fn lemma_confirmation_is_idempotent(
    state: AuthorityStateView,
    certificate: CertifiedTransactionView,
    written: Seq<Object>,
    deleted: Seq<ObjectRef>,
    effects: SignedTransactionEffectsView,
    later_written: Seq<Object>,
    later_deleted: Seq<ObjectRef>,
    later_effects: SignedTransactionEffectsView,
)
    requires
        state.inv(),
        state.commit_certificate(certificate, written, deleted, effects).0 is Ok,
    ensures
        ({
            let (first, after) = state.commit_certificate(certificate, written, deleted, effects);
            let (confirmed, counted) = after.handle_confirmation_transaction(certificate);
            let (again, last) = after.commit_certificate(
                certificate,
                later_written,
                later_deleted,
                later_effects,
            );
            &&& after.store.effects.contains_key(certificate.transaction.digest)
            &&& first->Ok_0.signed_effects == Some(
                after.store.effects[certificate.transaction.digest],
            )
            &&& confirmed == Ok::<ConfirmationStepView, SuiErrorView>(
                ConfirmationStepView::AlreadyExecuted(first->Ok_0),
            )
            &&& counted.store == after.store
            &&& counted.notifier == after.notifier
            &&& again == first
            &&& last == after
        }),
{
}

/// The failure of the check of shared inputs none of which has been
/// assigned a version: the lock is not set.
pub proof fn lemma_unassigned_shared_locks_fail(
    store: DatabaseView,
    digest: TransactionDigest,
    refs: Seq<ObjectRef>,
)
    requires
        refs.len() > 0,
        forall|i: int| 0 <= i < refs.len() ==> store.shared_lock(digest, (#[trigger] refs[i]).0) is None,
    ensures
        shared_lock_error(store, digest, refs) == Some(SuiErrorView::SharedObjectLockNotSetObject),
    decreases refs.len(),
{
    if refs.len() > 1 {
        let front = refs.drop_last();
        assert forall|i: int| 0 <= i < front.len() implies store.shared_lock(
            digest,
            (#[trigger] front[i]).0,
        ) is None by {
            assert(front[i] == refs[i]);
        }
        lemma_unassigned_shared_locks_fail(store, digest, front);
    } else {
        assert(shared_lock_error(store, digest, refs.drop_last()) is None);
        assert(refs.last() == refs[0]);
    }
}

/// The check of shared inputs each of which is presented at the version
/// that was assigned to it passes.
pub proof fn lemma_assigned_shared_locks_pass(store: DatabaseView, digest: TransactionDigest, refs: Seq<ObjectRef>)
    requires
        forall|i: int|
            0 <= i < refs.len() ==> store.shared_lock(digest, (#[trigger] refs[i]).0) == Some(refs[i].1),
    ensures
        shared_lock_error(store, digest, refs) is None,
    decreases refs.len(),
{
    if refs.len() > 0 {
        let front = refs.drop_last();
        assert forall|i: int| 0 <= i < front.len() implies store.shared_lock(
            digest,
            (#[trigger] front[i]).0,
        ) == Some(front[i].1) by {
            assert(front[i] == refs[i]);
        }
        lemma_assigned_shared_locks_pass(store, digest, front);
        assert(store.shared_lock(digest, refs[refs.len() - 1].0) == Some(refs[refs.len() - 1].1));
    }
}

/// A certificate with shared inputs cannot be confirmed before consensus
/// has delivered it, and can be afterwards. As long as no version has been
/// assigned for the transaction, the check of its shared inputs fails
/// because the lock is not set. Once the certificate has been taken in from
/// consensus, the check passes for the inputs that are presented at the
/// versions that were next when it was taken in.
pub proof fn lemma_shared_locks_follow_consensus(
    state: AuthorityStateView,
    certificate: CertifiedTransactionView,
    index: ExecutionIndices,
    refs: Seq<ObjectRef>,
)
    requires
        state.inv(),
        refs.len() > 0,
        forall|i: int|
            0 <= i < refs.len() ==> certificate.transaction.shared_input_objects().contains(
                (#[trigger] refs[i]).0,
            ),
        forall|id: ObjectID|
            certificate.transaction.shared_input_objects().contains(id) ==> state.store.shared_lock(
                certificate.transaction.digest,
                id,
            ) is None,
    ensures
        shared_lock_error(state.store, certificate.transaction.digest, refs) == Some(
            SuiErrorView::SharedObjectLockNotSetObject,
        ),
        ({
            let (taken, after) = state.handle_consensus_certificate(certificate, index);
            &&& after.inv()
            &&& taken is Ok <==> state.committee.certifies(certificate) && state.store.can_sequence(
                certificate.transaction.shared_input_objects(),
            )
            &&& taken is Ok && (forall|i: int|
                0 <= i < refs.len() ==> (#[trigger] refs[i]).1 == state.store.next_shared_version(
                    refs[i].0,
                )) ==> shared_lock_error(after.store, certificate.transaction.digest, refs) is None
        }),
{
    let digest = certificate.transaction.digest;
    let ids = certificate.transaction.shared_input_objects();
    lemma_unassigned_shared_locks_fail(state.store, digest, refs);
    let (taken, after) = state.handle_consensus_certificate(certificate, index);
    assert(ids.contains(refs[0].0));
    assert(ids.len() > 0);
    assert(ids.contains(ids[0]));
    if taken is Ok {
        if forall|i: int|
            0 <= i < refs.len() ==> (#[trigger] refs[i]).1 == state.store.next_shared_version(refs[i].0) {
            assert forall|i: int| 0 <= i < refs.len() implies after.store.shared_lock(
                digest,
                (#[trigger] refs[i]).0,
            ) == Some(refs[i].1) by {
                assert(ids.contains(refs[i].0));
            }
            lemma_assigned_shared_locks_pass(after.store, digest, refs);
        }
    }
}

/// A transaction whose certificate has been executed is answered from the
/// store with the effects of that execution, whether or not this authority
/// has signed it and whatever has become of its inputs, and nothing is
/// written.
pub proof fn lemma_executed_transaction_is_answered_from_the_store(
    state: AuthorityStateView,
    transaction: TransactionView,
    signature: AuthoritySignature,
)
    requires
        state.inv(),
        transaction.is_verified,
        state.store.effects.contains_key(transaction.digest),
    ensures
        ({
            let (answer, after) = state.handle_transaction(transaction, signature);
            &&& answer == Ok::<TransactionInfoResponseView, SuiErrorView>(
                state.store.transaction_info(transaction.digest),
            )
            &&& answer->Ok_0.signed_effects == Some(state.store.effects[transaction.digest])
            &&& after.store == state.store
            &&& after.notifier == state.notifier
            &&& after.inv()
        }),
{
}

/// A transaction that is new to the authority, whose inputs pass the check
/// and whose owned inputs are locked by no other transaction, is answered
/// with the transaction as this authority signs it, and this signed
/// transaction then holds the lock on each of its owned inputs.
pub proof fn lemma_fresh_transaction_locks_its_inputs(
    state: AuthorityStateView,
    transaction: TransactionView,
    signature: AuthoritySignature,
    input: ObjectRef,
)
    requires
        state.inv(),
        transaction.is_verified,
        !state.is_known(transaction.digest),
        check_transaction_input_spec(state.store, transaction) is Ok,
        first_conflict(
            state.store.transaction_lock,
            owned_refs(check_transaction_input_spec(state.store, transaction)->Ok_0),
            transaction.digest,
        ) is None,
        owned_refs(check_transaction_input_spec(state.store, transaction)->Ok_0).contains(input),
    ensures
        ({
            let (answer, after) = state.handle_transaction(transaction, signature);
            &&& answer is Ok
            &&& answer->Ok_0.signed_transaction == Some(state.sign(transaction, signature))
            &&& answer->Ok_0.signed_effects is None
            &&& after.store.lock_holder(input) == Some(state.sign(transaction, signature))
            &&& after.inv()
        }),
{
    let refs = owned_refs(check_transaction_input_spec(state.store, transaction)->Ok_0);
    let signed = state.sign(transaction, signature);
    lemma_lock_refs(state.store.transaction_lock, refs, transaction.digest, input);
    lemma_set_transaction_lock_keeps_inv(state.store, refs, signed);
}

/// The effects with which a commit answers are those handed in, signed by
/// this authority in the epoch of its committee, and they are the effects of
/// the certificate, which comes with them; both are recorded.
pub proof fn lemma_commit_answers_with_own_effects(
    state: AuthorityStateView,
    certificate: CertifiedTransactionView,
    written: Seq<Object>,
    deleted: Seq<ObjectRef>,
    effects: SignedTransactionEffectsView,
)
    requires
        state.inv(),
        !state.store.effects.contains_key(certificate.transaction.digest),
        state.commit_certificate(certificate, written, deleted, effects).0 is Ok,
    ensures
        ({
            let (answer, after) = state.commit_certificate(certificate, written, deleted, effects);
            let digest = certificate.transaction.digest;
            &&& answer->Ok_0.signed_effects == Some(effects)
            &&& answer->Ok_0.certified_transaction == Some(certificate)
            &&& answer->Ok_0.signed_transaction == state.store.transaction_info(digest).signed_transaction
            &&& effects.authority == state.name
            &&& effects.epoch == state.committee.epoch
            &&& effects.effects.transaction_digest == digest
            &&& after.store.effects.contains_key(digest)
            &&& after.store.effects[digest] == effects
            &&& after.store.certificates[digest] == certificate
        }),
{
}

/// The references of the shared inputs of checked inputs are those of the
/// stored objects that the inputs declare as shared.
pub proof fn lemma_shared_refs_of_checked_inputs(
    objects: Map<ObjectID, Object>,
    sender: SuiAddress,
    inputs: Seq<InputObjectKind>,
    r: ObjectRef,
)
    requires
        forall|id: ObjectID| objects.contains_key(id) ==> (#[trigger] objects[id]).id == id,
        crate::transaction_input_checker::check_inputs(objects, sender, inputs) is Ok,
        shared_refs(crate::transaction_input_checker::check_inputs(objects, sender, inputs)->Ok_0).contains(
            r,
        ),
    ensures
        crate::messages::shared_ids(inputs).contains(r.0),
        objects.contains_key(r.0),
        objects[r.0].object_ref() == r,
    decreases inputs.len(),
{
    let all = crate::transaction_input_checker::check_inputs(objects, sender, inputs)->Ok_0;
    if inputs.len() > 0 {
        let front = inputs.drop_last();
        let checked = crate::transaction_input_checker::check_inputs(objects, sender, front)->Ok_0;
        let object = crate::transaction_input_checker::check_one_input(objects, sender, inputs.last())->Ok_0;
        assert(all == checked.push((inputs.last(), object)));
        assert(all.drop_last() == checked);
        let rest = shared_refs(checked);
        let ids = crate::messages::shared_ids(front);
        let i = choose|i: int| 0 <= i < shared_refs(all).len() && shared_refs(all)[i] == r;
        if i < rest.len() && rest[i] == r {
            lemma_shared_refs_of_checked_inputs(objects, sender, front, r);
            let j = choose|j: int| 0 <= j < ids.len() && ids[j] == r.0;
            assert(crate::messages::shared_ids(inputs)[j] == r.0);
        } else {
            assert(inputs.last() is SharedMoveObject);
            assert(r == object.object_ref());
            assert(crate::messages::shared_ids(inputs) == ids.push(r.0));
            assert(crate::messages::shared_ids(inputs)[ids.len() as int] == r.0);
        }
    }
}

/// Once consensus has delivered a certificate with shared inputs, the
/// certificate can be confirmed. Where the certificate carries a quorum, its
/// inputs pass the check, and each of its shared inputs is stored at the
/// version that is next for it, the authority takes the certificate in from
/// consensus, the request for confirmation then yields the input of the
/// execution, and the commit of effects of this certificate, signed by this
/// authority, answers with these effects and the certificate and records
/// them, as long as the notifier can issue a ticket.
pub proof fn lemma_confirmation_succeeds_after_consensus(
    state: AuthorityStateView,
    certificate: CertifiedTransactionView,
    index: ExecutionIndices,
    written: Seq<Object>,
    deleted: Seq<ObjectRef>,
    effects: SignedTransactionEffectsView,
)
    requires
        state.inv(),
        state.committee.certifies(certificate),
        certificate.transaction.contains_shared_object(),
        !state.store.effects.contains_key(certificate.transaction.digest),
        check_transaction_input_spec(state.store, certificate.transaction) is Ok,
        forall|id: ObjectID| #[trigger]
            certificate.transaction.shared_input_objects().contains(id) ==> {
                &&& state.store.shared_lock(certificate.transaction.digest, id) is None
                &&& state.store.next_shared_version(id) < crate::base_types::MAX_SEQUENCE_NUMBER
                &&& state.store.objects.contains_key(id) ==> state.store.objects[id].version
                    == state.store.next_shared_version(id)
            },
        effects.effects.transaction_digest == certificate.transaction.digest,
        effects.authority == state.name,
        effects.epoch == state.committee.epoch,
        state.notifier.can_issue(),
    ensures
        ({
            let digest = certificate.transaction.digest;
            let (taken, sequenced) = state.handle_consensus_certificate(certificate, index);
            let (step, ready) = sequenced.handle_confirmation_transaction(certificate);
            let (answer, after) = ready.commit_certificate(certificate, written, deleted, effects);
            &&& taken is Ok
            &&& step matches Ok(ConfirmationStepView::Execute(input))
            &&& input.transaction_digest == digest
            &&& answer is Ok
            &&& answer->Ok_0.signed_effects == Some(effects)
            &&& answer->Ok_0.certified_transaction == Some(certificate)
            &&& after.store.effects.contains_key(digest)
            &&& after.store.effects[digest] == effects
        }),
{
    let digest = certificate.transaction.digest;
    let transaction = certificate.transaction;
    let ids = transaction.shared_input_objects();
    let (taken, sequenced) = state.handle_consensus_certificate(certificate, index);
    assert(ids.contains(ids[0]));
    assert(state.store.can_sequence(ids)) by {
        assert forall|i: int| 0 <= i < ids.len() implies state.store.next_shared_version(
            #[trigger] ids[i],
        ) < crate::base_types::MAX_SEQUENCE_NUMBER by {
            assert(ids.contains(ids[i]));
        }
    }
    assert(sequenced.store.objects == state.store.objects);
    assert(check_transaction_input_spec(sequenced.store, transaction) == check_transaction_input_spec(
        state.store,
        transaction,
    ));
    let all = check_transaction_input_spec(state.store, transaction)->Ok_0;
    let shown = shared_refs(all);
    let shared = sorted_refs(shown);
    crate::base_types::lemma_sorted_refs_elements(shown);
    let inputs = transaction.input_objects();
    assert(inputs.drop_last() == transaction.inputs);
    assert(crate::messages::shared_ids(inputs) == ids);
    assert forall|i: int| 0 <= i < shared.len() implies sequenced.store.shared_lock(
        digest,
        (#[trigger] shared[i]).0,
    ) == Some(shared[i].1) by {
        assert(sorted_refs(shown).contains(shared[i]));
        assert(shown.contains(shared[i]));
        lemma_shared_refs_of_checked_inputs(state.store.objects, transaction.sender, inputs, shared[i]);
        assert(ids.contains(shared[i].0));
    }
    lemma_assigned_shared_locks_pass(sequenced.store, digest, shared);
    let (step, ready) = sequenced.handle_confirmation_transaction(certificate);
    assert(ready.store == sequenced.store);
    assert(ready.notifier == state.notifier);
}

/// What one subscriber observes. Where every transaction that the batch
/// service is handed is an entry of the executed log that subscribers may
/// see, the transactions that the service forwards are the entries of the
/// log from the one that it took first on, in order, with no gap and none
/// twice, however the commits completed and however often an entry is
/// handed to the service.
pub proof fn lemma_subscriber_sees_the_log(
    state: AuthorityStateView,
    service: BatchServiceView,
    events: Seq<BatchEvent>,
)
    requires
        state.inv(),
        forall|k: int|
            0 <= k < events.len() ==> (#[trigger] events[k] matches BatchEvent::Transaction(item)
                ==> state.next_batch_item(item.0) == Some(item)),
    ensures
        forall|i: int|
            0 <= i < forwarded(service, events).len() ==> (#[trigger] forwarded(service, events)[i]).0
                == service.next_sequence_number + i && forwarded(service, events)[i].0
                < state.store.executed_sequence.len() && forwarded(service, events)[i].1
                == state.store.executed_sequence[service.next_sequence_number + i],
        forall|i: int, j: int|
            0 <= i < j < forwarded(service, events).len() ==> (#[trigger] forwarded(service, events)[i]).0
                < (#[trigger] forwarded(service, events)[j]).0 && forwarded(service, events)[i].1
                != forwarded(service, events)[j].1,
{
    let sent = forwarded(service, events);
    let log = state.store.executed_sequence;
    let first = service.next_sequence_number;
    lemma_service_forwards_in_order(service, events);
    assert forall|i: int| 0 <= i < sent.len() implies (#[trigger] sent[i]).0 == first + i && sent[i].0
        < log.len() && sent[i].1 == log[first + i] by {
        assert(sent[i].0 == first + i);
        assert(events.contains(BatchEvent::Transaction(sent[i])));
        let k = choose|k: int| 0 <= k < events.len() && events[k] == BatchEvent::Transaction(sent[i]);
        assert(state.next_batch_item(sent[i].0) == Some(sent[i]));
    }
    assert forall|i: int, j: int| 0 <= i < j < sent.len() implies (#[trigger] sent[i]).0 < (
    #[trigger] sent[j]).0 && sent[i].1 != sent[j].1 by {
        assert(sent[i].1 == log[first + i]);
        assert(sent[j].1 == log[first + j]);
    }
}

/// The transactions that produced the inputs, in the order of the inputs.
fn dependencies(all_objects: &Vec<(InputObjectKind, Object)>) -> (r: Vec<TransactionDigest>)
    ensures
        r@ == dependencies_of(all_objects@),
{
    let mut r: Vec<TransactionDigest> = Vec::new();
    let mut i: usize = 0;
    while i < all_objects.len()
        invariant
            i <= all_objects@.len(),
            r@ == dependencies_of(all_objects@.subrange(0, i as int)),
        decreases all_objects@.len() - i,
    {
        r.push(all_objects[i].1.previous_transaction);
        assert(r@ == dependencies_of(all_objects@.subrange(0, i + 1)));
        i += 1;
    }
    assert(all_objects@.subrange(0, i as int) == all_objects@);
    r
}

/// Whether the inputs of a transaction pass the check against the store.
fn input_check_passes(store: &AuthorityStore, transaction: &Transaction) -> (b: bool)
    requires
        store.wf(),
    ensures
        b == (check_transaction_input_spec(store@, transaction@) is Ok),
{
    check_transaction_input(store, transaction).is_ok()
}

/// The items of a replay of `batches` and `transactions`.
fn interleave_items(batches: Vec<SignedBatch>, transactions: Vec<(TxSequenceNumber, TransactionDigest)>) -> (items:
    VecDeque<UpdateItem>)
    ensures
        item_views(items@) == interleave(batch_views(batches@), transactions@),
{
    let ghost all_batches = batch_views(batches@);
    let ghost all_transactions = transactions@;
    let mut items: VecDeque<UpdateItem> = VecDeque::new();
    let mut dq_batches = batches;
    let mut j: usize = 0;
    let n = transactions.len();
    let mut i: usize = 0;
    let m = dq_batches.len();
    assert(all_batches.skip(0) == all_batches);
    assert(all_transactions.skip(0) == all_transactions);
    assert(item_views(items@) == Seq::<UpdateItemView>::empty());
    while i < m
        invariant
            all_batches == batch_views(dq_batches@),
            all_transactions == transactions@,
            m == dq_batches@.len(),
            n == transactions@.len(),
            i <= m,
            j <= n,
            item_views(items@) + interleave(all_batches.skip(i as int), all_transactions.skip(j as int))
                == interleave(all_batches, all_transactions),
        decreases m - i,
    {
        let next = dq_batches[i].batch.next_sequence_number;
        assert(all_batches.skip(i as int)[0] == dq_batches@[i as int]@);
        while j < n && transactions[j].0 < next
            invariant
                all_batches == batch_views(dq_batches@),
                all_transactions == transactions@,
                m == dq_batches@.len(),
                n == transactions@.len(),
                i < m,
                j <= n,
                next == all_batches.skip(i as int)[0].batch.next_sequence_number,
                item_views(items@) + interleave(
                    all_batches.skip(i as int),
                    all_transactions.skip(j as int),
                ) == interleave(all_batches, all_transactions),
            decreases n - j,
        {
            let ghost before = item_views(items@);
            items.push_back(UpdateItem::Transaction(transactions[j]));
            proof {
                let rest = all_transactions.skip(j as int);
                assert(rest[0] == all_transactions[j as int]);
                assert(rest.skip(1) == all_transactions.skip(j + 1));
                assert(item_views(items@) == before.push(UpdateItemView::Transaction(rest[0])));
                assert(before.push(UpdateItemView::Transaction(rest[0])) + interleave(
                    all_batches.skip(i as int),
                    rest.skip(1),
                ) == before + (seq![UpdateItemView::Transaction(rest[0])] + interleave(
                    all_batches.skip(i as int),
                    rest.skip(1),
                )));
            }
            j += 1;
        }
        let ghost before = item_views(items@);
        items.push_back(UpdateItem::Batch(dq_batches[i].clone()));
        proof {
            let rest_batches = all_batches.skip(i as int);
            let rest = all_transactions.skip(j as int);
            if j < n {
                assert(rest[0] == all_transactions[j as int]);
            }
            assert(rest_batches.skip(1) == all_batches.skip(i + 1));
            assert(item_views(items@) == before.push(UpdateItemView::Batch(rest_batches[0])));
            assert(before.push(UpdateItemView::Batch(rest_batches[0])) + interleave(
                rest_batches.skip(1),
                rest,
            ) == before + (seq![UpdateItemView::Batch(rest_batches[0])] + interleave(
                rest_batches.skip(1),
                rest,
            )));
        }
        i += 1;
    }
    while j < n
        invariant
            all_transactions == transactions@,
            n == transactions@.len(),
            i == all_batches.len(),
            j <= n,
            item_views(items@) + interleave(all_batches.skip(i as int), all_transactions.skip(j as int))
                == interleave(all_batches, all_transactions),
        decreases n - j,
    {
        let ghost before = item_views(items@);
        items.push_back(UpdateItem::Transaction(transactions[j]));
        proof {
            let rest = all_transactions.skip(j as int);
            assert(all_batches.skip(i as int).len() == 0);
            assert(rest[0] == all_transactions[j as int]);
            assert(rest.skip(1) == all_transactions.skip(j + 1));
            assert(item_views(items@) == before.push(UpdateItemView::Transaction(rest[0])));
            assert(before.push(UpdateItemView::Transaction(rest[0])) + interleave(
                all_batches.skip(i as int),
                rest.skip(1),
            ) == before + (seq![UpdateItemView::Transaction(rest[0])] + interleave(
                all_batches.skip(i as int),
                rest.skip(1),
            )));
        }
        j += 1;
    }
    proof {
        assert(all_batches.skip(i as int).len() == 0);
        assert(all_transactions.skip(j as int).len() == 0);
        assert(item_views(items@) + Seq::<UpdateItemView>::empty() == item_views(items@));
    }
    items
}

/// Replays the sequence numbers from `start` up to, not including, `end`.
fn replay(store: &AuthorityStore, start: TxSequenceNumber, end: TxSequenceNumber) -> (r: Result<
    (VecDeque<UpdateItem>, (bool, TxSequenceNumber, TxSequenceNumber)),
    SuiError,
>)
    requires
        store.wf(),
    ensures
        match r {
            Ok((items, range)) => replay_of(store@, start, end) == Ok::<
                (Seq<UpdateItemView>, (bool, TxSequenceNumber, TxSequenceNumber)),
                SuiErrorView,
            >((item_views(items@), range)),
            Err(e) => replay_of(store@, start, end) == Err::<
                (Seq<UpdateItemView>, (bool, TxSequenceNumber, TxSequenceNumber)),
                SuiErrorView,
            >(e@),
        },
{
    let (batches, transactions) = match store.batches_and_transactions(start, end) {
        Ok(found) => found,
        Err(e) => {
            return Err(e);
        },
    };
    let last_batch_next_seq = batches[batches.len() - 1].batch.next_sequence_number;
    proof {
        assert(batch_views(batches@).last() == batches@[batches@.len() - 1]@);
    }
    let items = interleave_items(batches, transactions);
    // Whether we have sent everything requested, or need to start live notifications.
    let should_subscribe = end > last_batch_next_seq;
    Ok((items, (should_subscribe, start, end)))
}

/// The versions that consensus assigned to shared objects for the
/// transaction `digest`, by the identifier of the object.
fn shared_lock_map(store: &AuthorityStore, digest: &TransactionDigest) -> (r: HashMap<
    ObjectID,
    SequenceNumber,
>)
    requires
        store.wf(),
    ensures
        forall|id: ObjectID|
            store@.shared_lock(*digest, id) == if r@.contains_key(id) {
                Some(#[trigger] r@[id])
            } else {
                None
            },
        forall|id: ObjectID| #[trigger] r@.contains_key(id) <==> store@.sequenced.contains_key((*digest, id)),
{
    broadcast use vstd::std_specs::hash::group_hash_axioms;

    let locks = store.all_shared_locks(digest);
    let mut map: HashMap<ObjectID, SequenceNumber> = HashMap::new();
    let mut i: usize = 0;
    while i < locks.len()
        invariant
            store@.is_shared_lock_list(locks@, *digest),
            i <= locks@.len(),
            forall|id: ObjectID|
                #[trigger] map@.contains_key(id) <==> exists|j: int|
                    0 <= j < i && (#[trigger] locks@[j]).0 == id,
            forall|j: int| 0 <= j < i ==> map@[(#[trigger] locks@[j]).0] == locks@[j].1,
        decreases locks@.len() - i,
    {
        let (id, version) = locks[i];
        let ghost before = map@;
        map.insert(id, version);
        proof {
            assert forall|x: ObjectID| #[trigger] map@.contains_key(x) <==> exists|j: int|
                0 <= j < i + 1 && (#[trigger] locks@[j]).0 == x by {
                if before.contains_key(x) {
                    let j = choose|j: int| 0 <= j < i && (#[trigger] locks@[j]).0 == x;
                    assert(locks@[j].0 == x);
                }
                if x == id {
                    assert(locks@[i as int].0 == x);
                }
            }
            assert forall|j: int| 0 <= j < i + 1 implies map@[(#[trigger] locks@[j]).0] == locks@[j].1 by {
                if j < i {
                    assert(locks@[j].0 < locks@[i as int].0);
                }
            }
        }
        i += 1;
    }
    proof {
        assert forall|id: ObjectID| #[trigger]
            map@.contains_key(id) <==> store@.sequenced.contains_key((*digest, id)) by {
            if map@.contains_key(id) {
                let j = choose|j: int| 0 <= j < locks@.len() && (#[trigger] locks@[j]).0 == id;
                assert(store@.shared_lock(*digest, locks@[j].0) == Some(locks@[j].1));
            }
            if store@.sequenced.contains_key((*digest, id)) {
                let j = choose|j: int| 0 <= j < locks@.len() && (#[trigger] locks@[j]).0 == id;
                assert(locks@[j].0 == id);
            }
        }
        assert forall|id: ObjectID|
            store@.shared_lock(*digest, id) == if map@.contains_key(id) {
                Some(#[trigger] map@[id])
            } else {
                None
            } by {
            if map@.contains_key(id) {
                let j = choose|j: int| 0 <= j < locks@.len() && (#[trigger] locks@[j]).0 == id;
                assert(store@.shared_lock(*digest, locks@[j].0) == Some(locks@[j].1));
                assert(map@[locks@[j].0] == locks@[j].1);
            }
        }
    }
    map
}

/// The state of one authority.
pub struct AuthorityState {
    name: AuthorityName,
    committee: Committee,
    store: AuthorityStore,
    batch_notifier: TransactionNotifier,
    consensus_guardrail: u64,
    metrics: AuthorityMetrics,
}

impl View for AuthorityState {
    type V = AuthorityStateView;

    closed spec fn view(&self) -> AuthorityStateView {
        AuthorityStateView {
            name: self.name,
            committee: self.committee@,
            store: self.store@,
            notifier: self.batch_notifier@,
            consensus_guardrail: self.consensus_guardrail,
            metrics: self.metrics,
        }
    }
}

impl AuthorityState {
    /// Whether the state is well formed: its parts are, and the state's
    /// invariant holds of the view.
    pub closed spec fn wf(&self) -> bool {
        &&& self.committee.wf()
        &&& self.store.wf()
        &&& self@.inv()
    }

    /// A well-formed state satisfies the invariant of its view.
    pub proof fn lemma_inv(&self)
        requires
            self.wf(),
        ensures
            self@.inv(),
    {
    }

    /// The state of the authority `name` of `committee` over `store`. A store
    /// that holds no batch yet gets the empty batch at the start of the log,
    /// with the digest and under the signature given.
    pub fn new_without_genesis(
        committee: Committee,
        name: AuthorityName,
        store: AuthorityStore,
        initial_batch_digest: BatchDigest,
        initial_batch_signature: AuthoritySignature,
    ) -> (r: Self)
        requires
            committee.wf(),
            store.wf(),
        ensures
            r.wf(),
            r@.name == name,
            r@.committee == committee@,
            r@.store == store@.with_first_batch(
                initial_batch(name, initial_batch_digest, initial_batch_signature),
            ),
            r@.notifier == (NotifierView {
                low_watermark: store@.executed_sequence.len() as u64,
                slots: Seq::empty(),
                is_closed: false,
            }),
            r@.consensus_guardrail == 0,
            r@.metrics == AuthorityMetrics::zero(),
    {
        proof {
            store.lemma_inv();
        }
        let mut store = store;
        if store.last_batch().is_none() {
            let initial = SignedBatch::new(
                AuthorityBatch::initial(initial_batch_digest),
                initial_batch_signature,
                name,
            );
            let added = store.add_batch(initial);
            assert(added is Ok);
        }
        proof {
            store.lemma_inv();
        }
        let next = store.next_sequence_number();
        AuthorityState {
            name,
            committee,
            store,
            batch_notifier: TransactionNotifier::new(next),
            consensus_guardrail: 0,
            metrics: AuthorityMetrics::new(),
        }
    }

    /// The state of the authority `name` of `committee` over `store`, with
    /// the objects of the genesis put into the store if the store holds no
    /// object yet.
    pub fn new(
        committee: Committee,
        name: AuthorityName,
        store: AuthorityStore,
        genesis_objects: &Vec<Object>,
        initial_batch_digest: BatchDigest,
        initial_batch_signature: AuthoritySignature,
    ) -> (r: Self)
        requires
            committee.wf(),
            store.wf(),
        ensures
            r.wf(),
            r@.name == name,
            r@.committee == committee@,
            r@.store == ({
                let base = store@.with_first_batch(
                    initial_batch(name, initial_batch_digest, initial_batch_signature),
                );
                if store@.objects.dom().len() == 0 {
                    insert_genesis_objects(base, genesis_objects@)
                } else {
                    base
                }
            }),
            r@.notifier == (NotifierView {
                low_watermark: store@.executed_sequence.len() as u64,
                slots: Seq::empty(),
                is_closed: false,
            }),
            r@.consensus_guardrail == 0,
            r@.metrics == AuthorityMetrics::zero(),
    {
        let mut state = AuthorityState::new_without_genesis(
            committee,
            name,
            store,
            initial_batch_digest,
            initial_batch_signature,
        );
        if state.store.database_is_empty() {
            state.insert_genesis_objects_bulk_unsafe(genesis_objects);
        }
        state
    }

    /// The name of this authority.
    pub fn name(&self) -> (r: AuthorityName)
        ensures
            r == self@.name,
    {
        self.name
    }

    /// The committee of the epoch.
    pub fn committee(&self) -> (r: &Committee)
        ensures
            r@ == self@.committee,
    {
        &self.committee
    }

    /// The counters.
    pub fn metrics(&self) -> (r: AuthorityMetrics)
        ensures
            r == self@.metrics,
    {
        self.metrics
    }

    /// The store, to read.
    pub fn db(&self) -> (r: &AuthorityStore)
        ensures
            r@ == self@.store,
            self.wf() ==> r.wf(),
    {
        &self.store
    }

    /// Takes the state apart and hands out the store, as it is left when the
    /// authority stops. A state made anew over this store continues where
    /// this one stopped.
    pub fn into_store(self) -> (r: AuthorityStore)
        ensures
            r@ == self@.store,
            self.wf() ==> r.wf() && r@.batches.len() > 0,
    {
        self.store
    }

    /// What the authority knows of the transaction `transaction_digest`.
    pub fn make_transaction_info(&self, transaction_digest: &TransactionDigest) -> (r: Result<
        TransactionInfoResponse,
        SuiError,
    >)
        requires
            self.wf(),
        ensures
            r matches Ok(response) && response@ == self@.store.transaction_info(*transaction_digest),
    {
        Ok(self.store.get_signed_transaction_info(transaction_digest))
    }

    /// Locks the owned inputs of a transaction for it, all or none.
    pub fn set_transaction_lock(
        &mut self,
        mutable_input_objects: &Vec<ObjectRef>,
        signed_transaction: SignedTransaction,
    ) -> (r: Result<(), SuiError>)
        requires
            old(self).wf(),
        ensures
            final(self).wf(),
            match first_conflict(
                old(self)@.store.transaction_lock,
                mutable_input_objects@,
                signed_transaction@.transaction.digest,
            ) {
                Some(i) => {
                    &&& r matches Err(SuiError::ConflictingTransaction { pending_transaction })
                    &&& Some(pending_transaction@) == old(self)@.store.lock_holder(
                        mutable_input_objects@[i],
                    )
                    &&& final(self)@ == old(self)@
                },
                None => {
                    &&& r is Ok
                    &&& final(self)@ == (AuthorityStateView {
                        store: old(self)@.store.set_transaction_lock(
                            mutable_input_objects@,
                            signed_transaction@,
                        ),
                        ..old(self)@
                    })
                },
            },
    {
        let r = self.store.set_transaction_lock(mutable_input_objects, signed_transaction);
        proof {
            self.store.lemma_inv();
            assert(self@.store.executed_sequence == old(self)@.store.executed_sequence);
            assert(self@.store.batches == old(self)@.store.batches);
        }
        r
    }

    /// The signed transaction that holds the lock on `object_ref`, if any.
    pub fn get_transaction_lock(&self, object_ref: &ObjectRef) -> (r: Result<
        Option<SignedTransaction>,
        SuiError,
    >)
        requires
            self.wf(),
        ensures
            r matches Ok(lock) && match lock {
                Some(t) => self@.store.lock_holder(*object_ref) == Some(t@),
                None => self@.store.lock_holder(*object_ref) is None,
            },
    {
        Ok(self.store.get_transaction_lock(object_ref))
    }

    fn handle_transaction_impl(&mut self, transaction: Transaction, signature: AuthoritySignature) -> (r:
        Result<TransactionInfoResponse, SuiError>)
        requires
            old(self).wf(),
            transaction@.is_verified,
            !old(self)@.store.effects.contains_key(transaction@.digest),
        ensures
            final(self).wf(),
            final(self)@.name == old(self)@.name,
            final(self)@.committee == old(self)@.committee,
            final(self)@.notifier == old(self)@.notifier,
            final(self)@.consensus_guardrail == old(self)@.consensus_guardrail,
            if old(self)@.store.transactions.contains_key(transaction@.digest) {
                &&& response_view(r) == Ok::<TransactionInfoResponseView, SuiErrorView>(
                    old(self)@.store.transaction_info(transaction@.digest),
                )
                &&& final(self)@.store == old(self)@.store
                &&& final(self)@.metrics == (AuthorityMetrics {
                    tx_already_processed: bump(old(self)@.metrics.tx_already_processed),
                    ..old(self)@.metrics
                })
            } else {
                &&& final(self)@.store == old(self)@.lock_transaction(transaction@, signature).1
                &&& final(self)@.metrics == if old(self)@.counts_shared(transaction@) {
                    AuthorityMetrics {
                        shared_obj_tx: bump(old(self)@.metrics.shared_obj_tx),
                        ..old(self)@.metrics
                    }
                } else {
                    old(self)@.metrics
                }
                &&& match old(self)@.lock_transaction(transaction@, signature).0 {
                    Ok(_) => response_view(r) == Ok::<TransactionInfoResponseView, SuiErrorView>(
                        final(self)@.store.transaction_info(transaction@.digest),
                    ),
                    Err(e) => response_view(r) == Err::<TransactionInfoResponseView, SuiErrorView>(e),
                }
            },
    {
        let transaction_digest = transaction.digest();
        if self.store.transaction_exists(&transaction_digest) {
            self.metrics.tx_already_processed = bumped(self.metrics.tx_already_processed);
            return self.make_transaction_info(&transaction_digest);
        }
        let all_objects = match check_transaction_input(&self.store, &transaction) {
            Ok((_gas_status, all_objects)) => all_objects,
            Err(e) => {
                return Err(e);
            },
        };
        if transaction.contains_shared_object() {
            self.metrics.shared_obj_tx = bumped(self.metrics.shared_obj_tx);
        }
        let owned_objects = filter_owned_objects(&all_objects);
        let signed_transaction = SignedTransaction::new(
            self.committee.epoch(),
            transaction,
            self.name,
            signature,
        );
        match self.set_transaction_lock(&owned_objects, signed_transaction) {
            Ok(()) => {},
            Err(e) => {
                return Err(e);
            },
        }
        self.make_transaction_info(&transaction_digest)
    }

    /// Takes in a transaction of a client, with the signature that this
    /// authority makes over it.
    ///
    /// A transaction whose sender signature has not been checked is refused.
    /// One whose certificate has been executed, and one that this authority
    /// has signed before, is answered from the store, and nothing is
    /// written. Otherwise the inputs are checked and the owned ones are
    /// locked for the transaction, all or none.
    pub fn handle_transaction(&mut self, transaction: Transaction, signature: AuthoritySignature) -> (r:
        Result<TransactionInfoResponse, SuiError>)
        requires
            old(self).wf(),
        ensures
            final(self).wf(),
            response_view(r) == old(self)@.handle_transaction(transaction@, signature).0,
            final(self)@ == old(self)@.handle_transaction(transaction@, signature).1,
    {
        self.metrics.tx_orders = bumped(self.metrics.tx_orders);
        match transaction.verify_signature() {
            Ok(()) => {},
            Err(e) => {
                self.metrics.signature_errors = bumped(self.metrics.signature_errors);
                return Err(e);
            },
        }
        let transaction_digest = transaction.digest();
        // Ensure an idempotent answer.
        if self.store.effects_exists(&transaction_digest) {
            self.metrics.tx_already_processed = bumped(self.metrics.tx_already_processed);
            return self.make_transaction_info(&transaction_digest);
        }
        self.handle_transaction_impl(transaction, signature)
    }

    /// Checks that consensus has assigned to each of the shared inputs of
    /// the transaction `transaction_digest` the version at which it is
    /// presented. Fails with the error of the first input of which this
    /// does not hold.
    pub fn check_shared_locks(
        &self,
        transaction_digest: &TransactionDigest,
        shared_object_refs: &Vec<ObjectRef>,
    ) -> (r: Result<(), SuiError>)
        requires
            self.wf(),
        ensures
            match r {
                Ok(_) => shared_lock_error(self@.store, *transaction_digest, shared_object_refs@) is None,
                Err(e) => shared_lock_error(self@.store, *transaction_digest, shared_object_refs@) == Some(
                    e@,
                ),
            },
    {
        let shared_locks = shared_lock_map(&self.store, transaction_digest);
        // Check whether the shared objects have already been assigned a sequence number by
        // the consensus. Bail if the transaction contains even one shared object that either:
        // (i) was not assigned a sequence number, or
        // (ii) has a different sequence number than the current one.
        let mut i: usize = 0;
        while i < shared_object_refs.len()
            invariant
                self.wf(),
                i <= shared_object_refs@.len(),
                forall|id: ObjectID|
                    self@.store.shared_lock(*transaction_digest, id) == if shared_locks@.contains_key(id) {
                        Some(#[trigger] shared_locks@[id])
                    } else {
                        None
                    },
                forall|id: ObjectID| #[trigger]
                    shared_locks@.contains_key(id) <==> self@.store.sequenced.contains_key(
                        (*transaction_digest, id),
                    ),
                shared_lock_error(
                    self@.store,
                    *transaction_digest,
                    shared_object_refs@.subrange(0, i as int),
                ) is None,
            decreases shared_object_refs@.len() - i,
        {
            broadcast use vstd::std_specs::hash::group_hash_axioms;

            let (object_id, version, _) = shared_object_refs[i];
            proof {
                assert(shared_object_refs@.subrange(0, i + 1).drop_last() == shared_object_refs@.subrange(
                    0,
                    i as int,
                ));
            }
            let assigned = match shared_locks.get(&object_id) {
                Some(v) => Some(*v),
                None => None,
            };
            proof {
                if shared_locks@.contains_key(object_id) {
                    assert(self@.store.shared_lock(*transaction_digest, object_id) == Some(
                        shared_locks@[object_id],
                    ));
                }
                assert(assigned == self@.store.shared_lock(*transaction_digest, object_id));
            }
            match assigned {
                None => {
                    proof {
                        lemma_shared_lock_error_prefix(
                            self@.store,
                            *transaction_digest,
                            shared_object_refs@,
                            i + 1,
                        );
                    }
                    return Err(SuiError::SharedObjectLockNotSetObject);
                },
                Some(expected_sequence) => {
                    if expected_sequence != version {
                        proof {
                            lemma_shared_lock_error_prefix(
                                self@.store,
                                *transaction_digest,
                                shared_object_refs@,
                                i + 1,
                            );
                        }
                        return Err(
                            SuiError::UnexpectedSequenceNumber {
                                object_id,
                                expected_sequence,
                                given_sequence: version,
                            },
                        );
                    }
                },
            }
            i += 1;
        }
        assert(shared_object_refs@.subrange(0, i as int) == shared_object_refs@);
        Ok(())
    }

    /// Prepares a certificate for execution: checks its inputs, and its
    /// shared inputs against the versions that consensus assigned, and
    /// gathers what the execution engine needs.
    pub fn process_certificate(&self, certificate: &CertifiedTransaction) -> (r: Result<
        ExecutionInput,
        SuiError,
    >)
        requires
            self.wf(),
        ensures
            match r {
                Ok(input) => self@.process_certificate(certificate@) == Ok::<
                    ExecutionInputView,
                    SuiErrorView,
                >(input@),
                Err(e) => self@.process_certificate(certificate@) == Err::<
                    ExecutionInputView,
                    SuiErrorView,
                >(e@),
            },
    {
        let transaction_digest = certificate.digest();
        let (gas_status, objects_by_kind) = match check_transaction_input(
            &self.store,
            &certificate.transaction,
        ) {
            Ok(checked) => checked,
            Err(e) => {
                return Err(e);
            },
        };
        let shared_object_refs = sort_object_refs(filter_shared_objects(&objects_by_kind));
        if shared_object_refs.len() > 0 {
            match self.check_shared_locks(&transaction_digest, &shared_object_refs) {
                Ok(()) => {},
                Err(e) => {
                    return Err(e);
                },
            }
        }
        let transaction_dependencies = dependencies(&objects_by_kind);
        Ok(
            ExecutionInput {
                shared_object_refs,
                objects_by_kind,
                transaction: certificate.transaction.clone(),
                transaction_digest,
                transaction_dependencies,
                gas_status,
            },
        )
    }

    /// Takes in a certificate for confirmation.
    ///
    /// A certificate that has been executed before is answered from the
    /// store, and nothing is to be executed. Otherwise the certificate must
    /// carry a quorum of the committee and its inputs must pass the checks;
    /// the answer then holds what the execution engine is to be given. The
    /// output of the engine goes to [`AuthorityState::commit_certificate`].
    pub fn handle_confirmation_transaction(&mut self, confirmation_transaction: ConfirmationTransaction) -> (r:
        Result<ConfirmationStep, SuiError>)
        requires
            old(self).wf(),
        ensures
            final(self).wf(),
            step_view(r) == old(self)@.handle_confirmation_transaction(
                confirmation_transaction.certificate@,
            ).0,
            final(self)@ == old(self)@.handle_confirmation_transaction(
                confirmation_transaction.certificate@,
            ).1,
    {
        self.metrics.total_certs = bumped(self.metrics.total_certs);
        let certificate = confirmation_transaction.certificate;
        let transaction_digest = certificate.digest();
        if self.store.effects_exists(&transaction_digest) {
            let info = self.store.get_signed_transaction_info(&transaction_digest);
            return Ok(ConfirmationStep::AlreadyExecuted(info));
        }
        match certificate.verify(&self.committee) {
            Ok(()) => {},
            Err(e) => {
                self.metrics.signature_errors = bumped(self.metrics.signature_errors);
                return Err(e);
            },
        }
        let r = self.process_certificate(&certificate);
        if certificate.contains_shared_object() && input_check_passes(&self.store, &certificate.transaction) {
            self.metrics.shared_obj_tx = bumped(self.metrics.shared_obj_tx);
        }
        match r {
            Ok(input) => Ok(ConfirmationStep::Execute(input)),
            Err(e) => Err(e),
        }
    }

    /// Commits an executed certificate in one step, under a ticket of the
    /// notifier that is resolved as soon as the store is written.
    fn update_state(
        &mut self,
        active_inputs: &Vec<ObjectRef>,
        temporary_store: AuthorityTemporaryStore,
        certificate: CertifiedTransaction,
        signed_effects: SignedTransactionEffects,
    ) -> (r: Result<(), SuiError>)
        requires
            old(self).wf(),
            signed_effects@.effects.transaction_digest == certificate@.transaction.digest,
            !old(self)@.store.effects.contains_key(certificate@.transaction.digest),
        ensures
            final(self).wf(),
            if old(self)@.notifier.can_issue() {
                &&& r is Ok
                &&& final(self)@ == (AuthorityStateView {
                    store: old(self)@.store.update_state(
                        active_inputs@,
                        temporary_store.written@,
                        temporary_store.deleted@,
                        certificate@,
                        signed_effects@,
                    ),
                    notifier: NotifierView {
                        low_watermark: (old(self)@.notifier.low_watermark + 1) as u64,
                        ..old(self)@.notifier
                    },
                    ..old(self)@
                })
            } else {
                &&& r == Err::<(), SuiError>(SuiError::ClosedNotifierError)
                &&& final(self)@ == old(self)@
            },
    {
        let digest = certificate.digest();
        let notifier_ticket = match self.batch_notifier.ticket() {
            Ok(t) => t,
            Err(e) => {
                return Err(e);
            },
        };
        self.store.update_state(
            active_inputs,
            &temporary_store.written,
            &temporary_store.deleted,
            certificate,
            signed_effects,
        );
        let ghost seq = notifier_ticket.spec_seq();
        let _released = self.batch_notifier.resolve(notifier_ticket, digest);
        proof {
            let before = old(self)@.notifier;
            let issued = before.issue();
            assert(before.slots == Seq::<Option<TransactionDigest>>::empty());
            assert(issued.slots == seq![None::<TransactionDigest>]);
            assert(seq == before.low_watermark);
            assert(issued.is_live(seq));
            let marked = issued.marked(seq, digest);
            assert(marked == seq![Some(digest)]);
            lemma_ready_len(marked, 1);
            assert(marked.skip(1) == Seq::<Option<TransactionDigest>>::empty());
            assert(self@.notifier == (NotifierView {
                low_watermark: (before.low_watermark + 1) as u64,
                ..before
            }));
            self.store.lemma_inv();
        }
        Ok(())
    }

    /// Takes in the output of the execution of a certificate and commits it.
    ///
    /// A certificate that has been executed before is answered from the
    /// store and nothing is written. Otherwise the effects must be those of
    /// the certificate and be signed by this authority in the epoch of its
    /// committee, the certificate must carry a quorum, and its inputs must
    /// pass the checks that precede the execution. Then, in one step,
    /// the effects are recorded, the written objects replace their earlier
    /// versions, the locks on the owned inputs are released, and the
    /// transaction is appended to the executed log.
    pub fn commit_certificate(
        &mut self,
        certificate: CertifiedTransaction,
        temporary_store: AuthorityTemporaryStore,
        signed_effects: SignedTransactionEffects,
    ) -> (r: Result<TransactionInfoResponse, SuiError>)
        requires
            old(self).wf(),
        ensures
            final(self).wf(),
            response_view(r) == old(self)@.commit_certificate(
                certificate@,
                temporary_store.written@,
                temporary_store.deleted@,
                signed_effects@,
            ).0,
            final(self)@ == old(self)@.commit_certificate(
                certificate@,
                temporary_store.written@,
                temporary_store.deleted@,
                signed_effects@,
            ).1,
    {
        let transaction_digest = certificate.digest();
        if self.store.effects_exists(&transaction_digest) {
            return self.make_transaction_info(&transaction_digest);
        }
        if signed_effects.effects.transaction_digest != transaction_digest {
            return Err(SuiError::InvalidTransactionDigest);
        }
        if signed_effects.authority != self.name {
            return Err(SuiError::UnknownSigner);
        }
        if signed_effects.epoch != self.committee.epoch() {
            return Err(SuiError::WrongEpoch);
        }
        match certificate.verify(&self.committee) {
            Ok(()) => {},
            Err(e) => {
                return Err(e);
            },
        }
        let input = match self.process_certificate(&certificate) {
            Ok(input) => input,
            Err(e) => {
                return Err(e);
            },
        };
        let active_inputs = filter_owned_objects(&input.objects_by_kind);
        let events = signed_effects.effects.events;
        match self.update_state(&active_inputs, temporary_store, certificate, signed_effects) {
            Ok(()) => {},
            Err(e) => {
                return Err(e);
            },
        }
        self.metrics.total_effects = bumped(self.metrics.total_effects);
        self.metrics.total_events = bumped_by(self.metrics.total_events, events);
        self.make_transaction_info(&transaction_digest)
    }

    /// Takes in a certificate that consensus has delivered, with the index
    /// of the consensus output after it. Only one task may call this.
    ///
    /// A certificate without shared inputs is ignored, and so is one that
    /// has been sequenced before. Otherwise the certificate must carry a
    /// quorum; it is then recorded, and each of its shared inputs is
    /// assigned the next version of that object, in one step with the
    /// advance of the consensus index.
    pub fn handle_consensus_certificate(
        &mut self,
        certificate: CertifiedTransaction,
        last_consensus_index: ExecutionIndices,
    ) -> (r: Result<(), SuiError>)
        requires
            old(self).wf(),
        ensures
            final(self).wf(),
            match r {
                Ok(_) => old(self)@.handle_consensus_certificate(certificate@, last_consensus_index).0 is Ok,
                Err(e) => old(self)@.handle_consensus_certificate(certificate@, last_consensus_index).0
                    == Err::<(), SuiErrorView>(e@),
            },
            final(self)@ == old(self)@.handle_consensus_certificate(certificate@, last_consensus_index).1,
    {
        if !certificate.contains_shared_object() {
            return Ok(());
        }
        let transaction_digest = certificate.digest();
        let shared = certificate.shared_input_objects();
        let sequenced = self.store.sequenced(&transaction_digest, &shared);
        if sequenced[0].is_some() {
            return Ok(());
        }
        match certificate.verify(&self.committee) {
            Ok(()) => {},
            Err(e) => {
                return Err(e);
            },
        }
        let r = self.store.persist_certificate_and_lock_shared_objects(certificate, last_consensus_index);
        proof {
            self.store.lemma_inv();
        }
        r
    }

    /// What the authority knows of the transaction of the request.
    pub fn handle_transaction_info_request(&self, request: TransactionInfoRequest) -> (r: Result<
        TransactionInfoResponse,
        SuiError,
    >)
        requires
            self.wf(),
        ensures
            r matches Ok(response) && response@ == self@.store.transaction_info(
                request.transaction_digest,
            ),
    {
        self.make_transaction_info(&request.transaction_digest)
    }

    /// The objects that the account of the request owns, in ascending order
    /// of their references.
    pub fn handle_account_info_request(&self, request: AccountInfoRequest) -> (r: Result<
        AccountInfoResponse,
        SuiError,
    >)
        requires
            self.wf(),
        ensures
            r matches Ok(response) && response.owner == request.account && self@.store.is_account_list(
                response.object_ids@,
                request.account,
            ),
    {
        self.make_account_info(request.account)
    }

    fn make_account_info(&self, account: SuiAddress) -> (r: Result<AccountInfoResponse, SuiError>)
        requires
            self.wf(),
        ensures
            r matches Ok(response) && response.owner == account && self@.store.is_account_list(
                response.object_ids@,
                account,
            ),
    {
        let object_ids = self.store.get_account_objects(account);
        Ok(AccountInfoResponse { object_ids, owner: account })
    }

    /// The state of an object: the reference asked for, the certificate
    /// that produced it and, where the latest state is asked for, the object
    /// and the transaction that holds the lock on it.
    pub fn handle_object_info_request(&self, request: ObjectInfoRequest) -> (r: Result<
        ObjectInfoResponse,
        SuiError,
    >)
        requires
            self.wf(),
        ensures
            object_info(self@.store, request, object_info_view(r)),
    {
        let ghost store = self@.store;
        let ghost version = requested_version(request);
        let ref_and_digest = match request.request_kind {
            ObjectInfoRequestKind::PastObjectInfo(seq) => {
                let entries = self.store.get_parent_iterator(request.object_id, Some(seq));
                if entries.len() > 0 {
                    let first = entries[0];
                    proof {
                        assert forall|other: ObjectRef|
                            store.is_parent_entry(other, request.object_id, version) implies ref_le(
                            first.0,
                            other,
                        ) by {
                            let i = choose|i: int|
                                0 <= i < entries@.len() && (#[trigger] entries@[i]).0 == other;
                            if i > 0 {
                                assert(ref_le(entries@[0].0, entries@[i].0));
                            }
                        }
                        assert(store.is_chosen_parent(first.0, request.object_id, version));
                    }
                    Some(first)
                } else {
                    proof {
                        assert forall|other: ObjectRef|
                            !store.is_parent_entry(other, request.object_id, version) by {
                            if store.is_parent_entry(other, request.object_id, version) {
                                let i = choose|i: int|
                                    0 <= i < entries@.len() && (#[trigger] entries@[i]).0 == other;
                            }
                        }
                    }
                    None
                }
            },
            ObjectInfoRequestKind::LatestObjectInfo => {
                let latest = self.store.get_latest_parent_entry(request.object_id);
                proof {
                    if latest is Some {
                        let entry = latest->Some_0;
                        let latest_ref = entry.0;
                        assert(store.is_chosen_parent(latest_ref, request.object_id, version));
                    }
                }
                latest
            },
        };
        let (requested_object_reference, parent_certificate) = match ref_and_digest {
            Some((object_ref, transaction_digest)) => (
                Some(object_ref),
                if transaction_digest == GENESIS_TRANSACTION_DIGEST {
                    None
                } else {
                    match self.store.read_certificate(&transaction_digest) {
                        Some(c) => Some(c),
                        None => {
                            assert(store.is_chosen_parent(object_ref, request.object_id, version));
                            return Err(
                                SuiError::CertificateNotfound { certificate_digest: transaction_digest },
                            );
                        },
                    }
                },
            ),
            None => (None, None),
        };
        let object_and_lock = match request.request_kind {
            ObjectInfoRequestKind::LatestObjectInfo => {
                match self.store.get_object(&request.object_id) {
                    Some(object) => {
                        let lock = if object.is_immutable() {
                            None
                        } else {
                            self.store.get_transaction_lock(&object.compute_object_reference())
                        };
                        Some(ObjectResponse { object, lock })
                    },
                    None => None,
                }
            },
            ObjectInfoRequestKind::PastObjectInfo(_) => None,
        };
        Ok(ObjectInfoResponse { parent_certificate, requested_object_reference, object_and_lock })
    }

    /// Replays a range of the executed log: the batches and the
    /// transactions of the range, interleaved in their natural order, and
    /// whether the range goes past the last batch shown, in which case the
    /// caller should subscribe to what comes after.
    ///
    /// Without a start the range begins where the last sealed batch ends. A
    /// request for no item is refused, and so is one for more than
    /// `MAX_ITEMS_LIMIT` items, or for a range that runs past the last
    /// sequence number there is.
    pub fn handle_batch_info_request(&self, request: BatchInfoRequest) -> (r: Result<
        (VecDeque<UpdateItem>, (bool, TxSequenceNumber, TxSequenceNumber)),
        SuiError,
    >)
        requires
            self.wf(),
        ensures
            match r {
                Ok((items, range)) => batch_info(self@.store, request) == Ok::<
                    (Seq<UpdateItemView>, (bool, TxSequenceNumber, TxSequenceNumber)),
                    SuiErrorView,
                >((item_views(items@), range)),
                Err(e) => batch_info(self@.store, request) == Err::<
                    (Seq<UpdateItemView>, (bool, TxSequenceNumber, TxSequenceNumber)),
                    SuiErrorView,
                >(e@),
            },
    {
        if request.length == 0 {
            return Err(SuiError::InvalidSequenceRangeError);
        }
        if request.length > MAX_ITEMS_LIMIT {
            return Err(SuiError::TooManyItemsError(MAX_ITEMS_LIMIT));
        }
        let start = match request.start {
            Some(start) => start,
            None => self.store.last_batch().unwrap().batch.next_sequence_number,
        };
        if request.length > u64::MAX - start {
            return Err(SuiError::InvalidSequenceRangeError);
        }
        replay(&self.store, start, start + request.length)
    }

    /// For each of the identifiers, the latest state of that object, if the
    /// store has it.
    pub fn get_objects(&self, objects: &Vec<ObjectID>) -> (r: Result<Vec<Option<Object>>, SuiError>)
        requires
            self.wf(),
        ensures
            r matches Ok(found) && {
                &&& found@.len() == objects@.len()
                &&& forall|i: int|
                    0 <= i < objects@.len() ==> found@[i] == if self@.store.objects.contains_key(
                        objects@[i],
                    ) {
                        Some(self@.store.objects[objects@[i]])
                    } else {
                        None
                    }
            },
    {
        Ok(self.store.get_objects(objects))
    }

    /// The certificate of `digest`, if the store has it.
    pub fn read_certificate(&self, digest: &TransactionDigest) -> (r: Result<
        Option<CertifiedTransaction>,
        SuiError,
    >)
        requires
            self.wf(),
        ensures
            r matches Ok(found) && match found {
                Some(c) => self@.store.certificates.contains_key(*digest) && c@
                    == self@.store.certificates[*digest],
                None => !self@.store.certificates.contains_key(*digest),
            },
    {
        Ok(self.store.read_certificate(digest))
    }

    /// The transaction that produced the object version `object_ref`, if it
    /// is recorded.
    pub fn parent(&self, object_ref: &ObjectRef) -> (r: Option<TransactionDigest>)
        requires
            self.wf(),
        ensures
            r == if self@.store.parent_sync.contains_key(*object_ref) {
                Some(self@.store.parent_sync[*object_ref])
            } else {
                None
            },
    {
        self.store.parent(object_ref)
    }

    /// The recorded versions of the object `object_id`, at the version `seq`
    /// if one is given, each with the transaction that produced it, in
    /// ascending order.
    pub fn get_parent_iterator(&self, object_id: ObjectID, seq: Option<SequenceNumber>) -> (r: Result<
        Vec<(ObjectRef, TransactionDigest)>,
        SuiError,
    >)
        requires
            self.wf(),
        ensures
            r matches Ok(entries) && self@.store.is_parent_list(entries@, object_id, seq),
    {
        Ok(self.store.get_parent_iterator(object_id, seq))
    }

    /// The latest recorded version of the object `object_id`, with the
    /// transaction that produced it.
    pub fn get_latest_parent_entry(&self, object_id: ObjectID) -> (r: Result<
        Option<(ObjectRef, TransactionDigest)>,
        SuiError,
    >)
        requires
            self.wf(),
        ensures
            r matches Ok(latest) && match latest {
                Some((object_ref, digest)) => {
                    &&& self@.store.is_parent_entry(object_ref, object_id, None)
                    &&& digest == self@.store.parent_sync[object_ref]
                    &&& forall|other: ObjectRef|
                        self@.store.is_parent_entry(other, object_id, None) ==> ref_le(
                            other,
                            object_ref,
                        )
                },
                None => forall|other: ObjectRef| !self@.store.is_parent_entry(other, object_id, None),
            },
    {
        Ok(self.store.get_latest_parent_entry(object_id))
    }

    /// Puts an object into the store at the genesis.
    pub fn insert_genesis_object(&mut self, object: Object)
        requires
            old(self).wf(),
        ensures
            final(self).wf(),
            final(self)@ == (AuthorityStateView {
                store: old(self)@.store.insert_genesis_object(object),
                ..old(self)@
            }),
    {
        self.store.insert_genesis_object(object);
        proof {
            self.store.lemma_inv();
        }
    }

    /// Puts objects into the store at the genesis.
    pub fn insert_genesis_objects_bulk_unsafe(&mut self, objects: &Vec<Object>)
        requires
            old(self).wf(),
        ensures
            final(self).wf(),
            final(self)@ == (AuthorityStateView {
                store: insert_genesis_objects(old(self)@.store, objects@),
                ..old(self)@
            }),
    {
        self.store.bulk_object_insert(objects);
        proof {
            self.store.lemma_inv();
            lemma_insert_genesis_objects_frame(old(self)@.store, objects@);
        }
    }

    /// Takes in a certificate from the consensus output, at the index of
    /// the output after it: the certificate is sequenced and then prepared
    /// for execution. A certificate that has been executed is answered from
    /// the store.
    pub fn handle_consensus_transaction(
        &mut self,
        execution_indices: ExecutionIndices,
        certificate: CertifiedTransaction,
    ) -> (r: Result<ConfirmationStep, SuiError>)
        requires
            old(self).wf(),
        ensures
            final(self).wf(),
            ({
                let digest = certificate@.transaction.digest;
                let (sequenced, after) = old(self)@.handle_consensus_certificate(
                    certificate@,
                    execution_indices,
                );
                if old(self)@.store.effects.contains_key(digest) {
                    &&& step_view(r) == Ok::<ConfirmationStepView, SuiErrorView>(
                        ConfirmationStepView::AlreadyExecuted(
                            old(self)@.store.transaction_info(digest),
                        ),
                    )
                    &&& final(self)@ == old(self)@
                } else {
                    match sequenced {
                        Err(e) => {
                            &&& step_view(r) == Err::<ConfirmationStepView, SuiErrorView>(e)
                            &&& final(self)@ == after
                        },
                        Ok(_) => {
                            &&& step_view(r) == after.handle_confirmation_transaction(certificate@).0
                            &&& final(self)@ == after.handle_confirmation_transaction(certificate@).1
                        },
                    }
                }
            }),
    {
        let digest = certificate.digest();
        if self.store.effects_exists(&digest) {
            let info = self.store.get_signed_transaction_info(&digest);
            return Ok(ConfirmationStep::AlreadyExecuted(info));
        }
        match self.handle_consensus_certificate(certificate.clone(), execution_indices) {
            Ok(()) => {},
            Err(e) => {
                return Err(e);
            },
        }
        self.handle_confirmation_transaction(ConfirmationTransaction { certificate })
    }

    /// Asks for the right to feed the consensus output into the state. Only
    /// the first to ask gets it, until it is released.
    pub fn ask_consensus_write_lock(&mut self) -> (granted: bool)
        requires
            old(self).wf(),
        ensures
            final(self).wf(),
            granted == (old(self)@.consensus_guardrail == 0),
            final(self)@ == (AuthorityStateView {
                consensus_guardrail: bump(old(self)@.consensus_guardrail),
                ..old(self)@
            }),
    {
        let granted = self.consensus_guardrail == 0;
        self.consensus_guardrail = bumped(self.consensus_guardrail);
        granted
    }

    /// Gives back the right to feed the consensus output, or withdraws one
    /// request for it.
    pub fn release_consensus_write_lock(&mut self)
        requires
            old(self).wf(),
        ensures
            final(self).wf(),
            final(self)@ == (AuthorityStateView {
                consensus_guardrail: if old(self)@.consensus_guardrail > 0 {
                    (old(self)@.consensus_guardrail - 1) as u64
                } else {
                    0
                },
                ..old(self)@
            }),
    {
        if self.consensus_guardrail > 0 {
            self.consensus_guardrail = self.consensus_guardrail - 1;
        }
    }

    /// How far the consensus output has been consumed.
    pub fn load_execution_indices(&self) -> (r: Result<ExecutionIndices, SuiError>)
        requires
            self.wf(),
        ensures
            r == Ok::<ExecutionIndices, SuiError>(self@.store.last_consensus_index),
    {
        Ok(self.store.last_consensus_index())
    }

    /// The next transaction of the executed log from the sequence number
    /// `next` on that subscribers may see, if there is one.
    pub fn next_batch_item(&self, next: TxSequenceNumber) -> (r: Option<
        (TxSequenceNumber, TransactionDigest),
    >)
        requires
            self.wf(),
        ensures
            r == self@.next_batch_item(next),
    {
        if next < self.batch_notifier.low_watermark() {
            self.store.executed_transaction(next)
        } else {
            None
        }
    }

    /// Seals `transactions` into the batch after the last one, with the
    /// digest and under the signature given, and stores the batch. The
    /// transactions must continue the executed log from where the last batch
    /// ends.
    pub fn seal_batch(
        &mut self,
        transactions: &Vec<(TxSequenceNumber, TransactionDigest)>,
        digest: BatchDigest,
        signature: AuthoritySignature,
    ) -> (r: Result<SignedBatch, SuiError>)
        requires
            old(self).wf(),
        ensures
            final(self).wf(),
            if old(self)@.can_seal(transactions@, digest, signature) {
                &&& r matches Ok(batch)
                &&& batch@ == old(self)@.next_batch(transactions@, digest, signature)
                &&& final(self)@ == (AuthorityStateView {
                    store: old(self)@.store.add_batch(batch@),
                    ..old(self)@
                })
            } else {
                &&& r matches Err(e)
                &&& e == SuiError::GenericAuthorityError
                &&& final(self)@ == old(self)@
            },
    {
        let previous = self.store.last_batch().unwrap();
        let batch = match AuthorityBatch::make_next(&previous.batch, transactions, digest) {
            Ok(b) => b,
            Err(e) => {
                return Err(e);
            },
        };
        let signed = SignedBatch::new(batch, signature, self.name);
        match self.store.add_batch(signed.clone()) {
            Ok(()) => {},
            Err(e) => {
                return Err(e);
            },
        }
        proof {
            self.store.lemma_inv();
        }
        Ok(signed)
    }

    /// Answers a request for the stream of updates: the replay of the range
    /// asked for and, where the range goes past the last batch of the
    /// replay, the stream that continues the replay with live updates.
    pub fn handle_batch_streaming(&self, request: BatchInfoRequest) -> (r: Result<
        (VecDeque<UpdateItem>, Option<BatchStream>),
        SuiError,
    >)
        requires
            self.wf(),
        ensures
            match r {
                Ok((items, stream)) => {
                    &&& batch_info(self@.store, request) matches Ok((replay, range))
                    &&& item_views(items@) == replay
                    &&& match stream {
                        Some(s) => range.0 && s@ == (BatchStreamView {
                            last_seq_sent: last_transaction_of(replay, None),
                            last_batch_sent: last_batch_of(replay, None),
                            end: range.2,
                        }),
                        None => !range.0,
                    }
                },
                Err(e) => batch_info(self@.store, request) == Err::<
                    (Seq<UpdateItemView>, (bool, TxSequenceNumber, TxSequenceNumber)),
                    SuiErrorView,
                >(e@),
            },
    {
        let (items, (should_subscribe, _start, end)) = match self.handle_batch_info_request(request) {
            Ok(found) => found,
            Err(e) => {
                return Err(e);
            },
        };
        let stream = if should_subscribe {
            Some(BatchStream::new(&items, end))
        } else {
            None
        };
        Ok((items, stream))
    }

    /// Hands the batch service the transaction of the executed log that it
    /// takes next, if subscribers may see that transaction already, and
    /// answers with what the service then asks for. Nothing happens while
    /// the log has no such transaction.
    pub fn feed_batch_service(&self, service: &mut BatchService) -> (r: Option<BatchAction>)
        requires
            self.wf(),
        ensures
            match self@.next_batch_item(old(service)@.next_sequence_number) {
                Some(item) => {
                    &&& r matches Some(action)
                    &&& action@ == old(service)@.action(BatchEvent::Transaction(item))
                    &&& final(service)@ == old(service)@.after(BatchEvent::Transaction(item))
                },
                None => r is None && final(service)@ == old(service)@,
            },
    {
        match self.next_batch_item(service.next_sequence_number()) {
            Some(item) => Some(service.on_event(BatchEvent::Transaction(item))),
            None => None,
        }
    }
}

} // verus!

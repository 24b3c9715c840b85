//! The messages that the authority receives, stores and answers with.
//!
//! A message that holds a list has a view, in which the list is a sequence;
//! contracts speak of views.

use vstd::prelude::*;
use crate::base_types::{
    AuthorityName, AuthoritySignature, EpochId, ObjectID, ObjectRef, SequenceNumber, SuiAddress,
    TransactionDigest, TxSequenceNumber,
};
use crate::error::SuiError;
use crate::object::{Object, Owner};

verus! {

/// Copies a list of plain values.
pub fn copy_vec<T: Copy>(v: &Vec<T>) -> (r: Vec<T>)
    ensures
        r@ == v@,
{
    let mut r: Vec<T> = Vec::new();
    let mut i: usize = 0;
    while i < v.len()
        invariant
            i <= v@.len(),
            r@ == v@.subrange(0, i as int),
        decreases v@.len() - i,
    {
        r.push(v[i]);
        assert(r@ == v@.subrange(0, i + 1));
        i += 1;
    }
    assert(r@ == v@);
    r
}

/// What a transaction asks for. The authority hands it on to the execution
/// engine and does not read it otherwise.
#[derive(Clone, Copy, Debug, PartialEq, Eq, Structural)]
pub enum TransactionKind {
    /// Transfer an object to another address.
    Transfer,
    /// Publish a package of modules.
    Publish,
    /// Call a function of a published module.
    Call,
}

/// How a transaction declares one of its input objects.
#[derive(Clone, Copy, Debug, PartialEq, Eq)]
pub enum InputObjectKind {
    /// A published package, by identifier. Packages are immutable.
    MovePackage(ObjectID),
    /// An immutable or exclusively owned object, at one exact version.
    ImmOrOwnedMoveObject(ObjectRef),
    /// A shared object, by identifier. Consensus assigns the version.
    SharedMoveObject(ObjectID),
}

impl InputObjectKind {
    /// The identifier of the declared object.
    pub open spec fn spec_object_id(&self) -> ObjectID {
        match *self {
            InputObjectKind::MovePackage(id) => id,
            InputObjectKind::ImmOrOwnedMoveObject(r) => r.0,
            InputObjectKind::SharedMoveObject(id) => id,
        }
    }

    /// The identifier of the declared object.
    pub fn object_id(&self) -> (id: ObjectID)
        ensures
            id == self.spec_object_id(),
    {
        match *self {
            InputObjectKind::MovePackage(id) => id,
            InputObjectKind::ImmOrOwnedMoveObject(r) => r.0,
            InputObjectKind::SharedMoveObject(id) => id,
        }
    }
}

/// A client's transaction. It never changes once it is made.
#[derive(Debug, PartialEq, Eq)]
pub struct Transaction {
    /// The digest of the transaction's data.
    pub digest: TransactionDigest,
    /// The address that sent and signed it.
    pub sender: SuiAddress,
    /// The operation asked for.
    pub kind: TransactionKind,
    /// The input objects that the operation declares.
    pub inputs: Vec<InputObjectKind>,
    /// The owned object that pays for gas.
    pub gas_payment: ObjectRef,
    /// The most gas that the sender is willing to pay.
    pub gas_budget: u64,
    /// The sender's signature.
    pub tx_signature: AuthoritySignature,
    /// Whether the sender's signature has been checked against the data.
    pub is_verified: bool,
}

/// The view of a [`Transaction`].
pub struct TransactionView {
    pub digest: TransactionDigest,
    pub sender: SuiAddress,
    pub kind: TransactionKind,
    pub inputs: Seq<InputObjectKind>,
    pub gas_payment: ObjectRef,
    pub gas_budget: u64,
    pub tx_signature: AuthoritySignature,
    pub is_verified: bool,
}

impl View for Transaction {
    type V = TransactionView;

    open spec fn view(&self) -> TransactionView {
        TransactionView {
            digest: self.digest,
            sender: self.sender,
            kind: self.kind,
            inputs: self.inputs@,
            gas_payment: self.gas_payment,
            gas_budget: self.gas_budget,
            tx_signature: self.tx_signature,
            is_verified: self.is_verified,
        }
    }
}

impl Clone for Transaction {
    fn clone(&self) -> (r: Self)
        ensures
            r@ == self@,
    {
        Transaction {
            digest: self.digest,
            sender: self.sender,
            kind: self.kind,
            inputs: copy_vec(&self.inputs),
            gas_payment: self.gas_payment,
            gas_budget: self.gas_budget,
            tx_signature: self.tx_signature,
            is_verified: self.is_verified,
        }
    }
}

/// The identifiers of the shared objects among `inputs`, in their order.
pub open spec fn shared_ids(inputs: Seq<InputObjectKind>) -> Seq<ObjectID>
    decreases inputs.len(),
{
    if inputs.len() == 0 {
        Seq::empty()
    } else {
        let rest = shared_ids(inputs.drop_last());
        match inputs.last() {
            InputObjectKind::SharedMoveObject(id) => rest.push(id),
            _ => rest,
        }
    }
}

impl TransactionView {
    /// Every input object of the transaction: the declared ones, then the
    /// object that pays for gas.
    pub open spec fn input_objects(&self) -> Seq<InputObjectKind> {
        self.inputs.push(InputObjectKind::ImmOrOwnedMoveObject(self.gas_payment))
    }

    /// The identifiers of the shared objects that the transaction declares,
    /// in the order of declaration.
    pub open spec fn shared_input_objects(&self) -> Seq<ObjectID> {
        shared_ids(self.inputs)
    }

    /// Whether the transaction declares a shared object.
    pub open spec fn contains_shared_object(&self) -> bool {
        self.shared_input_objects().len() > 0
    }
}

impl Transaction {
    /// The digest that names the transaction.
    pub fn digest(&self) -> (d: TransactionDigest)
        ensures
            d == self@.digest,
    {
        self.digest
    }

    /// Whether the sender's signature stands: it does if it has been checked
    /// against the data.
    pub fn verify_signature(&self) -> (r: Result<(), SuiError>)
        ensures
            r == if self@.is_verified {
                Ok::<(), SuiError>(())
            } else {
                Err::<(), SuiError>(SuiError::SignatureError)
            },
    {
        if self.is_verified {
            Ok(())
        } else {
            Err(SuiError::SignatureError)
        }
    }

    /// Every input object of the transaction: the declared ones, then the
    /// object that pays for gas.
    pub fn input_objects(&self) -> (r: Vec<InputObjectKind>)
        ensures
            r@ == self@.input_objects(),
    {
        let mut r = copy_vec(&self.inputs);
        r.push(InputObjectKind::ImmOrOwnedMoveObject(self.gas_payment));
        r
    }

    /// The identifiers of the shared objects that the transaction declares,
    /// in the order of declaration.
    pub fn shared_input_objects(&self) -> (r: Vec<ObjectID>)
        ensures
            r@ == self@.shared_input_objects(),
    {
        let mut r: Vec<ObjectID> = Vec::new();
        let mut i: usize = 0;
        while i < self.inputs.len()
            invariant
                i <= self.inputs@.len(),
                r@ == shared_ids(self.inputs@.subrange(0, i as int)),
            decreases self.inputs@.len() - i,
        {
            assert(self.inputs@.subrange(0, i + 1).drop_last() == self.inputs@.subrange(0, i as int));
            match self.inputs[i] {
                InputObjectKind::SharedMoveObject(id) => {
                    r.push(id);
                },
                _ => {},
            }
            i += 1;
        }
        assert(self.inputs@.subrange(0, i as int) == self.inputs@);
        r
    }

    /// Whether the transaction declares a shared object.
    pub fn contains_shared_object(&self) -> (b: bool)
        ensures
            b == self@.contains_shared_object(),
    {
        self.shared_input_objects().len() > 0
    }
}

/// A transaction with the signature of one authority: the authority's promise
/// that it has locked the owned inputs for this transaction.
#[derive(Debug, PartialEq, Eq)]
pub struct SignedTransaction {
    /// The transaction.
    pub transaction: Transaction,
    /// The epoch in which the authority signed.
    pub epoch: EpochId,
    /// The authority that signed.
    pub authority: AuthorityName,
    /// The authority's signature.
    pub signature: AuthoritySignature,
}

/// The view of a [`SignedTransaction`].
pub struct SignedTransactionView {
    pub transaction: TransactionView,
    pub epoch: EpochId,
    pub authority: AuthorityName,
    pub signature: AuthoritySignature,
}

impl View for SignedTransaction {
    type V = SignedTransactionView;

    open spec fn view(&self) -> SignedTransactionView {
        SignedTransactionView {
            transaction: self.transaction@,
            epoch: self.epoch,
            authority: self.authority,
            signature: self.signature,
        }
    }
}

impl Clone for SignedTransaction {
    fn clone(&self) -> (r: Self)
        ensures
            r@ == self@,
    {
        SignedTransaction {
            transaction: self.transaction.clone(),
            epoch: self.epoch,
            authority: self.authority,
            signature: self.signature,
        }
    }
}

impl SignedTransaction {
    /// Joins a transaction and the signature that `authority` made over it
    /// in `epoch`.
    pub fn new(
        epoch: EpochId,
        transaction: Transaction,
        authority: AuthorityName,
        signature: AuthoritySignature,
    ) -> (r: Self)
        ensures
            r@ == (SignedTransactionView { transaction: transaction@, epoch, authority, signature }),
    {
        SignedTransaction { transaction, epoch, authority, signature }
    }

    /// The digest of the signed transaction.
    pub fn digest(&self) -> (d: TransactionDigest)
        ensures
            d == self@.transaction.digest,
    {
        self.transaction.digest
    }
}

/// A transaction with the signatures of a quorum of the committee.
#[derive(Debug, PartialEq, Eq)]
pub struct CertifiedTransaction {
    /// The transaction.
    pub transaction: Transaction,
    /// The epoch of the committee that signed.
    pub epoch: EpochId,
    /// The signing authorities, each with its signature.
    pub signatures: Vec<(AuthorityName, AuthoritySignature)>,
    /// Whether each signature has been checked against the data.
    pub is_verified: bool,
}

/// The view of a [`CertifiedTransaction`].
pub struct CertifiedTransactionView {
    pub transaction: TransactionView,
    pub epoch: EpochId,
    pub signatures: Seq<(AuthorityName, AuthoritySignature)>,
    pub is_verified: bool,
}

impl View for CertifiedTransaction {
    type V = CertifiedTransactionView;

    open spec fn view(&self) -> CertifiedTransactionView {
        CertifiedTransactionView {
            transaction: self.transaction@,
            epoch: self.epoch,
            signatures: self.signatures@,
            is_verified: self.is_verified,
        }
    }
}

impl Clone for CertifiedTransaction {
    fn clone(&self) -> (r: Self)
        ensures
            r@ == self@,
    {
        CertifiedTransaction {
            transaction: self.transaction.clone(),
            epoch: self.epoch,
            signatures: copy_vec(&self.signatures),
            is_verified: self.is_verified,
        }
    }
}

impl CertifiedTransaction {
    /// The digest of the certified transaction.
    pub fn digest(&self) -> (d: TransactionDigest)
        ensures
            d == self@.transaction.digest,
    {
        self.transaction.digest
    }

    /// Whether the certified transaction declares a shared object.
    pub fn contains_shared_object(&self) -> (b: bool)
        ensures
            b == self@.transaction.contains_shared_object(),
    {
        self.transaction.contains_shared_object()
    }

    /// The identifiers of the shared objects that the certified transaction
    /// declares.
    pub fn shared_input_objects(&self) -> (r: Vec<ObjectID>)
        ensures
            r@ == self@.transaction.shared_input_objects(),
    {
        self.transaction.shared_input_objects()
    }
}

/// A request to confirm a certificate.
#[derive(Debug, PartialEq, Eq)]
pub struct ConfirmationTransaction {
    /// The certificate to execute.
    pub certificate: CertifiedTransaction,
}

impl Clone for ConfirmationTransaction {
    fn clone(&self) -> (r: Self)
        ensures
            r.certificate@ == self.certificate@,
    {
        ConfirmationTransaction { certificate: self.certificate.clone() }
    }
}

impl ConfirmationTransaction {
    /// A confirmation request for `certificate`.
    pub fn new(certificate: CertifiedTransaction) -> (r: Self)
        ensures
            r.certificate == certificate,
    {
        ConfirmationTransaction { certificate }
    }
}

/// How the execution of a transaction ended.
#[derive(Clone, Copy, Debug, PartialEq, Eq, Structural)]
pub enum ExecutionStatus {
    /// The operation took effect.
    Success,
    /// The operation failed for the given reason. Gas is charged all the same.
    Failure { reason: u64 },
}

/// What the execution of a certified transaction did.
#[derive(Debug, PartialEq, Eq)]
pub struct TransactionEffects {
    /// The transaction that was executed.
    pub transaction_digest: TransactionDigest,
    /// How the execution ended.
    pub status: ExecutionStatus,
    /// The gas that was charged.
    pub gas_used: u64,
    /// The shared objects that were read, at the versions used.
    pub shared_objects: Vec<ObjectRef>,
    /// The objects that were created, each with its owner.
    pub created: Vec<(ObjectRef, Owner)>,
    /// The objects that were mutated, at their new versions, each with its
    /// owner.
    pub mutated: Vec<(ObjectRef, Owner)>,
    /// The objects that were deleted.
    pub deleted: Vec<ObjectRef>,
    /// The transactions that produced the inputs.
    pub dependencies: Vec<TransactionDigest>,
    /// How many events the execution emitted.
    pub events: u64,
}

/// The view of [`TransactionEffects`].
pub struct TransactionEffectsView {
    pub transaction_digest: TransactionDigest,
    pub status: ExecutionStatus,
    pub gas_used: u64,
    pub shared_objects: Seq<ObjectRef>,
    pub created: Seq<(ObjectRef, Owner)>,
    pub mutated: Seq<(ObjectRef, Owner)>,
    pub deleted: Seq<ObjectRef>,
    pub dependencies: Seq<TransactionDigest>,
    pub events: u64,
}

impl View for TransactionEffects {
    type V = TransactionEffectsView;

    open spec fn view(&self) -> TransactionEffectsView {
        TransactionEffectsView {
            transaction_digest: self.transaction_digest,
            status: self.status,
            gas_used: self.gas_used,
            shared_objects: self.shared_objects@,
            created: self.created@,
            mutated: self.mutated@,
            deleted: self.deleted@,
            dependencies: self.dependencies@,
            events: self.events,
        }
    }
}

impl Clone for TransactionEffects {
    fn clone(&self) -> (r: Self)
        ensures
            r@ == self@,
    {
        TransactionEffects {
            transaction_digest: self.transaction_digest,
            status: self.status,
            gas_used: self.gas_used,
            shared_objects: copy_vec(&self.shared_objects),
            created: copy_vec(&self.created),
            mutated: copy_vec(&self.mutated),
            deleted: copy_vec(&self.deleted),
            dependencies: copy_vec(&self.dependencies),
            events: self.events,
        }
    }
}

/// Effects with the signature of the authority that computed them.
#[derive(Debug, PartialEq, Eq)]
pub struct SignedTransactionEffects {
    /// The effects.
    pub effects: TransactionEffects,
    /// The epoch in which the authority signed.
    pub epoch: EpochId,
    /// The authority that signed.
    pub authority: AuthorityName,
    /// The authority's signature.
    pub signature: AuthoritySignature,
}

/// The view of [`SignedTransactionEffects`].
pub struct SignedTransactionEffectsView {
    pub effects: TransactionEffectsView,
    pub epoch: EpochId,
    pub authority: AuthorityName,
    pub signature: AuthoritySignature,
}

impl View for SignedTransactionEffects {
    type V = SignedTransactionEffectsView;

    open spec fn view(&self) -> SignedTransactionEffectsView {
        SignedTransactionEffectsView {
            effects: self.effects@,
            epoch: self.epoch,
            authority: self.authority,
            signature: self.signature,
        }
    }
}

impl Clone for SignedTransactionEffects {
    fn clone(&self) -> (r: Self)
        ensures
            r@ == self@,
    {
        SignedTransactionEffects {
            effects: self.effects.clone(),
            epoch: self.epoch,
            authority: self.authority,
            signature: self.signature,
        }
    }
}

impl TransactionEffects {
    /// Joins the effects and the signature that `authority` made over them
    /// in `epoch`.
    pub fn to_sign_effects(
        self,
        epoch: EpochId,
        authority: AuthorityName,
        signature: AuthoritySignature,
    ) -> (r: SignedTransactionEffects)
        ensures
            r@ == (SignedTransactionEffectsView { effects: self@, epoch, authority, signature }),
    {
        SignedTransactionEffects { effects: self, epoch, authority, signature }
    }
}

/// The gas that a transaction may use.
#[derive(Clone, Copy, Debug, PartialEq, Eq, Structural)]
pub struct SuiGasStatus {
    /// The most gas that the sender is willing to pay.
    pub gas_budget: u64,
}

/// What the authority knows of one transaction.
#[derive(Debug, PartialEq, Eq)]
pub struct TransactionInfoResponse {
    /// The transaction as this authority signed it, if it did.
    pub signed_transaction: Option<SignedTransaction>,
    /// The certificate, if the authority has seen one.
    pub certified_transaction: Option<CertifiedTransaction>,
    /// The signed effects, if the certificate was executed.
    pub signed_effects: Option<SignedTransactionEffects>,
}

/// The view of a [`TransactionInfoResponse`].
pub struct TransactionInfoResponseView {
    pub signed_transaction: Option<SignedTransactionView>,
    pub certified_transaction: Option<CertifiedTransactionView>,
    pub signed_effects: Option<SignedTransactionEffectsView>,
}

impl View for TransactionInfoResponse {
    type V = TransactionInfoResponseView;

    open spec fn view(&self) -> TransactionInfoResponseView {
        TransactionInfoResponseView {
            signed_transaction: match self.signed_transaction {
                Some(t) => Some(t@),
                None => None,
            },
            certified_transaction: match self.certified_transaction {
                Some(c) => Some(c@),
                None => None,
            },
            signed_effects: match self.signed_effects {
                Some(e) => Some(e@),
                None => None,
            },
        }
    }
}

impl Clone for TransactionInfoResponse {
    fn clone(&self) -> (r: Self)
        ensures
            r@ == self@,
    {
        TransactionInfoResponse {
            signed_transaction: match &self.signed_transaction {
                Some(t) => Some(t.clone()),
                None => None,
            },
            certified_transaction: match &self.certified_transaction {
                Some(c) => Some(c.clone()),
                None => None,
            },
            signed_effects: match &self.signed_effects {
                Some(e) => Some(e.clone()),
                None => None,
            },
        }
    }
}

/// A request for what the authority knows of one transaction.
#[derive(Clone, Copy, Debug, PartialEq, Eq, Structural)]
pub struct TransactionInfoRequest {
    /// The transaction asked about.
    pub transaction_digest: TransactionDigest,
}

/// A request for the objects of one account.
#[derive(Clone, Copy, Debug, PartialEq, Eq, Structural)]
pub struct AccountInfoRequest {
    /// The account asked about.
    pub account: SuiAddress,
}

/// The objects that one account owns.
#[derive(Debug, PartialEq, Eq)]
pub struct AccountInfoResponse {
    /// The references of the owned objects.
    pub object_ids: Vec<ObjectRef>,
    /// The account.
    pub owner: SuiAddress,
}

/// Which state of an object a request asks for.
#[derive(Clone, Copy, Debug, PartialEq, Eq, Structural)]
pub enum ObjectInfoRequestKind {
    /// The latest state, and the lock on it.
    LatestObjectInfo,
    /// The state at one past version.
    PastObjectInfo(SequenceNumber),
}

/// A request for the state of one object.
#[derive(Clone, Copy, Debug, PartialEq, Eq, Structural)]
pub struct ObjectInfoRequest {
    /// The object asked about.
    pub object_id: ObjectID,
    /// Which state is asked for.
    pub request_kind: ObjectInfoRequestKind,
}

/// The latest state of an object and the transaction that holds its lock.
#[derive(Debug, PartialEq, Eq)]
pub struct ObjectResponse {
    /// The object.
    pub object: Object,
    /// The signed transaction that holds the lock on the object's current
    /// version, if any.
    pub lock: Option<SignedTransaction>,
}

/// The view of an [`ObjectResponse`].
pub struct ObjectResponseView {
    pub object: Object,
    pub lock: Option<SignedTransactionView>,
}

impl View for ObjectResponse {
    type V = ObjectResponseView;

    open spec fn view(&self) -> ObjectResponseView {
        ObjectResponseView {
            object: self.object,
            lock: match self.lock {
                Some(t) => Some(t@),
                None => None,
            },
        }
    }
}

/// The answer to an [`ObjectInfoRequest`].
#[derive(Debug, PartialEq, Eq)]
pub struct ObjectInfoResponse {
    /// The certificate that produced the requested version, unless the
    /// genesis did.
    pub parent_certificate: Option<CertifiedTransaction>,
    /// The reference of the requested version.
    pub requested_object_reference: Option<ObjectRef>,
    /// The latest state and its lock, when the latest state was asked for.
    pub object_and_lock: Option<ObjectResponse>,
}

/// The view of an [`ObjectInfoResponse`].
pub struct ObjectInfoResponseView {
    pub parent_certificate: Option<CertifiedTransactionView>,
    pub requested_object_reference: Option<ObjectRef>,
    pub object_and_lock: Option<ObjectResponseView>,
}

impl View for ObjectInfoResponse {
    type V = ObjectInfoResponseView;

    open spec fn view(&self) -> ObjectInfoResponseView {
        ObjectInfoResponseView {
            parent_certificate: match self.parent_certificate {
                Some(c) => Some(c@),
                None => None,
            },
            requested_object_reference: self.requested_object_reference,
            object_and_lock: match self.object_and_lock {
                Some(o) => Some(o@),
                None => None,
            },
        }
    }
}

/// A request for a range of the executed log.
#[derive(Clone, Copy, Debug, PartialEq, Eq)]
pub struct BatchInfoRequest {
    /// The first sequence number asked for. Without it the range starts
    /// where the last sealed batch ends.
    pub start: Option<TxSequenceNumber>,
    /// How many sequence numbers are asked for.
    pub length: u64,
}

} // verus!

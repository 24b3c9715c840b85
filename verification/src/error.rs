//! The errors of the authority.

use vstd::prelude::*;
use crate::base_types::{ObjectDigest, ObjectID, SequenceNumber, TransactionDigest};
use crate::messages::{SignedTransaction, SignedTransactionView};

verus! {

/// Why the authority refused a request. A refused request changes nothing
/// in the authority's store.
#[derive(Debug, PartialEq, Eq)]
pub enum SuiError {
    /// The sender's signature, or the quorum of a certificate, is missing or
    /// wrong.
    SignatureError,
    /// An owned input is locked by another transaction, which is returned
    /// as evidence.
    ConflictingTransaction { pending_transaction: SignedTransaction },
    /// Consensus has not yet assigned a version to a shared input of the
    /// certificate.
    SharedObjectLockNotSetObject,
    /// An input is presented at a version other than the expected one.
    UnexpectedSequenceNumber {
        object_id: ObjectID,
        expected_sequence: SequenceNumber,
        given_sequence: SequenceNumber,
    },
    /// The certificate that produced an object is not in the store.
    CertificateNotfound { certificate_digest: TransactionDigest },
    /// A request for an empty range of the log, or for one that runs past
    /// the last sequence number there is.
    InvalidSequenceRangeError,
    /// A request for more items of the log than the given ceiling.
    TooManyItemsError(u64),
    /// An input object is not in the store.
    ObjectNotFound { object_id: ObjectID },
    /// An input is presented with a digest other than the stored one.
    InvalidObjectDigest { object_id: ObjectID, expected_digest: ObjectDigest },
    /// An owned input belongs to another address than the sender.
    IncorrectSigner,
    /// An input declared as shared is not shared, or one declared as owned
    /// or immutable is shared.
    NotSharedObjectError,
    /// An input declared as a package can still be mutated.
    MoveObjectAsPackage { object_id: ObjectID },
    /// The object that pays for gas holds less than the budget.
    InsufficientGas { balance: u64, budget: u64 },
    /// A version number can grow no further.
    InvalidSequenceNumber,
    /// The notifier is closed, or has no ticket left to issue.
    ClosedNotifierError,
    /// The queue of certificates from consensus is full.
    ListenerCapacityExceeded,
    /// A digest is not the digest of what it comes with, or is not of the
    /// length of a digest.
    InvalidTransactionDigest,
    /// Effects are signed under another name than this authority's.
    UnknownSigner,
    /// Effects are signed in another epoch than the committee's.
    WrongEpoch,
    /// A text is not the hexadecimal form of an object identifier.
    ObjectIDParseError,
    /// A text is not Base64.
    Base64Error,
    /// A range of object identifiers runs past the last identifier there
    /// is.
    ObjectIDRangeError,
    /// A batch cannot be made: it would hold no transaction, or end past the
    /// last sequence number there is. Or a batch cannot be stored: it does
    /// not continue the log from the last stored batch.
    GenericAuthorityError,
    /// The store holds no batch that ends at or before the start of the
    /// range asked for.
    NoBatchesFoundError,
    /// The stream of live updates has ended.
    SubscriptionServiceClosed,
    /// The subscriber was too slow: so many live updates were dropped.
    SubscriptionItemsDroppedError(u64),
}

/// The view of a [`SuiError`].
pub enum SuiErrorView {
    SignatureError,
    ConflictingTransaction { pending_transaction: SignedTransactionView },
    SharedObjectLockNotSetObject,
    UnexpectedSequenceNumber {
        object_id: ObjectID,
        expected_sequence: SequenceNumber,
        given_sequence: SequenceNumber,
    },
    CertificateNotfound { certificate_digest: TransactionDigest },
    InvalidSequenceRangeError,
    TooManyItemsError(u64),
    ObjectNotFound { object_id: ObjectID },
    InvalidObjectDigest { object_id: ObjectID, expected_digest: ObjectDigest },
    IncorrectSigner,
    NotSharedObjectError,
    MoveObjectAsPackage { object_id: ObjectID },
    InsufficientGas { balance: u64, budget: u64 },
    InvalidSequenceNumber,
    ClosedNotifierError,
    ListenerCapacityExceeded,
    InvalidTransactionDigest,
    UnknownSigner,
    WrongEpoch,
    ObjectIDParseError,
    Base64Error,
    ObjectIDRangeError,
    GenericAuthorityError,
    NoBatchesFoundError,
    SubscriptionServiceClosed,
    SubscriptionItemsDroppedError(u64),
}

impl View for SuiError {
    type V = SuiErrorView;

    open spec fn view(&self) -> SuiErrorView {
        match self {
            SuiError::SignatureError => SuiErrorView::SignatureError,
            SuiError::ConflictingTransaction { pending_transaction } => SuiErrorView::ConflictingTransaction {
                pending_transaction: pending_transaction@,
            },
            SuiError::SharedObjectLockNotSetObject => SuiErrorView::SharedObjectLockNotSetObject,
            SuiError::UnexpectedSequenceNumber { object_id, expected_sequence, given_sequence } => {
                SuiErrorView::UnexpectedSequenceNumber {
                    object_id: *object_id,
                    expected_sequence: *expected_sequence,
                    given_sequence: *given_sequence,
                }
            },
            SuiError::CertificateNotfound { certificate_digest } => SuiErrorView::CertificateNotfound {
                certificate_digest: *certificate_digest,
            },
            SuiError::InvalidSequenceRangeError => SuiErrorView::InvalidSequenceRangeError,
            SuiError::TooManyItemsError(n) => SuiErrorView::TooManyItemsError(*n),
            SuiError::ObjectNotFound { object_id } => SuiErrorView::ObjectNotFound { object_id: *object_id },
            SuiError::InvalidObjectDigest { object_id, expected_digest } => SuiErrorView::InvalidObjectDigest {
                object_id: *object_id,
                expected_digest: *expected_digest,
            },
            SuiError::IncorrectSigner => SuiErrorView::IncorrectSigner,
            SuiError::NotSharedObjectError => SuiErrorView::NotSharedObjectError,
            SuiError::MoveObjectAsPackage { object_id } => SuiErrorView::MoveObjectAsPackage {
                object_id: *object_id,
            },
            SuiError::InsufficientGas { balance, budget } => SuiErrorView::InsufficientGas {
                balance: *balance,
                budget: *budget,
            },
            SuiError::InvalidSequenceNumber => SuiErrorView::InvalidSequenceNumber,
            SuiError::ClosedNotifierError => SuiErrorView::ClosedNotifierError,
            SuiError::ListenerCapacityExceeded => SuiErrorView::ListenerCapacityExceeded,
            SuiError::InvalidTransactionDigest => SuiErrorView::InvalidTransactionDigest,
            SuiError::UnknownSigner => SuiErrorView::UnknownSigner,
            SuiError::WrongEpoch => SuiErrorView::WrongEpoch,
            SuiError::ObjectIDParseError => SuiErrorView::ObjectIDParseError,
            SuiError::Base64Error => SuiErrorView::Base64Error,
            SuiError::ObjectIDRangeError => SuiErrorView::ObjectIDRangeError,
            SuiError::GenericAuthorityError => SuiErrorView::GenericAuthorityError,
            SuiError::NoBatchesFoundError => SuiErrorView::NoBatchesFoundError,
            SuiError::SubscriptionServiceClosed => SuiErrorView::SubscriptionServiceClosed,
            SuiError::SubscriptionItemsDroppedError(n) => SuiErrorView::SubscriptionItemsDroppedError(*n),
        }
    }
}

/// The result of a request to the authority.
pub type SuiResult<T = ()> = Result<T, SuiError>;

} // verus!

//! The server of an authority: what stands between the network and the
//! state.
//!
//! The server takes in what the transport has decoded and what the check of
//! the signatures has found, and hands the state only messages whose
//! signatures have been checked. A message with a bad signature is refused
//! as a bad argument and never reaches the state.

use vstd::prelude::*;
use crate::authority::{AuthorityState, ConfirmationStep, ConfirmationStepView};
use crate::base_types::AuthoritySignature;
use crate::error::{SuiError, SuiErrorView};
use crate::messages::{
    CertifiedTransaction, CertifiedTransactionView, ConfirmationTransaction, Transaction,
    TransactionInfoResponse, TransactionInfoResponseView, TransactionView,
};

verus! {

/// A batch is sealed as soon as it holds this many transactions.
pub const MIN_BATCH_SIZE: u64 = 1000;

/// A batch is sealed at the latest this many milliseconds after the one
/// before it.
pub const MAX_DELAY_MILLIS: u64 = 5_000;

/// Why the server refused a request.
#[derive(Debug, PartialEq, Eq)]
pub enum Status {
    /// The request is malformed: a signature in it is wrong.
    InvalidArgument(SuiError),
    /// The state refused the request.
    Internal(SuiError),
}

/// The view of a [`Status`].
pub enum StatusView {
    InvalidArgument(SuiErrorView),
    Internal(SuiErrorView),
}

impl View for Status {
    type V = StatusView;

    open spec fn view(&self) -> StatusView {
        match self {
            Status::InvalidArgument(e) => StatusView::InvalidArgument(e@),
            Status::Internal(e) => StatusView::Internal(e@),
        }
    }
}

/// The transaction with the mark that its signature has been checked.
pub open spec fn verified_transaction(transaction: TransactionView) -> TransactionView {
    TransactionView { is_verified: true, ..transaction }
}

/// The certificate with the mark that its signatures have been checked.
pub open spec fn verified_certificate(certificate: CertifiedTransactionView) -> CertifiedTransactionView {
    CertifiedTransactionView { is_verified: true, ..certificate }
}

/// The settings of the server of one authority.
#[derive(Clone, Copy, Debug, PartialEq, Eq, Structural)]
pub struct AuthorityServer {
    /// A batch is sealed as soon as it holds this many transactions.
    pub min_batch_size: u64,
    /// A batch is sealed at the latest this many milliseconds after the one
    /// before it.
    pub max_delay_millis: u64,
}

impl AuthorityServer {
    /// A server with the usual batch size and delay.
    pub fn new() -> (r: Self)
        ensures
            r == (AuthorityServer { min_batch_size: MIN_BATCH_SIZE, max_delay_millis: MAX_DELAY_MILLIS }),
    {
        AuthorityServer { min_batch_size: MIN_BATCH_SIZE, max_delay_millis: MAX_DELAY_MILLIS }
    }

    /// Takes in a transaction from the network, with what the check of the
    /// sender's signature found and with the signature that this authority
    /// makes over the transaction.
    pub fn transaction(
        &self,
        state: &mut AuthorityState,
        transaction: Transaction,
        signature_is_valid: bool,
        authority_signature: AuthoritySignature,
    ) -> (r: Result<TransactionInfoResponse, Status>)
        requires
            old(state).wf(),
        ensures
            final(state).wf(),
            if !signature_is_valid {
                &&& r matches Err(status)
                &&& status@ == StatusView::InvalidArgument(SuiErrorView::SignatureError)
                &&& final(state)@ == old(state)@
            } else {
                let (answer, after) = old(state)@.handle_transaction(
                    verified_transaction(transaction@),
                    authority_signature,
                );
                &&& final(state)@ == after
                &&& match r {
                    Ok(response) => answer == Ok::<TransactionInfoResponseView, SuiErrorView>(response@),
                    Err(status) => answer matches Err(e) && status@ == StatusView::Internal(e),
                }
            },
    {
        if !signature_is_valid {
            return Err(Status::InvalidArgument(SuiError::SignatureError));
        }
        let mut transaction = transaction;
        transaction.is_verified = true;
        match state.handle_transaction(transaction, authority_signature) {
            Ok(response) => Ok(response),
            Err(e) => Err(Status::Internal(e)),
        }
    }

    /// Takes in a certificate from the network, with what the check of its
    /// signatures found.
    pub fn confirmation_transaction(
        &self,
        state: &mut AuthorityState,
        certificate: CertifiedTransaction,
        signatures_are_valid: bool,
    ) -> (r: Result<ConfirmationStep, Status>)
        requires
            old(state).wf(),
        ensures
            final(state).wf(),
            if !signatures_are_valid {
                &&& r matches Err(status)
                &&& status@ == StatusView::InvalidArgument(SuiErrorView::SignatureError)
                &&& final(state)@ == old(state)@
            } else {
                let (answer, after) = old(state)@.handle_confirmation_transaction(
                    verified_certificate(certificate@),
                );
                &&& final(state)@ == after
                &&& match r {
                    Ok(step) => answer == Ok::<ConfirmationStepView, SuiErrorView>(step@),
                    Err(status) => answer matches Err(e) && status@ == StatusView::Internal(e),
                }
            },
    {
        if !signatures_are_valid {
            return Err(Status::InvalidArgument(SuiError::SignatureError));
        }
        let mut certificate = certificate;
        certificate.is_verified = true;
        let confirmation_transaction = ConfirmationTransaction { certificate };
        match state.handle_confirmation_transaction(confirmation_transaction) {
            Ok(step) => Ok(step),
            Err(e) => Err(Status::Internal(e)),
        }
    }
}

} // verus!

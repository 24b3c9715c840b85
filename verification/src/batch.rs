//! Batches: sealed, signed runs of the executed log, each linked to the one
//! before.

use vstd::prelude::*;
use crate::base_types::{
    AuthorityName, AuthoritySignature, BatchDigest, TransactionDigest, TxSequenceNumber,
};
use crate::error::SuiError;
use crate::messages::copy_vec;

verus! {

/// A run of the executed log.
#[derive(Debug, PartialEq, Eq)]
pub struct AuthorityBatch {
    /// The sequence number after the last transaction of the batch.
    pub next_sequence_number: TxSequenceNumber,
    /// The sequence number of the first transaction of the batch.
    pub initial_sequence_number: TxSequenceNumber,
    /// How many transactions the batch holds.
    pub size: u64,
    /// The digest of the batch before this one. The first batch has none.
    pub previous_digest: Option<BatchDigest>,
    /// The transactions of the batch, each with its sequence number.
    pub transactions: Vec<(TxSequenceNumber, TransactionDigest)>,
    /// The digest of this batch.
    pub digest: BatchDigest,
}

/// The view of an [`AuthorityBatch`].
pub struct AuthorityBatchView {
    pub next_sequence_number: TxSequenceNumber,
    pub initial_sequence_number: TxSequenceNumber,
    pub size: u64,
    pub previous_digest: Option<BatchDigest>,
    pub transactions: Seq<(TxSequenceNumber, TransactionDigest)>,
    pub digest: BatchDigest,
}

impl View for AuthorityBatch {
    type V = AuthorityBatchView;

    open spec fn view(&self) -> AuthorityBatchView {
        AuthorityBatchView {
            next_sequence_number: self.next_sequence_number,
            initial_sequence_number: self.initial_sequence_number,
            size: self.size,
            previous_digest: self.previous_digest,
            transactions: self.transactions@,
            digest: self.digest,
        }
    }
}

impl Clone for AuthorityBatch {
    fn clone(&self) -> (r: Self)
        ensures
            r@ == self@,
    {
        AuthorityBatch {
            next_sequence_number: self.next_sequence_number,
            initial_sequence_number: self.initial_sequence_number,
            size: self.size,
            previous_digest: self.previous_digest,
            transactions: copy_vec(&self.transactions),
            digest: self.digest,
        }
    }
}

impl AuthorityBatchView {
    /// The batch with which every log starts: it holds nothing.
    pub open spec fn initial(digest: BatchDigest) -> AuthorityBatchView {
        AuthorityBatchView {
            next_sequence_number: 0,
            initial_sequence_number: 0,
            size: 0,
            previous_digest: None,
            transactions: Seq::empty(),
            digest,
        }
    }

    /// The batch of `transactions` that follows `previous`.
    pub open spec fn make_next(
        previous: AuthorityBatchView,
        transactions: Seq<(TxSequenceNumber, TransactionDigest)>,
        digest: BatchDigest,
    ) -> AuthorityBatchView {
        AuthorityBatchView {
            next_sequence_number: (transactions.last().0 + 1) as TxSequenceNumber,
            initial_sequence_number: transactions.first().0,
            size: transactions.len() as u64,
            previous_digest: Some(previous.digest),
            transactions,
            digest,
        }
    }
}

impl AuthorityBatch {
    /// The batch with which every log starts. It holds nothing and has the
    /// given digest.
    pub fn initial(digest: BatchDigest) -> (r: AuthorityBatch)
        ensures
            r@ == AuthorityBatchView::initial(digest),
    {
        AuthorityBatch {
            next_sequence_number: 0,
            initial_sequence_number: 0,
            size: 0,
            previous_digest: None,
            transactions: Vec::new(),
            digest,
        }
    }

    /// The batch of `transactions` that follows `previous_batch`, with the
    /// given digest. There is none of no transactions, nor one whose last
    /// sequence number is the largest there is.
    pub fn make_next(
        previous_batch: &AuthorityBatch,
        transactions: &Vec<(TxSequenceNumber, TransactionDigest)>,
        digest: BatchDigest,
    ) -> (r: Result<AuthorityBatch, SuiError>)
        ensures
            match r {
                Ok(b) => {
                    &&& transactions@.len() > 0
                    &&& transactions@.last().0 < u64::MAX
                    &&& transactions@.len() <= u64::MAX
                    &&& b@ == AuthorityBatchView::make_next(previous_batch@, transactions@, digest)
                },
                Err(e) => {
                    &&& e == SuiError::GenericAuthorityError
                    &&& (transactions@.len() == 0 || transactions@.last().0 == u64::MAX
                        || transactions@.len() > u64::MAX)
                },
            },
    {
        let n = transactions.len();
        if n == 0 || n as u128 > u64::MAX as u128 {
            return Err(SuiError::GenericAuthorityError);
        }
        let last = transactions[n - 1].0;
        if last == u64::MAX {
            return Err(SuiError::GenericAuthorityError);
        }
        Ok(
            AuthorityBatch {
                next_sequence_number: last + 1,
                initial_sequence_number: transactions[0].0,
                size: n as u64,
                previous_digest: Some(previous_batch.digest),
                transactions: copy_vec(transactions),
                digest,
            },
        )
    }
}

/// A batch with the signature of the authority that sealed it.
#[derive(Debug, PartialEq, Eq)]
pub struct SignedBatch {
    /// The batch.
    pub batch: AuthorityBatch,
    /// The authority that sealed it.
    pub authority: AuthorityName,
    /// The authority's signature.
    pub signature: AuthoritySignature,
}

/// The view of a [`SignedBatch`].
pub struct SignedBatchView {
    pub batch: AuthorityBatchView,
    pub authority: AuthorityName,
    pub signature: AuthoritySignature,
}

impl View for SignedBatch {
    type V = SignedBatchView;

    open spec fn view(&self) -> SignedBatchView {
        SignedBatchView { batch: self.batch@, authority: self.authority, signature: self.signature }
    }
}

impl Clone for SignedBatch {
    fn clone(&self) -> (r: Self)
        ensures
            r@ == self@,
    {
        SignedBatch {
            batch: self.batch.clone(),
            authority: self.authority,
            signature: self.signature,
        }
    }
}

impl SignedBatch {
    /// Joins a batch and the signature that `authority` made over it.
    pub fn new(batch: AuthorityBatch, signature: AuthoritySignature, authority: AuthorityName) -> (r:
        Self)
        ensures
            r@ == (SignedBatchView { batch: batch@, authority, signature }),
    {
        SignedBatch { batch, authority, signature }
    }
}

/// The views of a list of signed batches.
pub open spec fn batch_views(batches: Seq<SignedBatch>) -> Seq<SignedBatchView> {
    batches.map_values(|b: SignedBatch| b@)
}

/// One item of the stream of updates: an executed transaction or a sealed
/// batch.
#[derive(Debug, PartialEq, Eq)]
pub enum UpdateItem {
    /// A transaction and its place in the log.
    Transaction((TxSequenceNumber, TransactionDigest)),
    /// A sealed batch.
    Batch(SignedBatch),
}

/// The view of an [`UpdateItem`].
pub enum UpdateItemView {
    Transaction((TxSequenceNumber, TransactionDigest)),
    Batch(SignedBatchView),
}

impl View for UpdateItem {
    type V = UpdateItemView;

    open spec fn view(&self) -> UpdateItemView {
        match self {
            UpdateItem::Transaction(t) => UpdateItemView::Transaction(*t),
            UpdateItem::Batch(b) => UpdateItemView::Batch(b@),
        }
    }
}

/// The views of a list of updates.
pub open spec fn item_views(items: Seq<UpdateItem>) -> Seq<UpdateItemView> {
    items.map_values(|i: UpdateItem| i@)
}

impl Clone for UpdateItem {
    fn clone(&self) -> (r: Self)
        ensures
            r@ == self@,
    {
        match self {
            UpdateItem::Transaction(t) => UpdateItem::Transaction(*t),
            UpdateItem::Batch(b) => UpdateItem::Batch(b.clone()),
        }
    }
}

/// One item of the answer to a request for the stream of updates.
#[derive(Debug, PartialEq, Eq)]
pub struct BatchInfoResponseItem(pub UpdateItem);

} // verus!

//! The bridge from the consensus output to the authority.
//!
//! Consensus delivers certificates in a total order, each with the index of
//! the output after it. The listener holds them in a bounded queue and feeds
//! them, one at a time and in the order of delivery, to the authority. The
//! bound is the back-pressure contract: when the queue is full the transport
//! must slow down.

use std::collections::VecDeque;
use vstd::prelude::*;
use crate::authority::AuthorityState;
use crate::base_types::ExecutionIndices;
use crate::error::{SuiError, SuiErrorView};
use crate::messages::{CertifiedTransaction, CertifiedTransactionView};

verus! {

/// The most certificates that may wait for the authority.
pub const MAX_PENDING_CONSENSUS_TRANSACTIONS: usize = 1_000_000;

/// One delivery of consensus: a certificate and the index of the output
/// after it.
#[derive(Debug, PartialEq, Eq)]
pub struct ConsensusOutput {
    /// The certificate.
    pub certificate: CertifiedTransaction,
    /// The index of the consensus output after the certificate.
    pub consensus_index: ExecutionIndices,
}

/// The view of a [`ConsensusOutput`].
pub struct ConsensusOutputView {
    pub certificate: CertifiedTransactionView,
    pub consensus_index: ExecutionIndices,
}

impl View for ConsensusOutput {
    type V = ConsensusOutputView;

    open spec fn view(&self) -> ConsensusOutputView {
        ConsensusOutputView { certificate: self.certificate@, consensus_index: self.consensus_index }
    }
}

/// The views of the deliveries of a queue.
pub open spec fn output_views(queue: Seq<ConsensusOutput>) -> Seq<ConsensusOutputView> {
    queue.map_values(|o: ConsensusOutput| o@)
}

/// The view of a [`ConsensusListener`].
pub struct ConsensusListenerView {
    /// The deliveries that wait, the oldest first.
    pub pending: Seq<ConsensusOutputView>,
    /// The most deliveries that may wait.
    pub max_pending_transactions: usize,
}

/// The queue between the consensus transport and the authority.
#[derive(Debug)]
pub struct ConsensusListener {
    pending: VecDeque<ConsensusOutput>,
    max_pending_transactions: usize,
}

impl View for ConsensusListener {
    type V = ConsensusListenerView;

    closed spec fn view(&self) -> ConsensusListenerView {
        ConsensusListenerView {
            pending: output_views(self.pending@),
            max_pending_transactions: self.max_pending_transactions,
        }
    }
}

impl ConsensusListener {
    /// The listener's invariant: no more deliveries wait than may.
    pub closed spec fn wf(&self) -> bool {
        self.pending@.len() <= self.max_pending_transactions
    }

    /// An empty queue that holds up to `max_pending_transactions`
    /// deliveries.
    pub fn new(max_pending_transactions: usize) -> (r: Self)
        ensures
            r.wf(),
            r@ == (ConsensusListenerView { pending: Seq::empty(), max_pending_transactions }),
    {
        let r = ConsensusListener { pending: VecDeque::new(), max_pending_transactions };
        assert(output_views(r.pending@) == Seq::<ConsensusOutputView>::empty());
        r
    }

    /// How many deliveries wait.
    pub fn len(&self) -> (n: usize)
        ensures
            n == self@.pending.len(),
    {
        self.pending.len()
    }

    /// Takes in a delivery of consensus. It is refused when the queue is
    /// full.
    pub fn submit(&mut self, output: ConsensusOutput) -> (r: Result<(), SuiError>)
        requires
            old(self).wf(),
        ensures
            final(self).wf(),
            if old(self)@.pending.len() < old(self)@.max_pending_transactions {
                &&& r is Ok
                &&& final(self)@ == (ConsensusListenerView {
                    pending: old(self)@.pending.push(output@),
                    ..old(self)@
                })
            } else {
                &&& r == Err::<(), SuiError>(SuiError::ListenerCapacityExceeded)
                &&& final(self)@ == old(self)@
            },
    {
        if self.pending.len() >= self.max_pending_transactions {
            return Err(SuiError::ListenerCapacityExceeded);
        }
        let ghost before = self.pending@;
        let ghost view = output@;
        self.pending.push_back(output);
        assert(output_views(self.pending@) == output_views(before).push(view));
        Ok(())
    }

    /// Takes the oldest delivery that waits out of the queue, if one
    /// waits.
    pub fn take_next(&mut self) -> (r: Option<ConsensusOutput>)
        requires
            old(self).wf(),
        ensures
            final(self).wf(),
            match r {
                Some(output) => {
                    &&& old(self)@.pending.len() > 0
                    &&& output@ == old(self)@.pending[0]
                    &&& final(self)@ == (ConsensusListenerView {
                        pending: old(self)@.pending.skip(1),
                        ..old(self)@
                    })
                },
                None => old(self)@.pending.len() == 0 && final(self)@ == old(self)@,
            },
    {
        let ghost before = self.pending@;
        match self.pending.pop_front() {
            None => None,
            Some(output) => {
                assert(output_views(self.pending@) == output_views(before).skip(1));
                assert(output_views(before)[0] == output@);
                Some(output)
            },
        }
    }

    /// Feeds the oldest delivery that waits to the authority. Answers with
    /// nothing when none waits, else with what the authority answered.
    pub fn forward_next(&mut self, state: &mut AuthorityState) -> (r: Option<Result<(), SuiError>>)
        requires
            old(self).wf(),
            old(state).wf(),
        ensures
            final(self).wf(),
            final(state).wf(),
            if old(self)@.pending.len() == 0 {
                &&& r is None
                &&& final(self)@ == old(self)@
                &&& final(state)@ == old(state)@
            } else {
                let first = old(self)@.pending[0];
                let (answer, after) = old(state)@.handle_consensus_certificate(
                    first.certificate,
                    first.consensus_index,
                );
                &&& r matches Some(given)
                &&& match given {
                    Ok(_) => answer is Ok,
                    Err(e) => answer == Err::<(), SuiErrorView>(e@),
                }
                &&& final(state)@ == after
                &&& final(self)@ == (ConsensusListenerView {
                    pending: old(self)@.pending.skip(1),
                    ..old(self)@
                })
            },
    {
        match self.take_next() {
            None => None,
            Some(output) => Some(
                state.handle_consensus_certificate(output.certificate, output.consensus_index),
            ),
        }
    }
}

} // verus!

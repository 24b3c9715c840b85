//! The ticketing engine that puts commit completions in order.
//!
//! A commit takes a ticket before it mutates the store and resolves the
//! ticket once the mutation is done. Commits may finish in any order. A
//! resolved ticket is released to the log only when every lower ticket has
//! been released, so the log has every sequence number once, in order.

use vstd::prelude::*;
use crate::base_types::{TransactionDigest, TxSequenceNumber};
use crate::error::SuiError;

verus! {

/// The view of a [`TransactionNotifier`].
pub struct NotifierView {
    /// Every ticket below this one has been released.
    pub low_watermark: TxSequenceNumber,
    /// The tickets from the low watermark on, in order: the digest of a
    /// resolved one, nothing for one that is still outstanding.
    pub slots: Seq<Option<TransactionDigest>>,
    /// Whether the notifier issues no more tickets.
    pub is_closed: bool,
}

/// How many slots at the front of `slots` are resolved.
pub open spec fn ready_len(slots: Seq<Option<TransactionDigest>>) -> nat
    decreases slots.len(),
{
    if slots.len() > 0 && slots[0] is Some {
        1 + ready_len(slots.skip(1))
    } else {
        0
    }
}

impl NotifierView {
    /// The next ticket to issue.
    pub open spec fn high_watermark(&self) -> int {
        self.low_watermark + self.slots.len()
    }

    /// The notifier's invariant: the ticket at the low watermark, if it has
    /// been issued, is outstanding.
    pub open spec fn inv(&self) -> bool {
        &&& self.high_watermark() <= u64::MAX
        &&& self.slots.len() > 0 ==> self.slots[0] is None
    }

    /// Whether ticket `seq` has been issued and not yet resolved.
    pub open spec fn is_live(&self, seq: TxSequenceNumber) -> bool {
        &&& self.low_watermark <= seq < self.high_watermark()
        &&& self.slots[seq - self.low_watermark] is None
    }

    /// Whether a ticket can be issued.
    pub open spec fn can_issue(&self) -> bool {
        !self.is_closed && self.high_watermark() < u64::MAX
    }

    /// The notifier after it has issued a ticket.
    pub open spec fn issue(self) -> NotifierView {
        NotifierView { slots: self.slots.push(None), ..self }
    }

    /// The slots after ticket `seq` has been resolved with `digest`.
    pub open spec fn marked(self, seq: TxSequenceNumber, digest: TransactionDigest) -> Seq<
        Option<TransactionDigest>,
    > {
        self.slots.update(seq - self.low_watermark, Some(digest))
    }

    /// The entries that resolving ticket `seq` with `digest` releases to the
    /// log: the resolved tickets from the low watermark up to the first
    /// outstanding one. None if `seq` is not outstanding.
    pub open spec fn released(self, seq: TxSequenceNumber, digest: TransactionDigest) -> Seq<
        (TxSequenceNumber, TransactionDigest),
    > {
        if self.is_live(seq) {
            let marked = self.marked(seq, digest);
            Seq::new(
                ready_len(marked),
                |i: int| ((self.low_watermark + i) as TxSequenceNumber, marked[i]->0),
            )
        } else {
            Seq::empty()
        }
    }

    /// The notifier after ticket `seq` has been resolved with `digest`.
    /// Nothing changes if `seq` is not outstanding.
    pub open spec fn resolve(self, seq: TxSequenceNumber, digest: TransactionDigest) -> NotifierView {
        if self.is_live(seq) {
            let marked = self.marked(seq, digest);
            let n = ready_len(marked);
            NotifierView {
                low_watermark: (self.low_watermark + n) as TxSequenceNumber,
                slots: marked.skip(n as int),
                ..self
            }
        } else {
            self
        }
    }
}

/// `ready_len` is the index of the first outstanding slot.
pub proof fn lemma_ready_len(slots: Seq<Option<TransactionDigest>>, n: int)
    requires
        0 <= n <= slots.len(),
        forall|k: int| 0 <= k < n ==> slots[k] is Some,
        n < slots.len() ==> slots[n] is None,
    ensures
        ready_len(slots) == n,
    decreases n,
{
    if n > 0 {
        lemma_ready_len(slots.skip(1), n - 1);
    }
}

/// The front of the slots up to `ready_len` is resolved, and the slot after
/// it, if there is one, is outstanding.
pub proof fn lemma_ready_len_bounds(slots: Seq<Option<TransactionDigest>>)
    ensures
        ready_len(slots) <= slots.len(),
        forall|k: int| 0 <= k < ready_len(slots) ==> slots[k] is Some,
        ready_len(slots) < slots.len() ==> slots[ready_len(slots) as int] is None,
    decreases slots.len(),
{
    if slots.len() > 0 && slots[0] is Some {
        let rest = slots.skip(1);
        lemma_ready_len_bounds(rest);
        assert forall|k: int| 0 <= k < ready_len(slots) implies slots[k] is Some by {
            if k > 0 {
                assert(rest[k - 1] is Some);
            }
        }
        if ready_len(slots) < slots.len() {
            assert(rest[ready_len(rest) as int] is None);
        }
    }
}

/// A ticket: the right to resolve one sequence number.
#[derive(Debug)]
pub struct TransactionNotifierTicket {
    seq: TxSequenceNumber,
}

impl TransactionNotifierTicket {
    /// The sequence number of the ticket.
    pub closed spec fn spec_seq(&self) -> TxSequenceNumber {
        self.seq
    }

    /// The sequence number of the ticket.
    pub fn seq(&self) -> (s: TxSequenceNumber)
        ensures
            s == self.spec_seq(),
    {
        self.seq
    }
}

/// The ticketing engine of one authority.
#[derive(Debug)]
pub struct TransactionNotifier {
    low_watermark: TxSequenceNumber,
    slots: Vec<Option<TransactionDigest>>,
    is_closed: bool,
}

impl View for TransactionNotifier {
    type V = NotifierView;

    closed spec fn view(&self) -> NotifierView {
        NotifierView {
            low_watermark: self.low_watermark,
            slots: self.slots@,
            is_closed: self.is_closed,
        }
    }
}

impl TransactionNotifier {
    /// A notifier whose first ticket is `next_sequence_number`.
    pub fn new(next_sequence_number: TxSequenceNumber) -> (r: Self)
        ensures
            r@.inv(),
            r@ == (NotifierView {
                low_watermark: next_sequence_number,
                slots: Seq::empty(),
                is_closed: false,
            }),
    {
        TransactionNotifier { low_watermark: next_sequence_number, slots: Vec::new(), is_closed: false }
    }

    /// The sequence number below which every ticket has been released.
    pub fn low_watermark(&self) -> (s: TxSequenceNumber)
        ensures
            s == self@.low_watermark,
    {
        self.low_watermark
    }

    /// The next ticket to issue.
    pub fn high_watermark(&self) -> (s: TxSequenceNumber)
        requires
            self@.inv(),
        ensures
            s == self@.high_watermark(),
    {
        self.low_watermark + self.slots.len() as u64
    }

    /// Stops the issue of tickets. Outstanding tickets can still be resolved.
    pub fn close(&mut self)
        ensures
            final(self)@ == (NotifierView { is_closed: true, ..old(self)@ }),
    {
        self.is_closed = true;
    }

    /// Issues the next ticket. Fails when the notifier is closed or the
    /// sequence numbers are used up.
    pub fn ticket(&mut self) -> (r: Result<TransactionNotifierTicket, SuiError>)
        requires
            old(self)@.inv(),
        ensures
            final(self)@.inv(),
            match r {
                Ok(t) => {
                    &&& old(self)@.can_issue()
                    &&& t.spec_seq() == old(self)@.high_watermark()
                    &&& final(self)@ == old(self)@.issue()
                    &&& final(self)@.is_live(t.spec_seq())
                },
                Err(e) => {
                    &&& !old(self)@.can_issue()
                    &&& e == SuiError::ClosedNotifierError
                    &&& final(self)@ == old(self)@
                },
            },
    {
        if self.is_closed {
            return Err(SuiError::ClosedNotifierError);
        }
        let len = self.slots.len() as u64;
        if len >= u64::MAX - self.low_watermark {
            return Err(SuiError::ClosedNotifierError);
        }
        let seq = self.low_watermark + len;
        self.slots.push(None);
        Ok(TransactionNotifierTicket { seq })
    }

    /// Whether ticket `seq` has been issued and not yet resolved.
    pub fn is_live(&self, seq: TxSequenceNumber) -> (b: bool)
        requires
            self@.inv(),
        ensures
            b == self@.is_live(seq),
    {
        if seq < self.low_watermark {
            return false;
        }
        let offset = seq - self.low_watermark;
        if offset >= self.slots.len() as u64 {
            return false;
        }
        self.slots[offset as usize].is_none()
    }

    /// Resolves a ticket with the digest of the transaction that was
    /// committed under it, and returns the entries that become visible: the
    /// resolved tickets from the low watermark up to the first outstanding
    /// one, in order. A ticket that is not outstanding here changes nothing.
    pub fn resolve(&mut self, ticket: TransactionNotifierTicket, digest: TransactionDigest) -> (r: Vec<
        (TxSequenceNumber, TransactionDigest),
    >)
        requires
            old(self)@.inv(),
        ensures
            final(self)@.inv(),
            final(self)@ == old(self)@.resolve(ticket.spec_seq(), digest),
            r@ == old(self)@.released(ticket.spec_seq(), digest),
    {
        let seq = ticket.seq;
        let mut released: Vec<(TxSequenceNumber, TransactionDigest)> = Vec::new();
        if !self.is_live(seq) {
            return released;
        }
        let offset = (seq - self.low_watermark) as usize;
        self.slots[offset] = Some(digest);
        let ghost marked = self.slots@;
        let low = self.low_watermark;
        let len = self.slots.len();
        let mut n: usize = 0;
        while n < len && self.slots[n].is_some()
            invariant
                n <= len,
                len == self.slots@.len(),
                self.slots@ == marked,
                low + len <= u64::MAX,
                forall|k: int| 0 <= k < n ==> marked[k] is Some,
                released@ == Seq::new(
                    n as nat,
                    |i: int| ((low + i) as TxSequenceNumber, marked[i]->0),
                ),
            decreases len - n,
        {
            let d = match self.slots[n] {
                Some(d) => d,
                None => digest,
            };
            released.push((low + n as u64, d));
            n += 1;
        }
        proof {
            lemma_ready_len(marked, n as int);
        }
        let rest = self.slots.split_off(n);
        self.slots = rest;
        self.low_watermark = low + n as u64;
        released
    }
}

/// One call on a notifier.
pub enum NotifierOp {
    /// A ticket is asked for.
    Ticket,
    /// The ticket with this sequence number is resolved with this digest.
    Resolve(TxSequenceNumber, TransactionDigest),
}

/// The notifier after `op`, and the entries that `op` releases.
pub open spec fn notifier_step(v: NotifierView, op: NotifierOp) -> (
    NotifierView,
    Seq<(TxSequenceNumber, TransactionDigest)>,
) {
    match op {
        NotifierOp::Ticket => (
            if v.can_issue() {
                v.issue()
            } else {
                v
            },
            Seq::empty(),
        ),
        NotifierOp::Resolve(seq, digest) => (v.resolve(seq, digest), v.released(seq, digest)),
    }
}

/// The notifier after the calls `ops` in turn, and everything that they
/// release, in the order of release.
pub open spec fn notifier_run(v: NotifierView, ops: Seq<NotifierOp>) -> (
    NotifierView,
    Seq<(TxSequenceNumber, TransactionDigest)>,
)
    decreases ops.len(),
{
    if ops.len() == 0 {
        (v, Seq::empty())
    } else {
        let (before, log) = notifier_run(v, ops.drop_last());
        let (after, released) = notifier_step(before, ops.last());
        (after, log + released)
    }
}

/// Whichever way tickets are taken and resolved, one call keeps the
/// invariant and releases a run of consecutive sequence numbers that starts
/// at the low watermark and ends at the new one.
pub proof fn lemma_step_releases_in_order(v: NotifierView, op: NotifierOp)
    requires
        v.inv(),
    ensures
        notifier_step(v, op).0.inv(),
        notifier_step(v, op).0.low_watermark == v.low_watermark + notifier_step(v, op).1.len(),
        forall|i: int|
            0 <= i < notifier_step(v, op).1.len() ==> (#[trigger] notifier_step(v, op).1[i]).0
                == v.low_watermark + i,
{
    match op {
        NotifierOp::Ticket => {},
        NotifierOp::Resolve(seq, digest) => {
            if v.is_live(seq) {
                lemma_ready_len_bounds(v.marked(seq, digest));
            }
        },
    }
}

/// The log that a subscriber sees has every sequence number from the first
/// low watermark on, once and in ascending order, in whatever order the
/// commits complete.
pub proof fn lemma_log_is_gap_free(v: NotifierView, ops: Seq<NotifierOp>)
    requires
        v.inv(),
    ensures
        notifier_run(v, ops).0.inv(),
        notifier_run(v, ops).0.low_watermark == v.low_watermark + notifier_run(v, ops).1.len(),
        forall|i: int|
            0 <= i < notifier_run(v, ops).1.len() ==> (#[trigger] notifier_run(v, ops).1[i]).0
                == v.low_watermark + i,
    decreases ops.len(),
{
    if ops.len() > 0 {
        lemma_log_is_gap_free(v, ops.drop_last());
        let (before, log) = notifier_run(v, ops.drop_last());
        lemma_step_releases_in_order(before, ops.last());
    }
}

} // verus!

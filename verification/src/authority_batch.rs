//! The batch maker: the decisions of the service that follows the executed
//! log and seals it into batches.
//!
//! The service is driven from outside. Whoever runs it waits for the next
//! transaction of the log or for the timer, hands the event to
//! [`BatchService::on_event`], and does what the answer says: forward the
//! transaction to the subscribers, seal the transactions gathered so far
//! with `AuthorityState::seal_batch`, restart the timer, stop.

use vstd::prelude::*;
use std::collections::VecDeque;
use crate::base_types::{TransactionDigest, TxSequenceNumber};
use crate::batch::{item_views, UpdateItem, UpdateItemView};
use crate::error::SuiError;
use crate::messages::copy_vec;

verus! {

/// What the batch service waits for.
#[derive(Clone, Copy, Debug, PartialEq, Eq)]
pub enum BatchEvent {
    /// The next transaction of the executed log has become visible.
    Transaction((TxSequenceNumber, TransactionDigest)),
    /// The longest delay between two batches has passed.
    Tick,
    /// The log has ended: no transaction will follow.
    Closed,
}

/// What the batch service asks for in answer to an event.
#[derive(Debug, PartialEq, Eq)]
pub struct BatchAction {
    /// The transaction to forward to the subscribers, if the event was one.
    pub forward: Option<(TxSequenceNumber, TransactionDigest)>,
    /// The transactions to seal into the next batch, if a batch is due.
    /// The timer restarts when a batch is sealed.
    pub seal: Option<Vec<(TxSequenceNumber, TransactionDigest)>>,
    /// Whether the service ends.
    pub exit: bool,
}

/// The view of a [`BatchAction`].
pub struct BatchActionView {
    pub forward: Option<(TxSequenceNumber, TransactionDigest)>,
    pub seal: Option<Seq<(TxSequenceNumber, TransactionDigest)>>,
    pub exit: bool,
}

impl View for BatchAction {
    type V = BatchActionView;

    open spec fn view(&self) -> BatchActionView {
        BatchActionView {
            forward: self.forward,
            seal: match self.seal {
                Some(v) => Some(v@),
                None => None,
            },
            exit: self.exit,
        }
    }
}

/// The view of a [`BatchService`].
pub struct BatchServiceView {
    /// A batch is sealed as soon as it holds this many transactions.
    pub min_batch_size: u64,
    /// The transactions gathered since the last batch.
    pub current_batch: Seq<(TxSequenceNumber, TransactionDigest)>,
    /// The sequence number of the transaction that the service takes next.
    pub next_sequence_number: TxSequenceNumber,
}

impl BatchServiceView {
    /// Whether the event is the transaction that the service takes next. The
    /// service takes the transactions of the log one by one in the order of
    /// their sequence numbers; any other transaction is passed over. The
    /// largest sequence number there is is never taken: no commit has it.
    pub open spec fn takes(&self, event: BatchEvent) -> bool {
        event matches BatchEvent::Transaction(item) && item.0 == self.next_sequence_number
            && self.next_sequence_number < u64::MAX
    }

    /// The transactions gathered once the event has been taken in.
    pub open spec fn gathered(&self, event: BatchEvent) -> Seq<(TxSequenceNumber, TransactionDigest)> {
        match event {
            BatchEvent::Transaction(item) => if self.takes(event) {
                self.current_batch.push(item)
            } else {
                self.current_batch
            },
            _ => self.current_batch,
        }
    }

    /// Whether the event makes a batch due: the batch is full, the delay
    /// has passed, or the log has ended.
    pub open spec fn batch_due(&self, event: BatchEvent) -> bool {
        match event {
            BatchEvent::Transaction(_) => self.takes(event) && self.gathered(event).len()
                >= self.min_batch_size,
            BatchEvent::Tick => true,
            BatchEvent::Closed => true,
        }
    }

    /// Whether the event has a batch sealed: one is due and is not empty.
    pub open spec fn seals(&self, event: BatchEvent) -> bool {
        self.batch_due(event) && self.gathered(event).len() > 0
    }

    /// The answer to an event.
    pub open spec fn action(&self, event: BatchEvent) -> BatchActionView {
        BatchActionView {
            forward: match event {
                BatchEvent::Transaction(item) => if self.takes(event) {
                    Some(item)
                } else {
                    None
                },
                _ => None,
            },
            seal: if self.seals(event) {
                Some(self.gathered(event))
            } else {
                None
            },
            exit: event is Closed,
        }
    }

    /// The service after an event.
    pub open spec fn after(&self, event: BatchEvent) -> BatchServiceView {
        BatchServiceView {
            current_batch: if self.seals(event) {
                Seq::empty()
            } else {
                self.gathered(event)
            },
            next_sequence_number: if self.takes(event) {
                (self.next_sequence_number + 1) as TxSequenceNumber
            } else {
                self.next_sequence_number
            },
            ..*self
        }
    }
}

/// The state of the batch service between two events.
#[derive(Debug)]
pub struct BatchService {
    min_batch_size: u64,
    current_batch: Vec<(TxSequenceNumber, TransactionDigest)>,
    next_sequence_number: TxSequenceNumber,
}

impl View for BatchService {
    type V = BatchServiceView;

    closed spec fn view(&self) -> BatchServiceView {
        BatchServiceView {
            min_batch_size: self.min_batch_size,
            current_batch: self.current_batch@,
            next_sequence_number: self.next_sequence_number,
        }
    }
}

impl BatchService {
    /// A service that has gathered nothing, takes the transaction at
    /// `next_sequence_number` first, and seals a batch as soon as it holds
    /// `min_batch_size` transactions.
    pub fn new(min_batch_size: u64, next_sequence_number: TxSequenceNumber) -> (r: Self)
        ensures
            r@ == (BatchServiceView {
                min_batch_size,
                current_batch: Seq::empty(),
                next_sequence_number,
            }),
    {
        BatchService { min_batch_size, current_batch: Vec::new(), next_sequence_number }
    }

    /// The sequence number of the transaction that the service takes next.
    pub fn next_sequence_number(&self) -> (r: TxSequenceNumber)
        ensures
            r == self@.next_sequence_number,
    {
        self.next_sequence_number
    }

    /// Takes in an event and says what is to be done.
    ///
    /// The transaction with the next sequence number is gathered and
    /// forwarded; any other transaction is passed over. A batch is due when
    /// the gathered transactions have reached the minimum size, when the
    /// delay has passed, and when the log has ended; if a batch is due and
    /// transactions have been gathered, they are handed out to be sealed
    /// and the service starts to gather anew.
    pub fn on_event(&mut self, event: BatchEvent) -> (action: BatchAction)
        ensures
            action@ == old(self)@.action(event),
            final(self)@ == old(self)@.after(event),
    {
        let mut make_batch = false;
        let mut exit = false;
        let mut forward: Option<(TxSequenceNumber, TransactionDigest)> = None;
        match event {
            BatchEvent::Tick => {
                make_batch = true;
            },
            BatchEvent::Closed => {
                make_batch = true;
                exit = true;
            },
            BatchEvent::Transaction(item) => {
                if item.0 == self.next_sequence_number && self.next_sequence_number < u64::MAX {
                    self.next_sequence_number = self.next_sequence_number + 1;
                    self.current_batch.push(item);
                    forward = Some(item);
                    if self.current_batch.len() as u128 >= self.min_batch_size as u128 {
                        make_batch = true;
                    }
                }
            },
        }
        let seal = if make_batch && self.current_batch.len() > 0 {
            let sealed = copy_vec(&self.current_batch);
            self.current_batch.clear();
            Some(sealed)
        } else {
            None
        };
        BatchAction { forward, seal, exit }
    }
}

/// The service after the events `events` in turn.
pub open spec fn service_after(service: BatchServiceView, events: Seq<BatchEvent>) -> BatchServiceView
    decreases events.len(),
{
    if events.len() == 0 {
        service
    } else {
        service_after(service, events.drop_last()).after(events.last())
    }
}

/// The transactions that the service forwards to the subscribers for the
/// events `events`, in the order of forwarding.
pub open spec fn forwarded(service: BatchServiceView, events: Seq<BatchEvent>) -> Seq<
    (TxSequenceNumber, TransactionDigest),
>
    decreases events.len(),
{
    if events.len() == 0 {
        Seq::empty()
    } else {
        let before = forwarded(service, events.drop_last());
        match service_after(service, events.drop_last()).action(events.last()).forward {
            Some(item) => before.push(item),
            None => before,
        }
    }
}

/// Whatever events come, in whatever order and however often, the
/// transactions that the service forwards have consecutive sequence numbers
/// from the one it took first on, and each is a transaction of one of the
/// events.
pub proof fn lemma_service_forwards_in_order(service: BatchServiceView, events: Seq<BatchEvent>)
    ensures
        service_after(service, events).next_sequence_number == service.next_sequence_number + forwarded(
            service,
            events,
        ).len(),
        forall|i: int|
            0 <= i < forwarded(service, events).len() ==> {
                &&& (#[trigger] forwarded(service, events)[i]).0 == service.next_sequence_number + i
                &&& events.contains(BatchEvent::Transaction(forwarded(service, events)[i]))
            },
    decreases events.len(),
{
    if events.len() > 0 {
        let front = events.drop_last();
        lemma_service_forwards_in_order(service, front);
        let before = forwarded(service, front);
        let sent = forwarded(service, events);
        assert forall|i: int| 0 <= i < sent.len() implies {
            &&& (#[trigger] sent[i]).0 == service.next_sequence_number + i
            &&& events.contains(BatchEvent::Transaction(sent[i]))
        } by {
            if i < before.len() {
                assert(sent[i] == before[i]);
                let k = choose|k: int| 0 <= k < front.len() && front[k] == BatchEvent::Transaction(before[i]);
                assert(events[k] == front[k]);
            } else {
                assert(events[events.len() - 1] == BatchEvent::Transaction(sent[i]));
            }
        }
    }
}

/// What is done with a live update on a stream to a subscriber.
#[derive(Clone, Copy, Debug, PartialEq, Eq, Structural)]
pub enum StreamStep {
    /// The update is dropped: the subscriber has seen it.
    Skip,
    /// The update is sent.
    Forward,
    /// The update is sent, and the stream ends: the range is covered.
    ForwardAndStop,
}

/// The view of a [`BatchStream`].
pub struct BatchStreamView {
    /// The sequence number of the last transaction sent, if one was sent.
    pub last_seq_sent: Option<TxSequenceNumber>,
    /// The end of the last batch sent, if one was sent.
    pub last_batch_sent: Option<TxSequenceNumber>,
    /// The end of the range asked for.
    pub end: TxSequenceNumber,
}

/// The sequence number of the last transaction among `items`, if there is
/// one, else `otherwise`.
pub open spec fn last_transaction_of(items: Seq<UpdateItemView>, otherwise: Option<TxSequenceNumber>) -> Option<
    TxSequenceNumber,
>
    decreases items.len(),
{
    if items.len() == 0 {
        otherwise
    } else {
        match items.last() {
            UpdateItemView::Transaction(t) => Some(t.0),
            UpdateItemView::Batch(_) => last_transaction_of(items.drop_last(), otherwise),
        }
    }
}

/// The end of the last batch among `items`, if there is one, else
/// `otherwise`.
pub open spec fn last_batch_of(items: Seq<UpdateItemView>, otherwise: Option<TxSequenceNumber>) -> Option<
    TxSequenceNumber,
>
    decreases items.len(),
{
    if items.len() == 0 {
        otherwise
    } else {
        match items.last() {
            UpdateItemView::Batch(b) => Some(b.batch.next_sequence_number),
            UpdateItemView::Transaction(_) => last_batch_of(items.drop_last(), otherwise),
        }
    }
}

impl BatchStreamView {
    /// Whether the subscriber has not seen the update yet: a transaction
    /// after the last one sent, or a batch that ends after the last one
    /// sent.
    pub open spec fn is_new(&self, item: UpdateItemView) -> bool {
        match item {
            UpdateItemView::Transaction(t) => match self.last_seq_sent {
                Some(last) => t.0 > last,
                None => true,
            },
            UpdateItemView::Batch(b) => match self.last_batch_sent {
                Some(last) => b.batch.next_sequence_number > last,
                None => true,
            },
        }
    }

    /// What is done with a live update.
    pub open spec fn step(&self, item: UpdateItemView) -> StreamStep {
        if !self.is_new(item) {
            StreamStep::Skip
        } else {
            match item {
                UpdateItemView::Transaction(_) => StreamStep::Forward,
                UpdateItemView::Batch(b) => if self.end <= b.batch.next_sequence_number {
                    StreamStep::ForwardAndStop
                } else {
                    StreamStep::Forward
                },
            }
        }
    }

    /// The stream after a live update.
    pub open spec fn after(&self, item: UpdateItemView) -> BatchStreamView {
        if !self.is_new(item) {
            *self
        } else {
            match item {
                UpdateItemView::Transaction(t) => BatchStreamView { last_seq_sent: Some(t.0), ..*self },
                UpdateItemView::Batch(b) => BatchStreamView {
                    last_batch_sent: Some(b.batch.next_sequence_number),
                    ..*self
                },
            }
        }
    }
}

/// What a subscriber has been sent: the replay of the past, and what of the
/// live updates continues it.
#[derive(Debug)]
pub struct BatchStream {
    last_seq_sent: Option<TxSequenceNumber>,
    last_batch_sent: Option<TxSequenceNumber>,
    end: TxSequenceNumber,
}

impl View for BatchStream {
    type V = BatchStreamView;

    closed spec fn view(&self) -> BatchStreamView {
        BatchStreamView {
            last_seq_sent: self.last_seq_sent,
            last_batch_sent: self.last_batch_sent,
            end: self.end,
        }
    }
}

impl BatchStream {
    /// The stream to a subscriber who asked for the range up to `end` and
    /// has been sent the replay `replayed`.
    pub fn new(replayed: &VecDeque<UpdateItem>, end: TxSequenceNumber) -> (r: Self)
        ensures
            r@ == (BatchStreamView {
                last_seq_sent: last_transaction_of(item_views(replayed@), None),
                last_batch_sent: last_batch_of(item_views(replayed@), None),
                end,
            }),
    {
        let ghost all = item_views(replayed@);
        let mut last_seq_sent: Option<TxSequenceNumber> = None;
        let mut last_batch_sent: Option<TxSequenceNumber> = None;
        let n = replayed.len();
        let mut i: usize = 0;
        assert(all.subrange(0, 0).len() == 0);
        while i < n
            invariant
                all == item_views(replayed@),
                n == all.len(),
                i <= n,
                last_seq_sent == last_transaction_of(all.subrange(0, i as int), None),
                last_batch_sent == last_batch_of(all.subrange(0, i as int), None),
            decreases n - i,
        {
            proof {
                assert(all.subrange(0, i + 1).drop_last() == all.subrange(0, i as int));
                assert(all.subrange(0, i + 1).last() == replayed@[i as int]@);
                lemma_last_of_prefix(all.subrange(0, i + 1));
            }
            match &replayed[i] {
                UpdateItem::Transaction(t) => {
                    last_seq_sent = Some(t.0);
                },
                UpdateItem::Batch(b) => {
                    last_batch_sent = Some(b.batch.next_sequence_number);
                },
            }
            i += 1;
        }
        assert(all.subrange(0, i as int) == all);
        BatchStream { last_seq_sent, last_batch_sent, end }
    }

    /// Takes in a live update and says whether it is sent to the
    /// subscriber. An update that the subscriber has seen is dropped. The
    /// stream ends with the first new batch that ends at or after the end
    /// of the range.
    pub fn on_update(&mut self, item: &UpdateItem) -> (step: StreamStep)
        ensures
            step == old(self)@.step(item@),
            final(self)@ == old(self)@.after(item@),
    {
        match item {
            UpdateItem::Transaction(t) => {
                let seen = match self.last_seq_sent {
                    Some(last) => t.0 <= last,
                    None => false,
                };
                if seen {
                    return StreamStep::Skip;
                }
                self.last_seq_sent = Some(t.0);
                StreamStep::Forward
            },
            UpdateItem::Batch(b) => {
                let next = b.batch.next_sequence_number;
                let seen = match self.last_batch_sent {
                    Some(last) => next <= last,
                    None => false,
                };
                if seen {
                    return StreamStep::Skip;
                }
                self.last_batch_sent = Some(next);
                if self.end <= next {
                    StreamStep::ForwardAndStop
                } else {
                    StreamStep::Forward
                }
            },
        }
    }

    /// What the subscriber is told when the live updates end.
    pub fn on_closed(&self) -> (e: SuiError)
        ensures
            e == SuiError::SubscriptionServiceClosed,
    {
        SuiError::SubscriptionServiceClosed
    }

    /// What the subscriber is told when it was too slow and `skipped` live
    /// updates were dropped.
    pub fn on_lagged(&self, skipped: u64) -> (e: SuiError)
        ensures
            e == SuiError::SubscriptionItemsDroppedError(skipped),
    {
        SuiError::SubscriptionItemsDroppedError(skipped)
    }
}

/// The last transaction and the last batch of a sequence are those of its
/// last item, or those of the items before it.
pub proof fn lemma_last_of_prefix(items: Seq<UpdateItemView>)
    requires
        items.len() > 0,
    ensures
        last_transaction_of(items, None) == match items.last() {
            UpdateItemView::Transaction(t) => Some(t.0),
            UpdateItemView::Batch(_) => last_transaction_of(items.drop_last(), None),
        },
        last_batch_of(items, None) == match items.last() {
            UpdateItemView::Batch(b) => Some(b.batch.next_sequence_number),
            UpdateItemView::Transaction(_) => last_batch_of(items.drop_last(), None),
        },
{
}

/// The transactions that `updates` make a stream send, in the order of
/// sending.
pub open spec fn forwarded_transactions(stream: BatchStreamView, updates: Seq<UpdateItemView>) -> Seq<
    TxSequenceNumber,
>
    decreases updates.len(),
{
    if updates.len() == 0 {
        Seq::empty()
    } else {
        let before = forwarded_transactions(stream, updates.drop_last());
        let current = stream_after(stream, updates.drop_last());
        match updates.last() {
            UpdateItemView::Transaction(t) => if current.is_new(updates.last()) {
                before.push(t.0)
            } else {
                before
            },
            UpdateItemView::Batch(_) => before,
        }
    }
}

/// The stream after the live updates `updates`.
pub open spec fn stream_after(stream: BatchStreamView, updates: Seq<UpdateItemView>) -> BatchStreamView
    decreases updates.len(),
{
    if updates.len() == 0 {
        stream
    } else {
        stream_after(stream, updates.drop_last()).after(updates.last())
    }
}

/// A subscriber sees no transaction twice and none out of order: whatever
/// live updates come, in whatever order and however often, the sequence
/// numbers of the transactions that are sent are strictly ascending and lie
/// after the last transaction of the replay.
pub proof fn lemma_stream_is_strictly_ascending(stream: BatchStreamView, updates: Seq<UpdateItemView>)
    ensures
        forall|i: int, j: int|
            0 <= i < j < forwarded_transactions(stream, updates).len() ==> forwarded_transactions(
                stream,
                updates,
            )[i] < forwarded_transactions(stream, updates)[j],
        forall|i: int|
            0 <= i < forwarded_transactions(stream, updates).len() ==> (stream.last_seq_sent matches Some(
                last,
            ) ==> last < #[trigger] forwarded_transactions(stream, updates)[i]),
        forwarded_transactions(stream, updates).len() > 0 ==> stream_after(stream, updates).last_seq_sent
            == Some(forwarded_transactions(stream, updates).last()),
        forwarded_transactions(stream, updates).len() == 0 ==> stream_after(stream, updates).last_seq_sent
            == stream.last_seq_sent,
    decreases updates.len(),
{
    if updates.len() > 0 {
        lemma_stream_is_strictly_ascending(stream, updates.drop_last());
        let before = forwarded_transactions(stream, updates.drop_last());
        let sent = forwarded_transactions(stream, updates);
        assert forall|i: int, j: int| 0 <= i < j < sent.len() implies sent[i] < sent[j] by {
            if j < before.len() {
                assert(before[i] < before[j]);
            } else if i < before.len() {
                assert(before[i] == sent[i]);
                if i < before.len() - 1 {
                    assert(before[i] < before[before.len() - 1]);
                }
            }
        }
    }
}

} // verus!

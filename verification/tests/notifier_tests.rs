use std::collections::VecDeque;
use sui_core::authority_batch::{BatchAction, BatchEvent, BatchService, BatchStream, StreamStep};
use sui_core::batch::{AuthorityBatch, SignedBatch, UpdateItem};
use sui_core::authority_notifier::TransactionNotifier;
use sui_core::error::SuiError;

#[test]
fn tickets_are_released_in_order_of_issue() {
    let mut notifier = TransactionNotifier::new(10);
    let t10 = notifier.ticket().unwrap();
    let t11 = notifier.ticket().unwrap();
    let t12 = notifier.ticket().unwrap();
    assert_eq!((t10.seq(), t11.seq(), t12.seq()), (10, 11, 12));
    assert_eq!(notifier.low_watermark(), 10);
    assert_eq!(notifier.high_watermark(), 13);
    // The commits complete in the order 12, 10, 11.
    assert_eq!(notifier.resolve(t12, 912), vec![]);
    assert_eq!(notifier.low_watermark(), 10);
    assert_eq!(notifier.resolve(t10, 910), vec![(10, 910)]);
    assert_eq!(notifier.low_watermark(), 11);
    assert!(notifier.is_live(11));
    assert!(!notifier.is_live(12));
    assert!(!notifier.is_live(10));
    assert!(!notifier.is_live(13));
    assert_eq!(notifier.resolve(t11, 911), vec![(11, 911), (12, 912)]);
    assert_eq!(notifier.low_watermark(), 13);
    assert_eq!(notifier.high_watermark(), 13);
}

#[test]
fn every_completion_order_gives_the_same_log() {
    let orders: [[usize; 4]; 6] =
        [[0, 1, 2, 3], [3, 2, 1, 0], [1, 0, 3, 2], [2, 3, 0, 1], [1, 3, 0, 2], [3, 0, 2, 1]];
    for order in orders {
        let mut notifier = TransactionNotifier::new(0);
        let mut tickets: Vec<_> = (0..4).map(|_| Some(notifier.ticket().unwrap())).collect();
        let mut log = Vec::new();
        for i in order {
            let ticket = tickets[i].take().unwrap();
            log.extend(notifier.resolve(ticket, 100 + i as u64));
        }
        assert_eq!(log, vec![(0, 100), (1, 101), (2, 102), (3, 103)]);
    }
}

#[test]
fn a_foreign_ticket_changes_nothing() {
    let mut other = TransactionNotifier::new(5);
    let foreign = other.ticket().unwrap();
    let mut notifier = TransactionNotifier::new(0);
    let own = notifier.ticket().unwrap();
    assert_eq!(notifier.resolve(foreign, 1), vec![]);
    assert_eq!(notifier.low_watermark(), 0);
    assert_eq!(notifier.resolve(own, 2), vec![(0, 2)]);
}

#[test]
fn a_closed_notifier_issues_no_ticket() {
    let mut notifier = TransactionNotifier::new(0);
    let ticket = notifier.ticket().unwrap();
    notifier.close();
    assert_eq!(notifier.ticket().err(), Some(SuiError::ClosedNotifierError));
    assert_eq!(notifier.resolve(ticket, 7), vec![(0, 7)]);
    let mut last = TransactionNotifier::new(u64::MAX);
    assert_eq!(last.ticket().err(), Some(SuiError::ClosedNotifierError));
    let mut almost = TransactionNotifier::new(u64::MAX - 1);
    assert_eq!(almost.ticket().unwrap().seq(), u64::MAX - 1);
    assert_eq!(almost.ticket().err(), Some(SuiError::ClosedNotifierError));
}

#[test]
fn batch_service_seals_when_full() {
    let mut service = BatchService::new(3, 0);
    assert_eq!(
        service.on_event(BatchEvent::Transaction((0, 100))),
        BatchAction { forward: Some((0, 100)), seal: None, exit: false }
    );
    assert_eq!(
        service.on_event(BatchEvent::Transaction((1, 101))),
        BatchAction { forward: Some((1, 101)), seal: None, exit: false }
    );
    assert_eq!(
        service.on_event(BatchEvent::Transaction((2, 102))),
        BatchAction { forward: Some((2, 102)), seal: Some(vec![(0, 100), (1, 101), (2, 102)]), exit: false }
    );
    assert_eq!(
        service.on_event(BatchEvent::Transaction((3, 103))),
        BatchAction { forward: Some((3, 103)), seal: None, exit: false }
    );
}

#[test]
fn batch_service_seals_on_delay_and_at_the_end() {
    let mut service = BatchService::new(1000, 0);
    assert_eq!(service.on_event(BatchEvent::Tick), BatchAction { forward: None, seal: None, exit: false });
    service.on_event(BatchEvent::Transaction((0, 100)));
    assert_eq!(
        service.on_event(BatchEvent::Tick),
        BatchAction { forward: None, seal: Some(vec![(0, 100)]), exit: false }
    );
    assert_eq!(service.on_event(BatchEvent::Tick), BatchAction { forward: None, seal: None, exit: false });
    service.on_event(BatchEvent::Transaction((1, 101)));
    service.on_event(BatchEvent::Transaction((2, 102)));
    assert_eq!(
        service.on_event(BatchEvent::Closed),
        BatchAction { forward: None, seal: Some(vec![(1, 101), (2, 102)]), exit: true }
    );
    assert_eq!(service.on_event(BatchEvent::Closed), BatchAction { forward: None, seal: None, exit: true });
}

#[test]
fn batch_service_with_no_minimum_seals_each_transaction() {
    let mut service = BatchService::new(0, 0);
    assert_eq!(
        service.on_event(BatchEvent::Transaction((0, 100))),
        BatchAction { forward: Some((0, 100)), seal: Some(vec![(0, 100)]), exit: false }
    );
}

fn batch(next: u64) -> UpdateItem {
    let mut b = AuthorityBatch::initial(next);
    b.next_sequence_number = next;
    UpdateItem::Batch(SignedBatch::new(b, 0, 0))
}

#[test]
fn a_stream_continues_the_replay_without_repeats() {
    let replayed: VecDeque<UpdateItem> =
        vec![batch(0), UpdateItem::Transaction((0, 100)), UpdateItem::Transaction((1, 101)), batch(2)].into();
    let mut stream = BatchStream::new(&replayed, 5);
    assert_eq!(stream.on_update(&UpdateItem::Transaction((1, 101))), StreamStep::Skip);
    assert_eq!(stream.on_update(&batch(2)), StreamStep::Skip);
    assert_eq!(stream.on_update(&UpdateItem::Transaction((2, 102))), StreamStep::Forward);
    assert_eq!(stream.on_update(&UpdateItem::Transaction((2, 102))), StreamStep::Skip);
    assert_eq!(stream.on_update(&UpdateItem::Transaction((3, 103))), StreamStep::Forward);
    assert_eq!(stream.on_update(&batch(4)), StreamStep::Forward);
    assert_eq!(stream.on_update(&UpdateItem::Transaction((4, 104))), StreamStep::Forward);
    assert_eq!(stream.on_update(&batch(4)), StreamStep::Skip);
    assert_eq!(stream.on_update(&batch(5)), StreamStep::ForwardAndStop);
    assert_eq!(stream.on_closed(), SuiError::SubscriptionServiceClosed);
    assert_eq!(stream.on_lagged(9), SuiError::SubscriptionItemsDroppedError(9));
}

#[test]
fn a_stream_after_an_empty_replay_sends_the_first_transaction() {
    let mut stream = BatchStream::new(&VecDeque::new(), 1);
    assert_eq!(stream.on_update(&UpdateItem::Transaction((0, 100))), StreamStep::Forward);
    assert_eq!(stream.on_update(&batch(0)), StreamStep::Forward);
    assert_eq!(stream.on_update(&batch(7)), StreamStep::ForwardAndStop);
}

#[test]
fn batch_service_takes_the_log_in_order() {
    let mut service = BatchService::new(2, 5);
    assert_eq!(service.next_sequence_number(), 5);
    let passed_over = BatchAction { forward: None, seal: None, exit: false };
    // Neither an earlier nor a later transaction is taken.
    assert_eq!(service.on_event(BatchEvent::Transaction((4, 104))), passed_over);
    assert_eq!(service.on_event(BatchEvent::Transaction((6, 106))), passed_over);
    assert_eq!(service.next_sequence_number(), 5);
    assert_eq!(
        service.on_event(BatchEvent::Transaction((5, 105))),
        BatchAction { forward: Some((5, 105)), seal: None, exit: false }
    );
    // Handed in again, a transaction is not forwarded again.
    assert_eq!(service.on_event(BatchEvent::Transaction((5, 105))), passed_over);
    assert_eq!(service.next_sequence_number(), 6);
    assert_eq!(
        service.on_event(BatchEvent::Transaction((6, 106))),
        BatchAction { forward: Some((6, 106)), seal: Some(vec![(5, 105), (6, 106)]), exit: false }
    );
    assert_eq!(service.next_sequence_number(), 7);
    let mut last = BatchService::new(1, u64::MAX);
    assert_eq!(last.on_event(BatchEvent::Transaction((u64::MAX, 1))), passed_over);
    assert_eq!(last.next_sequence_number(), u64::MAX);
}

use depth_book::event_buffer::{decide, DrainDecision, EventBuffer, PrioritizedOrderBookUpdate};
use depth_book::messages::{Level, OrderBookUpdate, Snapshot};
use depth_book::order_book::{InstrumentState, OrderBook};
use depth_book::recovery::TimeoutState;
use std::cmp::Ordering;

fn plain(first: u64, last: u64) -> OrderBookUpdate {
    marked(first, last, 0)
}

/// An update that leaves its mark on the book: a bid at its first sequence
/// number, with `mark` as the time of the event.
fn marked(first: u64, last: u64, mark: u64) -> OrderBookUpdate {
    OrderBookUpdate {
        event_type: "depthUpdate".to_string(),
        event_time: mark,
        symbol: "BTCUSDT".to_string(),
        first_trade_id: first,
        last_trade_id: last,
        bids: vec![Level { price: first, qty: mark + 1 }],
        asks: vec![],
    }
}

fn book_at(cursor: u64) -> OrderBook {
    let mut book = OrderBook::new();
    book.apply_snapshot(&Snapshot { last_update_id: cursor, bids: vec![], asks: vec![] });
    book
}

#[test]
fn new_buffer_is_empty() {
    let mut buffer = EventBuffer::new();
    assert!(buffer.is_empty());
    assert_eq!(buffer.len(), 0);
    assert_eq!(buffer.peek(), None);
    assert_eq!(buffer.pop(), None);
}

#[test]
fn buffer_hands_out_by_first_sequence_number() {
    let mut buffer = EventBuffer::new();
    let mut lowest = u64::MAX;
    for first in [5u64, 1, 9, 3, 7, 2] {
        buffer.push(plain(first, first + 1));
        lowest = lowest.min(first);
        assert_eq!(buffer.peek().map(|u| u.first_trade_id), Some(lowest));
    }
    assert_eq!(buffer.len(), 6);
    let mut out = Vec::new();
    while let Some(update) = buffer.pop() {
        out.push(update.first_trade_id);
    }
    assert_eq!(out, vec![1, 2, 3, 5, 7, 9]);
    assert!(buffer.is_empty());
}

#[test]
fn updates_with_the_same_start_leave_in_the_order_they_came() {
    let mut buffer = EventBuffer::new();
    buffer.push(marked(4, 4, 1));
    buffer.push(marked(2, 9, 2));
    buffer.push(marked(4, 6, 3));
    buffer.push(marked(4, 5, 4));
    buffer.push(marked(2, 2, 5));
    let mut out = Vec::new();
    while let Some(update) = buffer.pop() {
        out.push(update.event_time);
    }
    assert_eq!(out, vec![2, 5, 1, 3, 4]);
}

#[test]
fn peek_shows_what_pop_takes() {
    let mut buffer = EventBuffer::new();
    buffer.push(marked(8, 8, 1));
    buffer.push(marked(6, 7, 2));
    assert_eq!(buffer.peek(), Some(&marked(6, 7, 2)));
    assert_eq!(buffer.len(), 2);
    assert_eq!(buffer.pop(), Some(marked(6, 7, 2)));
    assert_eq!(buffer.peek(), Some(&marked(8, 8, 1)));
    assert_eq!(buffer.pop(), Some(marked(8, 8, 1)));
    assert_eq!(buffer.peek(), None);
}

#[test]
fn earlier_update_is_the_greater_entry() {
    let early = PrioritizedOrderBookUpdate(plain(3, 9));
    let late = PrioritizedOrderBookUpdate(plain(4, 4));
    let tie = PrioritizedOrderBookUpdate(plain(3, 5));
    assert_eq!(early.partial_cmp(&late), Some(Ordering::Greater));
    assert_eq!(late.partial_cmp(&early), Some(Ordering::Less));
    assert_eq!(early.partial_cmp(&tie), Some(Ordering::Equal));
    assert!(early > late);
    assert!(late < early);
    assert!(early >= tie && early <= tie);
}

#[test]
fn entries_are_equal_when_they_cover_the_same_range() {
    let a = PrioritizedOrderBookUpdate(marked(3, 9, 1));
    let b = PrioritizedOrderBookUpdate(marked(3, 9, 2));
    let c = PrioritizedOrderBookUpdate(marked(3, 8, 1));
    let d = PrioritizedOrderBookUpdate(marked(2, 9, 1));
    assert!(a == b);
    assert!(a != c);
    assert!(a != d);
}

#[test]
fn decision_after_recovery() {
    let state = InstrumentState::JustRecovered;
    assert_eq!(decide(state, 100, 101, 101), DrainDecision::Apply);
    assert_eq!(decide(state, 100, 99, 102), DrainDecision::Apply);
    assert_eq!(decide(state, 100, 50, 101), DrainDecision::Apply);
    assert_eq!(decide(state, 100, 102, 102), DrainDecision::Stop);
    assert_eq!(decide(state, 100, 102, 90), DrainDecision::Stop);
    assert_eq!(decide(state, 100, 99, 100), DrainDecision::Discard);
    assert_eq!(decide(state, 100, 101, 100), DrainDecision::Discard);
    assert_eq!(decide(state, 100, 1, 2), DrainDecision::Discard);
}

#[test]
fn decision_in_normal_operation() {
    let state = InstrumentState::Normal;
    assert_eq!(decide(state, 100, 101, 101), DrainDecision::Apply);
    assert_eq!(decide(state, 100, 101, 250), DrainDecision::Apply);
    assert_eq!(decide(state, 100, 101, 3), DrainDecision::Apply);
    assert_eq!(decide(state, 100, 102, 102), DrainDecision::Stop);
    assert_eq!(decide(state, 100, 100, 100), DrainDecision::Discard);
    assert_eq!(decide(state, 100, 99, 102), DrainDecision::Discard);
    assert_eq!(decide(state, 0, 0, 5), DrainDecision::Discard);
    assert_eq!(decide(state, 0, 1, 5), DrainDecision::Apply);
}

#[test]
fn decision_while_recovery_is_pending() {
    for state in [InstrumentState::Recovering, InstrumentState::JustStarted] {
        assert_eq!(decide(state, 100, 101, 101), DrainDecision::Stop);
        assert_eq!(decide(state, 100, 1, 1), DrainDecision::Stop);
        assert_eq!(decide(state, 100, 500, 600), DrainDecision::Stop);
    }
}

#[test]
fn decision_at_the_last_sequence_number() {
    assert_eq!(decide(InstrumentState::Normal, u64::MAX, u64::MAX, u64::MAX), DrainDecision::Discard);
    assert_eq!(decide(InstrumentState::JustRecovered, u64::MAX, 0, u64::MAX), DrainDecision::Discard);
    assert_eq!(decide(InstrumentState::Normal, u64::MAX - 1, u64::MAX, u64::MAX), DrainDecision::Apply);
    assert_eq!(decide(InstrumentState::Recovering, u64::MAX, 1, 1), DrainDecision::Stop);
}

#[test]
fn drain_applies_in_order_of_first_sequence_number() {
    let mut book = book_at(0);
    let mut buffer = EventBuffer::new();
    let mut state = InstrumentState::Recovering;
    let mut watchdog = TimeoutState::new(5);
    for first in [4u64, 2, 5, 1, 3] {
        let applied = buffer.buffer_and_process_update_at(
            plain(first, first),
            &mut book,
            &mut state,
            &mut watchdog,
            1,
        );
        assert_eq!(applied, 0);
    }
    assert_eq!(book.last_applied_id(), 0);
    state = InstrumentState::Normal;
    let applied = buffer.process_buffered_updates_at(&mut book, &mut state, &mut watchdog, 8);
    assert_eq!(applied, 5);
    assert_eq!(book.last_applied_id(), 5);
    assert!(buffer.is_empty());
    assert_eq!(book.bids().iter().map(|l| l.price).collect::<Vec<u64>>(), vec![5, 4, 3, 2, 1]);
    assert_eq!(watchdog.last_activity(), 8);
}

#[test]
fn drain_stops_at_the_first_update_that_must_wait() {
    let mut book = book_at(10);
    let mut buffer = EventBuffer::new();
    let mut state = InstrumentState::Normal;
    let mut watchdog = TimeoutState::new(5);
    for first in [14u64, 11, 12, 15] {
        buffer.buffer_and_process_update_at(plain(first, first), &mut book, &mut state, &mut watchdog, 2);
    }
    assert_eq!(book.last_applied_id(), 12);
    assert_eq!(buffer.len(), 2);
    assert_eq!(buffer.peek().map(|u| u.first_trade_id), Some(14));
    assert_eq!(watchdog.last_activity(), 2);
}

#[test]
fn drain_with_nothing_eligible_changes_nothing() {
    let mut book = book_at(10);
    let mut buffer = EventBuffer::new();
    let mut state = InstrumentState::Normal;
    let mut watchdog = TimeoutState::new(5);
    assert_eq!(buffer.process_buffered_updates_at(&mut book, &mut state, &mut watchdog, 3), 0);
    buffer.push(plain(13, 13));
    for _ in 0..3 {
        assert_eq!(buffer.process_buffered_updates_at(&mut book, &mut state, &mut watchdog, 3), 0);
        assert_eq!(buffer.len(), 1);
        assert_eq!(book.last_applied_id(), 10);
        assert_eq!(state, InstrumentState::Normal);
        assert_eq!(watchdog.last_activity(), 0);
    }
}

#[test]
fn drain_drops_what_the_book_is_past() {
    let mut book = book_at(10);
    let mut buffer = EventBuffer::new();
    let mut state = InstrumentState::Normal;
    let mut watchdog = TimeoutState::new(5);
    buffer.push(plain(3, 4));
    buffer.push(plain(9, 12));
    buffer.push(plain(10, 10));
    buffer.push(plain(11, 11));
    let applied = buffer.process_buffered_updates_at(&mut book, &mut state, &mut watchdog, 4);
    assert_eq!(applied, 1);
    assert!(buffer.is_empty());
    assert_eq!(book.last_applied_id(), 11);
    assert_eq!(book.bids().iter().map(|l| l.price).collect::<Vec<u64>>(), vec![11]);
}

#[test]
fn after_recovery_the_first_covering_update_is_taken_and_operation_turns_normal() {
    let mut book = book_at(100);
    let mut buffer = EventBuffer::new();
    let mut state = InstrumentState::JustRecovered;
    let mut watchdog = TimeoutState::new(5);
    buffer.push(plain(90, 95));
    buffer.push(plain(96, 100));
    buffer.push(plain(98, 103));
    buffer.push(plain(99, 104));
    buffer.push(plain(104, 105));
    buffer.push(plain(107, 107));
    let applied = buffer.process_buffered_updates_at(&mut book, &mut state, &mut watchdog, 6);
    assert_eq!(applied, 2);
    assert_eq!(state, InstrumentState::Normal);
    assert_eq!(book.last_applied_id(), 105);
    assert_eq!(book.bids().iter().map(|l| l.price).collect::<Vec<u64>>(), vec![104, 98]);
    assert_eq!(buffer.len(), 1);
}

#[test]
fn after_recovery_obsolete_updates_leave_the_state_as_it_is() {
    let mut book = book_at(100);
    let mut buffer = EventBuffer::new();
    let mut state = InstrumentState::JustRecovered;
    let mut watchdog = TimeoutState::new(5);
    buffer.push(plain(90, 95));
    buffer.push(plain(96, 100));
    buffer.push(plain(120, 121));
    let applied = buffer.process_buffered_updates_at(&mut book, &mut state, &mut watchdog, 6);
    assert_eq!(applied, 0);
    assert_eq!(state, InstrumentState::JustRecovered);
    assert_eq!(book.last_applied_id(), 100);
    assert_eq!(buffer.len(), 1);
    assert_eq!(watchdog.last_activity(), 0);
}

#[test]
fn nothing_is_applied_while_recovery_is_pending() {
    for pending in [InstrumentState::Recovering, InstrumentState::JustStarted] {
        let mut book = book_at(0);
        let mut buffer = EventBuffer::new();
        let mut state = pending;
        let mut watchdog = TimeoutState::new(5);
        let applied =
            buffer.buffer_and_process_update_at(plain(1, 1), &mut book, &mut state, &mut watchdog, 9);
        assert_eq!(applied, 0);
        assert_eq!(buffer.len(), 1);
        assert_eq!(book.last_applied_id(), 0);
        assert_eq!(state, pending);
        assert_eq!(watchdog.last_activity(), 0);
    }
}

#[test]
fn same_update_ingested_again_and_again_equals_once() {
    for (cursor, state, first, last) in [
        (10u64, InstrumentState::Normal, 11u64, 11u64),
        (10, InstrumentState::Normal, 13, 14),
        (10, InstrumentState::Normal, 4, 20),
        (10, InstrumentState::Normal, 11, 3),
        (10, InstrumentState::JustRecovered, 9, 12),
        (10, InstrumentState::JustRecovered, 9, 10),
        (10, InstrumentState::JustRecovered, 12, 12),
        (10, InstrumentState::Recovering, 11, 11),
        (10, InstrumentState::JustStarted, 11, 11),
    ] {
        let mut once = book_at(cursor);
        let mut once_state = state;
        let mut once_buffer = EventBuffer::new();
        let mut watchdog = TimeoutState::new(5);
        once_buffer.push(plain(14, 14));
        once_buffer.buffer_and_process_update_at(marked(first, last, 7), &mut once, &mut once_state, &mut watchdog, 1);

        let mut many = book_at(cursor);
        let mut many_state = state;
        let mut many_buffer = EventBuffer::new();
        many_buffer.push(plain(14, 14));
        for _ in 0..4 {
            many_buffer.buffer_and_process_update_at(
                marked(first, last, 7),
                &mut many,
                &mut many_state,
                &mut watchdog,
                1,
            );
        }
        assert_eq!(many.last_applied_id(), once.last_applied_id());
        assert_eq!(many.bids(), once.bids());
        assert_eq!(many.asks(), once.asks());
    }
}

#[test]
fn clock_version_of_the_drain_resets_the_watchdog_only_on_an_apply() {
    let mut book = book_at(10);
    let mut buffer = EventBuffer::new();
    let mut state = InstrumentState::Normal;
    let mut watchdog = TimeoutState::new(5);
    watchdog.reset_at(u128::MAX);
    assert_eq!(buffer.buffer_and_process_update(plain(12, 12), &mut book, &mut state, &mut watchdog), 0);
    assert_eq!(watchdog.last_activity(), u128::MAX);
    assert_eq!(buffer.process_buffered_updates(&mut book, &mut state, &mut watchdog), 0);
    assert_eq!(watchdog.last_activity(), u128::MAX);
    assert_eq!(buffer.buffer_and_process_update(plain(11, 11), &mut book, &mut state, &mut watchdog), 2);
    assert!(watchdog.last_activity() < u128::MAX);
    assert_eq!(watchdog.timeout_duration(), 5);
    assert_eq!(book.last_applied_id(), 12);
}

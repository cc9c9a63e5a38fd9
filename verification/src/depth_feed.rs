//! One connection of the depth feed, as a function from what the socket
//! delivered to what the connection does next.

use crate::event_buffer::{EngineView, EventBuffer};
use crate::messages::OrderBookUpdate;
use crate::order_book::{InstrumentState, OrderBook};
use crate::recovery::{TimeoutState, TimeoutView};
use vstd::prelude::*;

verus! {

/// What a depth connection received.
#[derive(Debug)]
pub enum FeedEvent {
    /// A text frame that decoded to an update.
    Update(OrderBookUpdate),
    /// A text frame that is not an update.
    NotAnUpdate,
    /// A ping with its payload.
    Ping(Vec<u8>),
    /// A frame of any other kind.
    Unknown,
    /// The socket failed.
    SocketError,
}

/// What a depth connection does next.
#[derive(Debug, PartialEq, Eq)]
pub enum FeedAction {
    /// Read the next frame.
    Continue,
    /// Answer with a pong that carries this payload, then read the next frame.
    Pong(Vec<u8>),
    /// Report a frame of unknown kind, then read the next frame.
    ReportUnknown,
    /// Report the failure and end this connection.
    Close,
}

/// The action that answers an event.
pub open spec fn feed_action(event: FeedEvent) -> FeedAction {
    match event {
        FeedEvent::Update(_) => FeedAction::Continue,
        FeedEvent::NotAnUpdate => FeedAction::Continue,
        FeedEvent::Ping(payload) => FeedAction::Pong(payload),
        FeedEvent::Unknown => FeedAction::ReportUnknown,
        FeedEvent::SocketError => FeedAction::Close,
    }
}

/// The engine after an event: an update is buffered and the buffer drained,
/// anything else leaves the engine as it is.
pub open spec fn engine_after(engine: EngineView, event: FeedEvent) -> EngineView {
    match event {
        FeedEvent::Update(update) => engine.ingest(update@),
        _ => engine,
    }
}

/// Handles what a depth connection received at time `now`: an update goes
/// into the buffer, which is then drained; a frame that is not an update is
/// dropped without a word; a ping is answered with its own payload; a socket
/// error ends the connection.
pub fn handle_feed_event_at(
    event: FeedEvent,
    event_buffer: &mut EventBuffer,
    order_book: &mut OrderBook,
    state: &mut InstrumentState,
    timeout_state: &mut TimeoutState,
    now: u128,
) -> (action: FeedAction)
    ensures
        action == feed_action(event),
        ({
            let start = EngineView {
                pending: old(event_buffer)@,
                book: old(order_book)@,
                state: *old(state),
            };
            let end = EngineView {
                pending: final(event_buffer)@,
                book: final(order_book)@,
                state: *final(state),
            };
            end == engine_after(start, event)
        }),
        final(timeout_state)@ == old(timeout_state)@ || final(timeout_state)@ == (TimeoutView {
            last_activity: now,
            ..old(timeout_state)@
        }),
        !(event is Update) ==> final(timeout_state)@ == old(timeout_state)@,
{
    match event {
        FeedEvent::Update(update) => {
            event_buffer.buffer_and_process_update_at(
                update,
                order_book,
                state,
                timeout_state,
                now,
            );
            FeedAction::Continue
        },
        FeedEvent::NotAnUpdate => FeedAction::Continue,
        FeedEvent::Ping(payload) => FeedAction::Pong(payload),
        FeedEvent::Unknown => FeedAction::ReportUnknown,
        FeedEvent::SocketError => FeedAction::Close,
    }
}

/// Handles what a depth connection received: an update goes into the buffer,
/// which is then drained; a frame that is not an update is dropped without a
/// word; a ping is answered with its own payload; a socket error ends the
/// connection.
pub fn handle_feed_event(
    event: FeedEvent,
    event_buffer: &mut EventBuffer,
    order_book: &mut OrderBook,
    state: &mut InstrumentState,
    timeout_state: &mut TimeoutState,
) -> (action: FeedAction)
    ensures
        action == feed_action(event),
        ({
            let start = EngineView {
                pending: old(event_buffer)@,
                book: old(order_book)@,
                state: *old(state),
            };
            let end = EngineView {
                pending: final(event_buffer)@,
                book: final(order_book)@,
                state: *final(state),
            };
            end == engine_after(start, event)
        }),
        final(timeout_state)@.timeout_duration == old(timeout_state)@.timeout_duration,
        !(event is Update) ==> final(timeout_state)@ == old(timeout_state)@,
{
    match event {
        FeedEvent::Update(update) => {
            event_buffer.buffer_and_process_update(update, order_book, state, timeout_state);
            FeedAction::Continue
        },
        FeedEvent::NotAnUpdate => FeedAction::Continue,
        FeedEvent::Ping(payload) => FeedAction::Pong(payload),
        FeedEvent::Unknown => FeedAction::ReportUnknown,
        FeedEvent::SocketError => FeedAction::Close,
    }
}

} // verus!

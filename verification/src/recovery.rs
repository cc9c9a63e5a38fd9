//! The inactivity watchdog and the recovery protocol.

use crate::event_buffer::{in_sequence_order, EngineView, EventBuffer};
use crate::messages::{Snapshot, SnapshotView};
use crate::order_book::{InstrumentState, OrderBook};
use tokio::time::Instant;
use vstd::prelude::*;

verus! {

/// A point on tokio's monotonic clock. Nothing is known of what it holds.
#[verifier::external_type_specification]
#[verifier::external_body]
pub struct ExInstant(Instant);

/// Reads the clock through `tokio::time::Instant::now`.
/// Nothing is claimed of the instant returned.
#[verifier::external_body]
fn clock_now() -> (origin: Instant) {
    Instant::now()
}

/// The nanoseconds from `origin` to now, through `tokio::time::Instant::elapsed`
/// (zero when `origin` lies in the future). Nothing is claimed of the number
/// returned: it depends on when the call is made.
#[verifier::external_body]
fn nanos_since(origin: &Instant) -> (nanos: u128) {
    origin.elapsed().as_nanos()
}

/// The mathematical content of a [`TimeoutState`], in nanoseconds on the
/// watchdog's own clock.
pub struct TimeoutView {
    /// When an update was last applied, or the watchdog was last reset.
    pub last_activity: u128,
    /// How long the book may stay untouched before recovery is due.
    pub timeout_duration: u128,
}

impl TimeoutView {
    /// The time that has passed at `now` since the last activity; zero if
    /// `now` lies before it.
    pub open spec fn idle_at(self, now: u128) -> int {
        if now >= self.last_activity {
            now - self.last_activity
        } else {
            0
        }
    }

    /// At `now` the book has been idle for at least the timeout.
    pub open spec fn timed_out_at(self, now: u128) -> bool {
        self.idle_at(now) >= self.timeout_duration
    }
}

/// The inactivity watchdog: the time of the last successful apply and the
/// idle time after which recovery is triggered.
#[derive(Debug)]
pub struct TimeoutState {
    origin: Instant,
    last_activity: u128,
    timeout_duration: u128,
}

impl View for TimeoutState {
    type V = TimeoutView;

    closed spec fn view(&self) -> TimeoutView {
        TimeoutView { last_activity: self.last_activity, timeout_duration: self.timeout_duration }
    }
}

impl TimeoutState {
    /// A watchdog whose clock starts now, with the moment of creation as its
    /// last activity.
    pub fn new(timeout_duration: u128) -> (watchdog: Self)
        ensures
            watchdog@ == (TimeoutView { last_activity: 0, timeout_duration }),
    {
        TimeoutState { origin: clock_now(), last_activity: 0, timeout_duration }
    }

    /// The idle time after which recovery is triggered, in nanoseconds.
    pub fn timeout_duration(&self) -> (nanos: u128)
        ensures
            nanos == self@.timeout_duration,
    {
        self.timeout_duration
    }

    /// The time of the last activity, in nanoseconds on the watchdog's clock.
    pub fn last_activity(&self) -> (nanos: u128)
        ensures
            nanos == self@.last_activity,
    {
        self.last_activity
    }

    /// The present time in nanoseconds on the watchdog's clock.
    pub fn now(&self) -> (nanos: u128) {
        nanos_since(&self.origin)
    }

    /// Records `now` as the time of the last activity.
    pub fn reset_at(&mut self, now: u128)
        ensures
            final(self)@ == (TimeoutView { last_activity: now, ..old(self)@ }),
    {
        self.last_activity = now;
    }

    /// Reads the watchdog's clock, records the time read as the time of the
    /// last activity, and returns it.
    pub fn reset(&mut self) -> (now: u128)
        ensures
            final(self)@ == (TimeoutView { last_activity: now, ..old(self)@ }),
    {
        let now = self.now();
        self.reset_at(now);
        now
    }

    /// Whether at `now` the book has been idle for at least the timeout.
    pub fn is_timed_out_at(&self, now: u128) -> (fired: bool)
        ensures
            fired == self@.timed_out_at(now),
    {
        let idle: u128 = if now >= self.last_activity {
            now - self.last_activity
        } else {
            0
        };
        idle >= self.timeout_duration
    }

    /// Whether the book has by now been idle for at least the timeout: the
    /// answer of the rule at the time that the watchdog's clock shows.
    pub fn is_timed_out(&self) -> (fired: bool)
        ensures
            exists|now: u128| fired == #[trigger] self@.timed_out_at(now),
            self@.timeout_duration == 0 ==> fired,
            self@.timeout_duration > u128::MAX - self@.last_activity ==> !fired,
    {
        let now = self.now();
        self.is_timed_out_at(now)
    }
}

/// Why no snapshot could be had.
#[derive(Debug, Clone, Copy, PartialEq, Eq, Structural)]
pub enum SnapshotError {
    /// The snapshot endpoint could not be reached or did not answer.
    FetchFailed,
    /// The answer was not a snapshot.
    ParseFailed,
}

impl EngineView {
    /// The engine with its book re-seated from `snapshot`, ready to take the
    /// first update that covers the next sequence number.
    pub open spec fn reseat(self, snapshot: SnapshotView) -> EngineView {
        EngineView {
            pending: self.pending,
            book: self.book.apply_snapshot(snapshot),
            state: InstrumentState::JustRecovered,
        }
    }

    /// The engine after a recovery that could not get a snapshot: it goes
    /// back to normal operation with everything else untouched.
    pub open spec fn give_up_recovery(self) -> EngineView {
        EngineView { state: InstrumentState::Normal, ..self }
    }
}

/// Whether recovery is due before anything else: only a new instrument needs it.
pub fn needs_initial_recovery(state: &InstrumentState) -> (needed: bool)
    ensures
        needed == (*state == InstrumentState::JustStarted),
{
    match state {
        InstrumentState::JustStarted => true,
        _ => false,
    }
}

/// Enters recovery. Returns `false`, and changes nothing, when a recovery is
/// already under way; otherwise the drain is blocked from now on and the
/// caller goes on to fetch a snapshot.
pub fn begin_recovery(state: &mut InstrumentState) -> (begun: bool)
    ensures
        begun == (*old(state) != InstrumentState::Recovering),
        *final(state) == InstrumentState::Recovering,
{
    match state {
        InstrumentState::Recovering => false,
        _ => {
            *state = InstrumentState::Recovering;
            true
        },
    }
}

/// What the monitor has just come to.
#[derive(Debug, Clone, Copy, PartialEq, Eq, Structural)]
pub enum MonitorEvent {
    /// The monitor has started.
    Started,
    /// The monitor has slept for the timeout and woken up.
    Woke,
}

/// What the monitor does next.
#[derive(Debug, Clone, Copy, PartialEq, Eq, Structural)]
pub enum MonitorAction {
    /// Recovery has begun: fetch a snapshot and finish the recovery with it.
    Recover,
    /// Nothing is due: sleep for the timeout.
    Wait,
}

/// Whether the monitor starts a recovery: at its start for a new instrument,
/// and after a sleep when the watchdog has fired and no recovery is under
/// way already.
pub open spec fn recovery_due(
    event: MonitorEvent,
    state: InstrumentState,
    timed_out: bool,
) -> bool {
    match event {
        MonitorEvent::Started => state == InstrumentState::JustStarted,
        MonitorEvent::Woke => timed_out && state != InstrumentState::Recovering,
    }
}

/// One decision of the monitor, at time `now`. Where recovery is due the
/// instrument enters recovery and the caller is told to fetch a snapshot;
/// otherwise nothing changes.
pub fn monitor_step_at(
    event: MonitorEvent,
    state: &mut InstrumentState,
    timeout_state: &TimeoutState,
    now: u128,
) -> (action: MonitorAction)
    ensures
        recovery_due(event, *old(state), timeout_state@.timed_out_at(now)) ==> action
            == MonitorAction::Recover && *final(state) == InstrumentState::Recovering,
        !recovery_due(event, *old(state), timeout_state@.timed_out_at(now)) ==> action
            == MonitorAction::Wait && *final(state) == *old(state),
{
    let due = match event {
        MonitorEvent::Started => needs_initial_recovery(state),
        MonitorEvent::Woke => timeout_state.is_timed_out_at(now),
    };
    if due && begin_recovery(state) {
        MonitorAction::Recover
    } else {
        MonitorAction::Wait
    }
}

/// One decision of the monitor, by the watchdog's own clock. Where recovery
/// is due the instrument enters recovery and the caller is told to fetch a
/// snapshot; otherwise nothing changes.
pub fn monitor_step(
    event: MonitorEvent,
    state: &mut InstrumentState,
    timeout_state: &TimeoutState,
) -> (action: MonitorAction)
    ensures
        event == MonitorEvent::Started ==> (action == MonitorAction::Recover <==> *old(state)
            == InstrumentState::JustStarted),
        action == MonitorAction::Recover ==> *final(state) == InstrumentState::Recovering && *old(
            state,
        ) != InstrumentState::Recovering,
        action == MonitorAction::Wait ==> *final(state) == *old(state),
        event == MonitorEvent::Woke && timeout_state@.timeout_duration == 0 && *old(state)
            != InstrumentState::Recovering ==> action == MonitorAction::Recover,
{
    let now: u128 = match event {
        MonitorEvent::Started => 0,
        MonitorEvent::Woke => timeout_state.now(),
    };
    monitor_step_at(event, state, timeout_state, now)
}

/// Finishes a recovery with what the fetch brought, at time `now`.
///
/// With a snapshot: the book is re-seated from it, the instrument is marked
/// as just recovered, the watchdog is reset, and the buffer is drained; the
/// number of updates offered to the book is returned. Without one: the
/// instrument goes back to normal operation, so that the watchdog fires
/// again, and the error is handed back.
pub fn recover_order_book_at(
    fetched: Result<Snapshot, SnapshotError>,
    order_book: &mut OrderBook,
    event_buffer: &mut EventBuffer,
    state: &mut InstrumentState,
    timeout_state: &mut TimeoutState,
    now: u128,
) -> (outcome: Result<usize, SnapshotError>)
    ensures
        ({
            let start = EngineView {
                pending: old(event_buffer)@,
                book: old(order_book)@,
                state: *old(state),
            };
            let end = EngineView {
                pending: final(event_buffer)@,
                book: final(order_book)@,
                state: *final(state),
            };
            match fetched {
                Ok(snapshot) => {
                    &&& end == start.reseat(snapshot@).drain()
                    &&& outcome == Ok::<usize, SnapshotError>(
                        start.reseat(snapshot@).drain_log().len() as usize,
                    )
                    &&& final(timeout_state)@ == (TimeoutView {
                        last_activity: now,
                        ..old(timeout_state)@
                    })
                },
                Err(error) => {
                    &&& end == start.give_up_recovery()
                    &&& outcome == Err::<usize, SnapshotError>(error)
                    &&& final(timeout_state)@ == old(timeout_state)@
                },
            }
        }),
        fetched matches Ok(snapshot) ==> final(order_book)@.last_applied_id
            >= snapshot@.last_update_id && final(order_book)@.quantities_positive(),
        in_sequence_order(old(event_buffer)@) ==> in_sequence_order(final(event_buffer)@),
{
    match fetched {
        Ok(snapshot) => {
            order_book.apply_snapshot(&snapshot);
            *state = InstrumentState::JustRecovered;
            timeout_state.reset_at(now);
            let applied = event_buffer.process_buffered_updates_at(
                order_book,
                state,
                timeout_state,
                now,
            );
            Ok(applied)
        },
        Err(error) => {
            *state = InstrumentState::Normal;
            Err(error)
        },
    }
}

/// Finishes a recovery with what the fetch brought.
///
/// With a snapshot: the book is re-seated from it, the instrument is marked
/// as just recovered, the watchdog is reset to the present time, and the
/// buffer is drained; the number of updates offered to the book is returned.
/// Without one: the instrument goes back to normal operation, so that the
/// watchdog fires again, and the error is handed back.
pub fn recover_order_book(
    fetched: Result<Snapshot, SnapshotError>,
    order_book: &mut OrderBook,
    event_buffer: &mut EventBuffer,
    state: &mut InstrumentState,
    timeout_state: &mut TimeoutState,
) -> (outcome: Result<usize, SnapshotError>)
    ensures
        ({
            let start = EngineView {
                pending: old(event_buffer)@,
                book: old(order_book)@,
                state: *old(state),
            };
            let end = EngineView {
                pending: final(event_buffer)@,
                book: final(order_book)@,
                state: *final(state),
            };
            match fetched {
                Ok(snapshot) => {
                    &&& end == start.reseat(snapshot@).drain()
                    &&& outcome == Ok::<usize, SnapshotError>(
                        start.reseat(snapshot@).drain_log().len() as usize,
                    )
                    &&& final(timeout_state)@.timeout_duration == old(
                        timeout_state,
                    )@.timeout_duration
                },
                Err(error) => {
                    &&& end == start.give_up_recovery()
                    &&& outcome == Err::<usize, SnapshotError>(error)
                    &&& final(timeout_state)@ == old(timeout_state)@
                },
            }
        }),
        fetched matches Ok(snapshot) ==> final(order_book)@.last_applied_id
            >= snapshot@.last_update_id && final(order_book)@.quantities_positive(),
        in_sequence_order(old(event_buffer)@) ==> in_sequence_order(final(event_buffer)@),
{
    match fetched {
        Ok(snapshot) => {
            order_book.apply_snapshot(&snapshot);
            *state = InstrumentState::JustRecovered;
            timeout_state.reset();
            let applied = event_buffer.process_buffered_updates(order_book, state, timeout_state);
            Ok(applied)
        },
        Err(error) => {
            *state = InstrumentState::Normal;
            Err(error)
        },
    }
}

} // verus!

//! The buffer of updates that cannot be applied yet, and the loop that
//! drains it against the book.

use crate::messages::{OrderBookUpdate, UpdateView};
use crate::order_book::{lemma_upsert_levels_positive, BookView, InstrumentState, OrderBook};
pub use crate::prioritized::PrioritizedOrderBookUpdate;
use crate::recovery::{TimeoutState, TimeoutView};
use std::collections::VecDeque;
use vstd::prelude::*;

verus! {

/// What the drain does with the update at the head of the buffer.
#[derive(Debug, Clone, Copy, PartialEq, Eq, Structural)]
pub enum DrainDecision {
    /// Take the update out and offer it to the book.
    Apply,
    /// Take the update out and drop it: the book is already past it.
    Discard,
    /// Leave the update where it is and end the drain.
    Stop,
}

/// The decision for a head update covering `first_trade_id ..= last_trade_id`
/// when the book's cursor is `cursor`.
///
/// After a recovery the first update that covers the next sequence number is
/// applied; in normal operation only the update that starts exactly there.
/// An update that starts later is waited for, one that cannot contribute
/// any more is discarded. While recovery is pending nothing is applied.
pub open spec fn drain_decision(
    state: InstrumentState,
    cursor: u64,
    first_trade_id: u64,
    last_trade_id: u64,
) -> DrainDecision {
    let next = cursor + 1;
    match state {
        InstrumentState::JustRecovered => {
            if first_trade_id <= next && next <= last_trade_id {
                DrainDecision::Apply
            } else if first_trade_id > next {
                DrainDecision::Stop
            } else {
                DrainDecision::Discard
            }
        },
        InstrumentState::Normal => {
            if first_trade_id == next {
                DrainDecision::Apply
            } else if first_trade_id > next {
                DrainDecision::Stop
            } else {
                DrainDecision::Discard
            }
        },
        InstrumentState::Recovering => DrainDecision::Stop,
        InstrumentState::JustStarted => DrainDecision::Stop,
    }
}

/// Decides what the drain does with a head update covering
/// `first_trade_id ..= last_trade_id` when the book's cursor is `cursor`.
pub fn decide(state: InstrumentState, cursor: u64, first_trade_id: u64, last_trade_id: u64) -> (d:
    DrainDecision)
    ensures
        d == drain_decision(state, cursor, first_trade_id, last_trade_id),
{
    match state {
        InstrumentState::Recovering => DrainDecision::Stop,
        InstrumentState::JustStarted => DrainDecision::Stop,
        InstrumentState::JustRecovered => {
            if cursor == u64::MAX {
                DrainDecision::Discard
            } else if first_trade_id <= cursor + 1 && cursor + 1 <= last_trade_id {
                DrainDecision::Apply
            } else if first_trade_id > cursor + 1 {
                DrainDecision::Stop
            } else {
                DrainDecision::Discard
            }
        },
        InstrumentState::Normal => {
            if cursor == u64::MAX {
                DrainDecision::Discard
            } else if first_trade_id == cursor + 1 {
                DrainDecision::Apply
            } else if first_trade_id > cursor + 1 {
                DrainDecision::Stop
            } else {
                DrainDecision::Discard
            }
        },
    }
}

/// The pending updates leave the buffer by ascending first sequence number.
pub open spec fn in_sequence_order(pending: Seq<UpdateView>) -> bool {
    forall|i: int, j: int|
        0 <= i < j < pending.len() ==> pending[i].first_trade_id <= pending[j].first_trade_id
}

/// Where an update that starts at `first_trade_id` joins the queue: behind
/// the last pending update that does not start after it.
pub open spec fn queue_position(pending: Seq<UpdateView>, first_trade_id: u64) -> int
    decreases pending.len(),
{
    if pending.len() == 0 {
        0
    } else if pending.last().first_trade_id <= first_trade_id {
        pending.len() as int
    } else {
        queue_position(pending.drop_last(), first_trade_id)
    }
}

/// The queue after `update` has joined it.
pub open spec fn enqueue(pending: Seq<UpdateView>, update: UpdateView) -> Seq<UpdateView> {
    pending.insert(queue_position(pending, update.first_trade_id), update)
}

/// The book, the buffer and the instrument state taken together.
pub struct EngineView {
    /// The buffered updates, the next one to leave first.
    pub pending: Seq<UpdateView>,
    pub book: BookView,
    pub state: InstrumentState,
}

impl EngineView {
    /// The decision for the update at the head of the buffer.
    pub open spec fn head_decision(self) -> DrainDecision
        recommends
            self.pending.len() > 0,
    {
        drain_decision(
            self.state,
            self.book.last_applied_id,
            self.pending[0].first_trade_id,
            self.pending[0].last_trade_id,
        )
    }

    /// The drain has nothing to do: the buffer is empty or its head must wait.
    pub open spec fn is_settled(self) -> bool {
        self.pending.len() == 0 || self.head_decision() == DrainDecision::Stop
    }

    /// The engine after one turn of the drain. An applied update is offered
    /// to the book and leaves the instrument in normal operation.
    pub open spec fn step(self) -> EngineView {
        if self.is_settled() {
            self
        } else if self.head_decision() == DrainDecision::Apply {
            EngineView {
                pending: self.pending.drop_first(),
                book: self.book.apply_update(self.pending[0]),
                state: InstrumentState::Normal,
            }
        } else {
            EngineView { pending: self.pending.drop_first(), ..self }
        }
    }

    /// The engine after the drain has run until it settled.
    pub open spec fn drain(self) -> EngineView
        decreases self.pending.len(),
    {
        if self.is_settled() {
            self
        } else {
            self.step().drain()
        }
    }

    /// The updates that the drain offers to the book, in the order in which
    /// it does so.
    pub open spec fn drain_log(self) -> Seq<UpdateView>
        decreases self.pending.len(),
    {
        if self.is_settled() {
            Seq::empty()
        } else if self.head_decision() == DrainDecision::Apply {
            seq![self.pending[0]] + self.step().drain_log()
        } else {
            self.step().drain_log()
        }
    }

    /// The engine after `update` was buffered and the buffer drained.
    pub open spec fn ingest(self, update: UpdateView) -> EngineView {
        (EngineView { pending: enqueue(self.pending, update), ..self }).drain()
    }
}

/// What `queue_position` finds: everything from there on starts later, and
/// the update just before it does not.
pub proof fn lemma_queue_position(pending: Seq<UpdateView>, first_trade_id: u64)
    ensures
        0 <= queue_position(pending, first_trade_id) <= pending.len(),
        queue_position(pending, first_trade_id) > 0 ==> pending[queue_position(
            pending,
            first_trade_id,
        ) - 1].first_trade_id <= first_trade_id,
        forall|i: int|
            queue_position(pending, first_trade_id) <= i < pending.len()
                ==> pending[i].first_trade_id > first_trade_id,
    decreases pending.len(),
{
    if pending.len() > 0 && pending.last().first_trade_id > first_trade_id {
        let shorter = pending.drop_last();
        lemma_queue_position(shorter, first_trade_id);
        let at = queue_position(pending, first_trade_id);
        assert forall|i: int| at <= i < pending.len() implies pending[i].first_trade_id
            > first_trade_id by {
            if i < shorter.len() {
                assert(shorter[i] == pending[i]);
            }
        }
    }
}

/// A position with the two properties of `lemma_queue_position` is the
/// queue position.
proof fn lemma_queue_position_unique(pending: Seq<UpdateView>, first_trade_id: u64, at: int)
    requires
        0 <= at <= pending.len(),
        at > 0 ==> pending[at - 1].first_trade_id <= first_trade_id,
        forall|i: int| at <= i < pending.len() ==> pending[i].first_trade_id > first_trade_id,
    ensures
        queue_position(pending, first_trade_id) == at,
    decreases pending.len(),
{
    if pending.len() > 0 && pending.last().first_trade_id > first_trade_id {
        lemma_queue_position_unique(pending.drop_last(), first_trade_id, at);
    }
}

/// Joining the queue keeps it in sequence order.
pub proof fn lemma_enqueue_keeps_order(pending: Seq<UpdateView>, update: UpdateView)
    requires
        in_sequence_order(pending),
    ensures
        in_sequence_order(enqueue(pending, update)),
{
    lemma_queue_position(pending, update.first_trade_id);
}

/// Dropping the head keeps a buffer in sequence order.
proof fn lemma_tail_keeps_order(pending: Seq<UpdateView>)
    requires
        in_sequence_order(pending),
        pending.len() > 0,
    ensures
        in_sequence_order(pending.drop_first()),
{
    let tail = pending.drop_first();
    assert forall|i: int, j: int| 0 <= i < j < tail.len() implies tail[i].first_trade_id
        <= tail[j].first_trade_id by {
        assert(tail[i] == pending[i + 1]);
        assert(tail[j] == pending[j + 1]);
    }
}

/// The drain ends settled, and draining once more changes nothing.
pub proof fn lemma_drain_settles(engine: EngineView)
    ensures
        engine.drain().is_settled(),
        engine.drain().drain() == engine.drain(),
        engine.drain().drain_log() == Seq::<UpdateView>::empty(),
    decreases engine.pending.len(),
{
    if !engine.is_settled() {
        lemma_drain_settles(engine.step());
    }
}

/// What the drain leaves in the buffer is still in sequence order; it never
/// moves the cursor back, and it keeps the stored quantities positive.
pub proof fn lemma_drain_keeps_invariants(engine: EngineView)
    ensures
        in_sequence_order(engine.pending) ==> in_sequence_order(engine.drain().pending),
        engine.drain().book.last_applied_id >= engine.book.last_applied_id,
        engine.book.quantities_positive() ==> engine.drain().book.quantities_positive(),
    decreases engine.pending.len(),
{
    if !engine.is_settled() {
        let next = engine.step();
        lemma_drain_keeps_invariants(next);
        if in_sequence_order(engine.pending) {
            lemma_tail_keeps_order(engine.pending);
        }
        if engine.book.quantities_positive() && engine.head_decision() == DrainDecision::Apply {
            lemma_upsert_levels_positive(engine.book.bids, engine.pending[0].bids);
            lemma_upsert_levels_positive(engine.book.asks, engine.pending[0].asks);
        }
    }
}

/// Buffering an update and draining keeps the buffer in sequence order.
pub proof fn lemma_ingest_keeps_order(engine: EngineView, update: UpdateView)
    requires
        in_sequence_order(engine.pending),
    ensures
        in_sequence_order(engine.ingest(update).pending),
{
    lemma_enqueue_keeps_order(engine.pending, update);
    lemma_drain_keeps_invariants(EngineView { pending: enqueue(engine.pending, update), ..engine });
}

/// From a buffer in sequence order, the drain offers updates to the book by
/// ascending first sequence number, and none that starts before the head.
pub proof fn lemma_drain_applies_in_order(engine: EngineView)
    requires
        in_sequence_order(engine.pending),
    ensures
        in_sequence_order(engine.drain_log()),
        forall|i: int|
            0 <= i < engine.drain_log().len() ==> engine.pending.len() > 0 && (
            #[trigger] engine.drain_log()[i]).first_trade_id >= engine.pending[0].first_trade_id,
    decreases engine.pending.len(),
{
    if !engine.is_settled() {
        let next = engine.step();
        lemma_tail_keeps_order(engine.pending);
        lemma_drain_applies_in_order(next);
        if next.pending.len() > 0 {
            assert(next.pending[0] == engine.pending[1]);
        }
    }
}

/// The book has moved past `update`: offered again at the head of the
/// buffer, it would change nothing.
spec fn is_spent(state: InstrumentState, cursor: u64, update: UpdateView) -> bool {
    ||| state == InstrumentState::Normal && update.first_trade_id <= cursor
    ||| state == InstrumentState::JustRecovered && update.first_trade_id <= cursor + 1
        && update.last_trade_id <= cursor
    ||| state == InstrumentState::Normal && update.first_trade_id == cursor + 1
        && update.last_trade_id <= cursor
}

/// `update` has reached the engine before: it still waits in the buffer, or
/// the book has moved past it.
spec fn has_met(engine: EngineView, update: UpdateView) -> bool {
    engine.pending.contains(update) || is_spent(
        engine.state,
        engine.book.last_applied_id,
        update,
    )
}

/// An update that the engine has met before the drain, it has met after it;
/// and the drain ends settled with its buffer in sequence order.
proof fn lemma_drain_remembers(engine: EngineView, update: UpdateView)
    requires
        in_sequence_order(engine.pending),
        has_met(engine, update),
    ensures
        in_sequence_order(engine.drain().pending),
        engine.drain().is_settled(),
        has_met(engine.drain(), update),
    decreases engine.pending.len(),
{
    if !engine.is_settled() {
        let next = engine.step();
        lemma_tail_keeps_order(engine.pending);
        if engine.pending.contains(update) && !is_spent(
            engine.state,
            engine.book.last_applied_id,
            update,
        ) {
            let at = choose|at: int| 0 <= at < engine.pending.len() && engine.pending[at] == update;
            if at > 0 {
                assert(next.pending[at - 1] == update);
            }
        }
        lemma_drain_remembers(next, update);
    }
}

/// An update that a settled engine has met changes nothing in the book when
/// it is ingested again, and the engine has still met it afterwards.
proof fn lemma_met_again(engine: EngineView, update: UpdateView)
    requires
        in_sequence_order(engine.pending),
        engine.is_settled(),
        has_met(engine, update),
    ensures
        engine.ingest(update).book == engine.book,
        in_sequence_order(engine.ingest(update).pending),
        engine.ingest(update).is_settled(),
        has_met(engine.ingest(update), update),
{
    let queued = EngineView { pending: enqueue(engine.pending, update), ..engine };
    let at = queue_position(engine.pending, update.first_trade_id);
    lemma_queue_position(engine.pending, update.first_trade_id);
    lemma_enqueue_keeps_order(engine.pending, update);
    assert(queued.pending[at] == update);
    lemma_drain_remembers(queued, update);
    if engine.pending.contains(update) {
        let seen = choose|seen: int|
            0 <= seen < engine.pending.len() && engine.pending[seen] == update;
        assert(seen < at);
        assert(queued.pending[0] == engine.pending[0]);
        assert(queued.is_settled());
    } else {
        if engine.pending.len() > 0 {
            let head = engine.pending[0];
            assert forall|i: int| 0 <= i < engine.pending.len() implies update.first_trade_id
                < engine.pending[i].first_trade_id by {
                assert(head.first_trade_id <= engine.pending[i].first_trade_id);
            }
        }
        assert(at == 0);
        assert(queued.pending.drop_first() =~= engine.pending);
        assert(queued.step() == engine);
        assert(engine.drain() == engine);
        assert(queued.drain() == queued.step().drain());
    }
}

/// Buffering another update and draining does not make the engine forget
/// an update that it has met.
proof fn lemma_ingest_remembers(engine: EngineView, update: UpdateView, other: UpdateView)
    requires
        in_sequence_order(engine.pending),
        has_met(engine, update),
    ensures
        in_sequence_order(engine.ingest(other).pending),
        engine.ingest(other).is_settled(),
        has_met(engine.ingest(other), update),
{
    let queued = EngineView { pending: enqueue(engine.pending, other), ..engine };
    let at = queue_position(engine.pending, other.first_trade_id);
    lemma_queue_position(engine.pending, other.first_trade_id);
    lemma_enqueue_keeps_order(engine.pending, other);
    if engine.pending.contains(update) {
        let seen = choose|seen: int|
            0 <= seen < engine.pending.len() && engine.pending[seen] == update;
        if seen < at {
            assert(queued.pending[seen] == update);
        } else {
            assert(queued.pending[seen + 1] == update);
        }
    }
    lemma_drain_remembers(queued, update);
}

/// After an update and any others behind it have been ingested, the engine
/// is settled, its buffer is in sequence order, and it has met the update.
proof fn lemma_ingests_remember(engine: EngineView, update: UpdateView, others: Seq<UpdateView>)
    requires
        in_sequence_order(engine.pending),
    ensures
        in_sequence_order(engine.ingest(update).ingest_all(others).pending),
        engine.ingest(update).ingest_all(others).is_settled(),
        has_met(engine.ingest(update).ingest_all(others), update),
    decreases others.len(),
{
    if others.len() == 0 {
        let queued = EngineView { pending: enqueue(engine.pending, update), ..engine };
        let at = queue_position(engine.pending, update.first_trade_id);
        lemma_queue_position(engine.pending, update.first_trade_id);
        lemma_enqueue_keeps_order(engine.pending, update);
        assert(queued.pending[at] == update);
        lemma_drain_remembers(queued, update);
    } else {
        lemma_ingests_remember(engine, update, others.drop_last());
        lemma_ingest_remembers(
            engine.ingest(update).ingest_all(others.drop_last()),
            update,
            others.last(),
        );
    }
}

impl EngineView {
    /// The engine after the updates were ingested one after the other.
    pub open spec fn ingest_all(self, updates: Seq<UpdateView>) -> EngineView
        decreases updates.len(),
    {
        if updates.len() == 0 {
            self
        } else {
            self.ingest_all(updates.drop_last()).ingest(updates.last())
        }
    }

    /// The engine after `update` was ingested `times` times in a row.
    pub open spec fn ingest_times(self, update: UpdateView, times: nat) -> EngineView
        decreases times,
    {
        if times == 0 {
            self
        } else {
            self.ingest_times(update, (times - 1) as nat).ingest(update)
        }
    }
}

/// An update that arrives once more, after it and any number of other
/// updates have been ingested, leaves the book as it is: what a second
/// connection delivers late changes nothing.
pub proof fn lemma_late_duplicate(engine: EngineView, update: UpdateView, others: Seq<UpdateView>)
    requires
        in_sequence_order(engine.pending),
    ensures
        engine.ingest(update).ingest_all(others).ingest(update).book == engine.ingest(
            update,
        ).ingest_all(others).book,
{
    lemma_ingests_remember(engine, update, others);
    lemma_met_again(engine.ingest(update).ingest_all(others), update);
}

/// An update that is ingested a second time right after the first leaves
/// the book as the first ingest left it.
pub proof fn lemma_duplicate_ingest(engine: EngineView, update: UpdateView)
    requires
        in_sequence_order(engine.pending),
    ensures
        engine.ingest(update).ingest(update).book == engine.ingest(update).book,
{
    lemma_late_duplicate(engine, update, Seq::empty());
}

/// Whatever is ingested, and in whatever order it arrives, the buffer stays
/// in sequence order, and the drain that follows each arrival offers updates
/// to the book by ascending first sequence number.
pub proof fn lemma_ingests_apply_in_order(engine: EngineView, updates: Seq<UpdateView>)
    requires
        in_sequence_order(engine.pending),
    ensures
        in_sequence_order(engine.ingest_all(updates).pending),
        updates.len() > 0 ==> in_sequence_order(
            (EngineView {
                pending: enqueue(engine.ingest_all(updates.drop_last()).pending, updates.last()),
                ..engine.ingest_all(updates.drop_last())
            }).drain_log(),
        ),
    decreases updates.len(),
{
    if updates.len() > 0 {
        let before = engine.ingest_all(updates.drop_last());
        lemma_ingests_apply_in_order(engine, updates.drop_last());
        lemma_enqueue_keeps_order(before.pending, updates.last());
        lemma_drain_applies_in_order(
            EngineView { pending: enqueue(before.pending, updates.last()), ..before },
        );
        lemma_ingest_keeps_order(before, updates.last());
    }
}

/// However often the same update is ingested in a row, the book ends as
/// one ingest leaves it.
pub proof fn lemma_duplicates_change_nothing(engine: EngineView, update: UpdateView, times: nat)
    requires
        in_sequence_order(engine.pending),
        times >= 1,
    ensures
        engine.ingest_times(update, times).book == engine.ingest(update).book,
        in_sequence_order(engine.ingest_times(update, times).pending),
    decreases times,
{
    if times == 1 {
        assert(engine.ingest_times(update, 0) == engine);
        lemma_ingest_keeps_order(engine, update);
    } else {
        let once_less = engine.ingest_times(update, (times - 2) as nat);
        assert(engine.ingest_times(update, (times - 1) as nat) == once_less.ingest(update));
        lemma_duplicates_change_nothing(engine, update, (times - 1) as nat);
        if times == 2 {
            assert(once_less == engine);
        } else {
            lemma_duplicates_change_nothing(engine, update, (times - 2) as nat);
        }
        lemma_duplicate_ingest(once_less, update);
        lemma_ingest_keeps_order(once_less.ingest(update), update);
    }
}

/// Updates received from the feed and not yet applied, kept in the order in
/// which the drain will look at them.
#[derive(Debug)]
pub struct EventBuffer {
    /// The queue, its head at the front.
    buffer: VecDeque<PrioritizedOrderBookUpdate>,
}

impl View for EventBuffer {
    type V = Seq<UpdateView>;

    closed spec fn view(&self) -> Seq<UpdateView> {
        Seq::new(self.buffer@.len(), |i: int| self.buffer@[i]@)
    }
}

impl EventBuffer {
    /// An empty buffer.
    pub fn new() -> (buffer: Self)
        ensures
            buffer@ == Seq::<UpdateView>::empty(),
            in_sequence_order(buffer@),
    {
        let buffer = Self { buffer: VecDeque::new() };
        assert(buffer@ =~= Seq::<UpdateView>::empty());
        buffer
    }

    /// The number of buffered updates.
    pub fn len(&self) -> (n: usize)
        ensures
            n == self@.len(),
    {
        self.buffer.len()
    }

    /// Whether nothing is buffered.
    pub fn is_empty(&self) -> (empty: bool)
        ensures
            empty == (self@.len() == 0),
    {
        self.buffer.len() == 0
    }

    /// The update that the drain will look at next.
    pub fn peek(&self) -> (head: Option<&OrderBookUpdate>)
        ensures
            match head {
                Some(update) => self@.len() > 0 && update@ == self@[0],
                None => self@.len() == 0,
            },
    {
        if self.buffer.len() == 0 {
            None
        } else {
            Some(&self.buffer[0].0)
        }
    }

    /// Buffers an update behind every pending update that does not start
    /// after it.
    pub fn push(&mut self, update: OrderBookUpdate)
        ensures
            final(self)@ == enqueue(old(self)@, update@),
            in_sequence_order(old(self)@) ==> in_sequence_order(final(self)@),
    {
        let entry = PrioritizedOrderBookUpdate(update);
        let mut at: usize = self.buffer.len();
        while at > 0 && self.buffer[at - 1] < entry
            invariant
                *self == *old(self),
                at <= self.buffer@.len(),
                forall|k: int|
                    at <= k < self.buffer@.len() ==> self.buffer@[k]@.first_trade_id
                        > entry@.first_trade_id,
            decreases at,
        {
            at -= 1;
        }
        proof {
            lemma_queue_position_unique(self@, entry@.first_trade_id, at as int);
            if in_sequence_order(self@) {
                lemma_enqueue_keeps_order(self@, entry@);
            }
        }
        self.buffer.insert(at, entry);
        assert(self@ =~= enqueue(old(self)@, update@));
    }

    /// Takes out the update that the drain would look at next.
    pub fn pop(&mut self) -> (head: Option<OrderBookUpdate>)
        ensures
            match head {
                Some(update) => old(self)@.len() > 0 && update@ == old(self)@[0] && final(self)@
                    == old(self)@.drop_first(),
                None => old(self)@.len() == 0 && final(self)@ == old(self)@,
            },
            in_sequence_order(old(self)@) ==> in_sequence_order(final(self)@),
    {
        match self.buffer.pop_front() {
            Some(entry) => {
                assert(self@ =~= old(self)@.drop_first());
                Some(entry.0)
            },
            None => None,
        }
    }

    /// Runs the drain until the buffer is empty or its head must wait.
    /// Returns how many updates were offered to the book.
    fn drain(&mut self, order_book: &mut OrderBook, state: &mut InstrumentState) -> (applied: usize)
        ensures
            ({
                let start = EngineView {
                    pending: old(self)@,
                    book: old(order_book)@,
                    state: *old(state),
                };
                &&& final(self)@ == start.drain().pending
                &&& final(order_book)@ == start.drain().book
                &&& *final(state) == start.drain().state
                &&& applied == start.drain_log().len()
            }),
    {
        let ghost start = EngineView { pending: self@, book: order_book@, state: *state };
        let ghost mut log: Seq<UpdateView> = Seq::empty();
        let total = self.buffer.len();
        let mut applied: usize = 0;
        loop
            invariant
                (EngineView { pending: self@, book: order_book@, state: *state }).drain()
                    == start.drain(),
                log + (EngineView { pending: self@, book: order_book@, state: *state }).drain_log()
                    == start.drain_log(),
                applied == log.len(),
                applied + self.buffer@.len() <= total,
            ensures
                (EngineView { pending: self@, book: order_book@, state: *state }).is_settled(),
            decreases self.buffer@.len(),
        {
            let ghost now = EngineView { pending: self@, book: order_book@, state: *state };
            if self.buffer.len() == 0 {
                break ;
            }
            let head = &self.buffer[0].0;
            let decision = decide(
                *state,
                order_book.last_applied_id(),
                head.first_trade_id,
                head.last_trade_id,
            );
            match decision {
                DrainDecision::Stop => {
                    break ;
                },
                DrainDecision::Discard => {
                    self.buffer.pop_front();
                    assert(self@ =~= now.pending.drop_first());
                },
                DrainDecision::Apply => {
                    let entry = self.buffer.pop_front().unwrap();
                    assert(self@ =~= now.pending.drop_first());
                    // The decision to apply rules a gap out: the book cannot refuse.
                    let offered = order_book.apply_update(&entry.0);
                    assert(offered is Ok);
                    *state = InstrumentState::Normal;
                    applied += 1;
                    proof {
                        assert(log.push(entry@) + now.step().drain_log() =~= log
                            + now.drain_log());
                        log = log.push(entry@);
                    }
                },
            }
        }
        proof {
            let end = EngineView { pending: self@, book: order_book@, state: *state };
            assert(log + end.drain_log() =~= log);
        }
        applied
    }

    /// Applies every buffered update that has become eligible, in queue
    /// order, and drops those the book is already past. The drain ends at the
    /// first update that must wait, and does nothing while recovery is
    /// pending. Returns how many updates were offered to the book; if there
    /// was one, `now` becomes the watchdog's time of last activity.
    pub fn process_buffered_updates_at(
        &mut self,
        order_book: &mut OrderBook,
        state: &mut InstrumentState,
        timeout_state: &mut TimeoutState,
        now: u128,
    ) -> (applied: usize)
        ensures
            ({
                let start = EngineView {
                    pending: old(self)@,
                    book: old(order_book)@,
                    state: *old(state),
                };
                &&& final(self)@ == start.drain().pending
                &&& final(order_book)@ == start.drain().book
                &&& *final(state) == start.drain().state
                &&& applied == start.drain_log().len()
            }),
            in_sequence_order(old(self)@) ==> in_sequence_order(final(self)@),
            final(order_book)@.last_applied_id >= old(order_book)@.last_applied_id,
            old(order_book)@.quantities_positive() ==> final(order_book)@.quantities_positive(),
            applied == 0 ==> final(timeout_state)@ == old(timeout_state)@,
            applied > 0 ==> final(timeout_state)@ == (TimeoutView {
                last_activity: now,
                ..old(timeout_state)@
            }),
    {
        proof {
            lemma_drain_keeps_invariants(
                EngineView { pending: self@, book: order_book@, state: *state },
            );
        }
        let applied = self.drain(order_book, state);
        if applied > 0 {
            timeout_state.reset_at(now);
        }
        applied
    }

    /// Applies every buffered update that has become eligible, in queue
    /// order, and drops those the book is already past. The drain ends at the
    /// first update that must wait, and does nothing while recovery is
    /// pending. Returns how many updates were offered to the book; if there
    /// was one, the watchdog is reset to the present time.
    pub fn process_buffered_updates(
        &mut self,
        order_book: &mut OrderBook,
        state: &mut InstrumentState,
        timeout_state: &mut TimeoutState,
    ) -> (applied: usize)
        ensures
            ({
                let start = EngineView {
                    pending: old(self)@,
                    book: old(order_book)@,
                    state: *old(state),
                };
                &&& final(self)@ == start.drain().pending
                &&& final(order_book)@ == start.drain().book
                &&& *final(state) == start.drain().state
                &&& applied == start.drain_log().len()
            }),
            in_sequence_order(old(self)@) ==> in_sequence_order(final(self)@),
            final(order_book)@.last_applied_id >= old(order_book)@.last_applied_id,
            old(order_book)@.quantities_positive() ==> final(order_book)@.quantities_positive(),
            applied == 0 ==> final(timeout_state)@ == old(timeout_state)@,
            final(timeout_state)@.timeout_duration == old(timeout_state)@.timeout_duration,
    {
        proof {
            lemma_drain_keeps_invariants(
                EngineView { pending: self@, book: order_book@, state: *state },
            );
        }
        let applied = self.drain(order_book, state);
        if applied > 0 {
            timeout_state.reset();
        }
        applied
    }

    /// Buffers `update`, then drains the buffer; `now` is the time of the call.
    pub fn buffer_and_process_update_at(
        &mut self,
        update: OrderBookUpdate,
        order_book: &mut OrderBook,
        state: &mut InstrumentState,
        timeout_state: &mut TimeoutState,
        now: u128,
    ) -> (applied: usize)
        ensures
            ({
                let start = EngineView {
                    pending: old(self)@,
                    book: old(order_book)@,
                    state: *old(state),
                };
                let queued = EngineView { pending: enqueue(old(self)@, update@), ..start };
                &&& final(self)@ == start.ingest(update@).pending
                &&& final(order_book)@ == start.ingest(update@).book
                &&& *final(state) == start.ingest(update@).state
                &&& applied == queued.drain_log().len()
            }),
            in_sequence_order(old(self)@) ==> in_sequence_order(final(self)@),
            final(order_book)@.last_applied_id >= old(order_book)@.last_applied_id,
            old(order_book)@.quantities_positive() ==> final(order_book)@.quantities_positive(),
            applied == 0 ==> final(timeout_state)@ == old(timeout_state)@,
            applied > 0 ==> final(timeout_state)@ == (TimeoutView {
                last_activity: now,
                ..old(timeout_state)@
            }),
    {
        self.push(update);
        self.process_buffered_updates_at(order_book, state, timeout_state, now)
    }

    /// Buffers `update`, then drains the buffer.
    pub fn buffer_and_process_update(
        &mut self,
        update: OrderBookUpdate,
        order_book: &mut OrderBook,
        state: &mut InstrumentState,
        timeout_state: &mut TimeoutState,
    ) -> (applied: usize)
        ensures
            ({
                let start = EngineView {
                    pending: old(self)@,
                    book: old(order_book)@,
                    state: *old(state),
                };
                let queued = EngineView { pending: enqueue(old(self)@, update@), ..start };
                &&& final(self)@ == start.ingest(update@).pending
                &&& final(order_book)@ == start.ingest(update@).book
                &&& *final(state) == start.ingest(update@).state
                &&& applied == queued.drain_log().len()
            }),
            in_sequence_order(old(self)@) ==> in_sequence_order(final(self)@),
            final(order_book)@.last_applied_id >= old(order_book)@.last_applied_id,
            old(order_book)@.quantities_positive() ==> final(order_book)@.quantities_positive(),
            applied == 0 ==> final(timeout_state)@ == old(timeout_state)@,
            final(timeout_state)@.timeout_duration == old(timeout_state)@.timeout_duration,
    {
        self.push(update);
        self.process_buffered_updates(order_book, state, timeout_state)
    }
}

} // verus!

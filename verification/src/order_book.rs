//! The order book and the state of the instrument it belongs to.

use crate::messages::{Level, OrderBookUpdate, Snapshot, SnapshotView, UpdateView};
use std::collections::BTreeMap;
use vstd::std_specs::btree::{increasing_seq, spec_btree_map_iter};
use vstd::laws_cmp::obeys_cmp;
use vstd::std_specs::cmp::OrdSpec;
use vstd::std_specs::iter::IteratorSpec;
use vstd::prelude::*;

verus! {

/// Where the instrument stands in its recovery life cycle.
#[derive(Debug, Clone, Copy, PartialEq, Eq, Structural)]
pub enum InstrumentState {
    /// Updates are applied as they become consecutive.
    Normal,
    /// A snapshot is being fetched; updates are buffered only.
    Recovering,
    /// A snapshot was applied; the first update that covers the next
    /// sequence number may be applied.
    JustRecovered,
    /// Nothing has happened yet; recovery is always needed.
    JustStarted,
}

/// One side of the book after a list of level mutations, taken in order:
/// a zero quantity removes the level, any other quantity replaces it.
pub open spec fn upsert_levels(side: Map<u64, u64>, levels: Seq<Level>) -> Map<u64, u64>
    decreases levels.len(),
{
    if levels.len() == 0 {
        side
    } else {
        let before = upsert_levels(side, levels.drop_last());
        let level = levels.last();
        if level.qty == 0 {
            before.remove(level.price)
        } else {
            before.insert(level.price, level.qty)
        }
    }
}

/// One side of a book built from nothing but a snapshot's lines, taken in
/// order: lines with a zero quantity are passed over.
pub open spec fn load_levels(levels: Seq<Level>) -> Map<u64, u64>
    decreases levels.len(),
{
    if levels.len() == 0 {
        Map::empty()
    } else {
        let before = load_levels(levels.drop_last());
        let level = levels.last();
        if level.qty == 0 {
            before
        } else {
            before.insert(level.price, level.qty)
        }
    }
}

/// Every quantity stored on this side is strictly positive.
pub open spec fn side_positive(side: Map<u64, u64>) -> bool {
    forall|price: u64| side.contains_key(price) ==> #[trigger] side[price] > 0
}

/// The mathematical content of an [`OrderBook`]: price to quantity on each
/// side, and the highest sequence number whose effects the book reflects.
pub struct BookView {
    pub bids: Map<u64, u64>,
    pub asks: Map<u64, u64>,
    pub last_applied_id: u64,
}

impl BookView {
    /// The book that holds nothing and has applied nothing.
    pub open spec fn empty() -> BookView {
        BookView { bids: Map::empty(), asks: Map::empty(), last_applied_id: 0 }
    }

    /// Every stored quantity is strictly positive.
    pub open spec fn quantities_positive(self) -> bool {
        side_positive(self.bids) && side_positive(self.asks)
    }

    /// The update ends at or before the cursor: everything in it is already reflected.
    pub open spec fn is_stale(self, update: UpdateView) -> bool {
        update.last_trade_id <= self.last_applied_id
    }

    /// The update starts beyond the next expected sequence number.
    pub open spec fn is_gap(self, update: UpdateView) -> bool {
        update.first_trade_id > self.last_applied_id + 1
    }

    /// By how much a gapped update starts beyond the cursor.
    pub open spec fn gap_width(self, update: UpdateView) -> int {
        update.first_trade_id - self.last_applied_id
    }

    /// The book re-seated from a snapshot.
    pub open spec fn apply_snapshot(self, snapshot: SnapshotView) -> BookView {
        BookView {
            bids: load_levels(snapshot.bids),
            asks: load_levels(snapshot.asks),
            last_applied_id: snapshot.last_update_id,
        }
    }

    /// The book after an update was offered to it: unchanged when the update
    /// is stale or leaves a gap, otherwise with every level mutation applied
    /// and the cursor moved to the update's last sequence number.
    pub open spec fn apply_update(self, update: UpdateView) -> BookView {
        if self.is_stale(update) || self.is_gap(update) {
            self
        } else {
            BookView {
                bids: upsert_levels(self.bids, update.bids),
                asks: upsert_levels(self.asks, update.asks),
                last_applied_id: update.last_trade_id,
            }
        }
    }
}

/// An update started beyond the next expected sequence number.
#[derive(Debug, Clone, Copy, PartialEq, Eq, Structural)]
pub struct GapError {
    /// The distance from the cursor to the update's first sequence number.
    pub width: u64,
}

/// Upserting positive quantities and removing levels keeps a side positive.
pub proof fn lemma_upsert_levels_positive(side: Map<u64, u64>, levels: Seq<Level>)
    requires
        side_positive(side),
    ensures
        side_positive(upsert_levels(side, levels)),
    decreases levels.len(),
{
    if levels.len() > 0 {
        lemma_upsert_levels_positive(side, levels.drop_last());
    }
}

/// A side loaded from a snapshot holds positive quantities only.
pub proof fn lemma_load_levels_positive(levels: Seq<Level>)
    ensures
        side_positive(load_levels(levels)),
    decreases levels.len(),
{
    if levels.len() > 0 {
        lemma_load_levels_positive(levels.drop_last());
    }
}

/// The quantity that the last level of `levels` at `price` carries, if any
/// level is at that price.
pub open spec fn last_quote(levels: Seq<Level>, price: u64) -> Option<u64>
    decreases levels.len(),
{
    if levels.len() == 0 {
        None
    } else if levels.last().price == price {
        Some(levels.last().qty)
    } else {
        last_quote(levels.drop_last(), price)
    }
}

/// After a list of level mutations each price holds what the last mutation
/// at that price says, and what it held before where none is at that price.
pub proof fn lemma_upsert_levels_last_wins(side: Map<u64, u64>, levels: Seq<Level>, price: u64)
    ensures
        match last_quote(levels, price) {
            Some(qty) => if qty == 0 {
                !upsert_levels(side, levels).contains_key(price)
            } else {
                upsert_levels(side, levels).contains_key(price) && upsert_levels(
                    side,
                    levels,
                )[price] == qty
            },
            None => upsert_levels(side, levels).contains_key(price) == side.contains_key(price)
                && (side.contains_key(price) ==> upsert_levels(side, levels)[price]
                == side[price]),
        },
    decreases levels.len(),
{
    if levels.len() > 0 {
        lemma_upsert_levels_last_wins(side, levels.drop_last(), price);
    }
}

/// Level mutations replace: applying the same list a second time changes nothing.
pub proof fn lemma_upsert_levels_twice(side: Map<u64, u64>, levels: Seq<Level>)
    ensures
        upsert_levels(upsert_levels(side, levels), levels) == upsert_levels(side, levels),
{
    let once = upsert_levels(side, levels);
    let twice = upsert_levels(once, levels);
    assert forall|price: u64|
        #![trigger twice.dom().contains(price)]
        #![trigger once.dom().contains(price)]
        twice.dom().contains(price) == once.dom().contains(price) && (once.dom().contains(price)
            ==> twice[price] == once[price]) by {
        lemma_upsert_levels_last_wins(side, levels, price);
        lemma_upsert_levels_last_wins(once, levels, price);
    }
    assert(twice =~= once);
}

/// One call on the book.
pub enum BookOp {
    /// An update is offered.
    Update(UpdateView),
    /// The book is re-seated from a snapshot.
    Snapshot(SnapshotView),
}

impl BookView {
    /// The book after one call.
    pub open spec fn perform(self, op: BookOp) -> BookView {
        match op {
            BookOp::Update(update) => self.apply_update(update),
            BookOp::Snapshot(snapshot) => self.apply_snapshot(snapshot),
        }
    }

    /// The book after a series of calls, made in order.
    pub open spec fn perform_all(self, ops: Seq<BookOp>) -> BookView
        decreases ops.len(),
    {
        if ops.len() == 0 {
            self
        } else {
            self.perform_all(ops.drop_last()).perform(ops.last())
        }
    }

    /// No snapshot of the series is older than the book it is applied to.
    pub open spec fn never_rewound_by(self, ops: Seq<BookOp>) -> bool {
        forall|i: int|
            0 <= i < ops.len() ==> (#[trigger] ops[i] matches BookOp::Snapshot(snapshot)
                ==> snapshot.last_update_id >= self.perform_all(ops.take(i)).last_applied_id)
    }
}

/// An update never moves the cursor back, and a snapshot moves it to its own
/// sequence number: over any series of calls in which no snapshot is older
/// than the book it is applied to, the cursor never decreases.
pub proof fn lemma_cursor_never_decreases(
    book: BookView,
    ops: Seq<BookOp>,
    earlier: int,
    later: int,
)
    requires
        book.never_rewound_by(ops),
        0 <= earlier <= later <= ops.len(),
    ensures
        book.perform_all(ops.take(earlier)).last_applied_id <= book.perform_all(
            ops.take(later),
        ).last_applied_id,
    decreases later - earlier,
{
    if earlier < later {
        lemma_cursor_never_decreases(book, ops, earlier, later - 1);
        assert(ops.take(later).drop_last() =~= ops.take(later - 1));
        assert(ops.take(later).last() == ops[later - 1]);
    }
}

/// Whatever is done to a book whose quantities are positive, they stay positive.
pub proof fn lemma_quantities_stay_positive(book: BookView, ops: Seq<BookOp>)
    requires
        book.quantities_positive(),
    ensures
        book.perform_all(ops).quantities_positive(),
    decreases ops.len(),
{
    if ops.len() > 0 {
        let before = book.perform_all(ops.drop_last());
        lemma_quantities_stay_positive(book, ops.drop_last());
        match ops.last() {
            BookOp::Update(update) => {
                lemma_upsert_levels_positive(before.bids, update.bids);
                lemma_upsert_levels_positive(before.asks, update.asks);
            },
            BookOp::Snapshot(snapshot) => {
                lemma_load_levels_positive(snapshot.bids);
                lemma_load_levels_positive(snapshot.asks);
            },
        }
    }
}

/// An in-memory L2 book: bids and asks by price, and the sequence cursor.
#[derive(Debug)]
pub struct OrderBook {
    bids: BTreeMap<u64, u64>,
    asks: BTreeMap<u64, u64>,
    last_applied_id: u64,
}

impl View for OrderBook {
    type V = BookView;

    closed spec fn view(&self) -> BookView {
        BookView { bids: self.bids@, asks: self.asks@, last_applied_id: self.last_applied_id }
    }
}

/// Clears `side` and fills it with the snapshot lines that carry a quantity.
fn load_side(side: &mut BTreeMap<u64, u64>, levels: &Vec<Level>)
    ensures
        final(side)@ == load_levels(levels@),
{
    side.clear();
    let mut i: usize = 0;
    while i < levels.len()
        invariant
            i <= levels.len(),
            side@ == load_levels(levels@.take(i as int)),
        decreases levels.len() - i,
    {
        let level = levels[i];
        proof {
            assert(levels@.take(i + 1).drop_last() =~= levels@.take(i as int));
        }
        if level.qty != 0 {
            side.insert(level.price, level.qty);
        }
        i += 1;
    }
    proof {
        assert(levels@.take(levels.len() as int) =~= levels@);
    }
}

/// Applies the level mutations to `side`, in order.
fn upsert_side(side: &mut BTreeMap<u64, u64>, levels: &Vec<Level>)
    ensures
        final(side)@ == upsert_levels(old(side)@, levels@),
{
    let mut i: usize = 0;
    proof {
        assert(levels@.take(0) =~= Seq::<Level>::empty());
    }
    while i < levels.len()
        invariant
            i <= levels.len(),
            side@ == upsert_levels(old(side)@, levels@.take(i as int)),
        decreases levels.len() - i,
    {
        let level = levels[i];
        proof {
            assert(levels@.take(i + 1).drop_last() =~= levels@.take(i as int));
        }
        if level.qty == 0 {
            side.remove(&level.price);
        } else {
            side.insert(level.price, level.qty);
        }
        i += 1;
    }
    proof {
        assert(levels@.take(levels.len() as int) =~= levels@);
    }
}

/// `levels` lists exactly what `side` holds, by ascending price.
pub open spec fn is_ladder_of(levels: Seq<Level>, side: Map<u64, u64>) -> bool {
    &&& levels.len() == side.len()
    &&& forall|i: int|
        0 <= i < levels.len() ==> side.contains_key(#[trigger] levels[i].price)
            && side[levels[i].price] == levels[i].qty
    &&& forall|i: int, j: int|
        0 <= i < j < levels.len() ==> #[trigger] levels[i].price < #[trigger] levels[j].price
}

/// `levels` lists the first `depth` entries of what `side` holds by
/// ascending price, or all of it where it holds no more.
pub open spec fn is_bottom_of(levels: Seq<Level>, side: Map<u64, u64>, depth: nat) -> bool {
    exists|rest: Seq<Level>|
        #[trigger] is_ladder_of(levels + rest, side) && (levels.len() == depth || rest.len() == 0)
            && levels.len() <= depth
}

/// `levels` lists the first `depth` entries of what `side` holds by
/// descending price, or all of it where it holds no more.
pub open spec fn is_top_of(levels: Seq<Level>, side: Map<u64, u64>, depth: nat) -> bool {
    exists|rest: Seq<Level>|
        #[trigger] is_ladder_of((levels + rest).reverse(), side) && (levels.len() == depth
            || rest.len() == 0) && levels.len() <= depth
}

/// Lists what `side` holds, by ascending price.
fn ladder(side: &BTreeMap<u64, u64>) -> (levels: Vec<Level>)
    ensures
        is_ladder_of(levels@, side@),
{
    let mut levels: Vec<Level> = Vec::new();
    let ghost entries = spec_btree_map_iter(side).remaining();
    let order = side.iter();
    assert(increasing_seq(entries.map_values(|kv: (&u64, &u64)| *kv.0)));
    for entry in it: order
        invariant
            it.seq() == entries,
            levels@.len() == it.index(),
            forall|i: int|
                0 <= i < levels@.len() ==> levels@[i].price == *it.seq()[i].0 && levels@[i].qty
                    == *it.seq()[i].1,
    {
        levels.push(Level { price: *entry.0, qty: *entry.1 });
    }
    proof {
        let keys = entries.map_values(|kv: (&u64, &u64)| *kv.0);
        assert(levels@.len() == side@.len());
        assert(obeys_cmp::<u64>());
        assert forall|i: int, j: int| 0 <= i < j < levels@.len() implies levels@[i].price
            < levels@[j].price by {
            assert(keys[i] == levels@[i].price);
            assert(keys[j] == levels@[j].price);
            assert(keys[i].cmp_spec(&keys[j]) is Less);
        }
    }
    levels
}

impl OrderBook {
    /// An empty book that has applied nothing.
    pub fn new() -> (book: Self)
        ensures
            book@ == BookView::empty(),
            book@.quantities_positive(),
    {
        Self { bids: BTreeMap::new(), asks: BTreeMap::new(), last_applied_id: 0 }
    }

    /// The highest sequence number whose effects the book reflects.
    pub fn last_applied_id(&self) -> (id: u64)
        ensures
            id == self@.last_applied_id,
    {
        self.last_applied_id
    }

    /// The quantity bid at `price`, if the book holds a bid there.
    pub fn bid(&self, price: u64) -> (qty: Option<u64>)
        ensures
            qty == (if self@.bids.contains_key(price) {
                Some(self@.bids[price])
            } else {
                None
            }),
    {
        match self.bids.get(&price) {
            Some(qty) => Some(*qty),
            None => None,
        }
    }

    /// The quantity asked at `price`, if the book holds an ask there.
    pub fn ask(&self, price: u64) -> (qty: Option<u64>)
        ensures
            qty == (if self@.asks.contains_key(price) {
                Some(self@.asks[price])
            } else {
                None
            }),
    {
        match self.asks.get(&price) {
            Some(qty) => Some(*qty),
            None => None,
        }
    }

    /// All bids, the highest price first.
    pub fn bids(&self) -> (levels: Vec<Level>)
        ensures
            is_ladder_of(levels@.reverse(), self@.bids),
    {
        let ascending = ladder(&self.bids);
        let mut levels: Vec<Level> = Vec::new();
        let mut left: usize = ascending.len();
        while left > 0
            invariant
                left <= ascending@.len(),
                levels@.len() == ascending@.len() - left,
                forall|i: int|
                    0 <= i < levels@.len() ==> levels@[i] == ascending@[ascending@.len() - 1 - i],
            decreases left,
        {
            left -= 1;
            levels.push(ascending[left]);
        }
        assert(levels@.reverse() =~= ascending@);
        levels
    }

    /// All asks, the lowest price first.
    pub fn asks(&self) -> (levels: Vec<Level>)
        ensures
            is_ladder_of(levels@, self@.asks),
    {
        ladder(&self.asks)
    }

    /// The best bids: the `depth` highest prices, the highest first.
    pub fn top_bids(&self, depth: usize) -> (levels: Vec<Level>)
        ensures
            is_top_of(levels@, self@.bids, depth as nat),
    {
        let mut levels = self.bids();
        let ghost all = levels@;
        levels.truncate(depth);
        proof {
            let rest = all.skip(levels@.len() as int);
            assert(levels@ + rest =~= all);
        }
        levels
    }

    /// The best asks: the `depth` lowest prices, the lowest first.
    pub fn top_asks(&self, depth: usize) -> (levels: Vec<Level>)
        ensures
            is_bottom_of(levels@, self@.asks, depth as nat),
    {
        let mut levels = self.asks();
        let ghost all = levels@;
        levels.truncate(depth);
        proof {
            let rest = all.skip(levels@.len() as int);
            assert(levels@ + rest =~= all);
        }
        levels
    }

    /// Re-seats the book from a snapshot: both sides are cleared, every line
    /// with a quantity is stored, and the cursor moves to the snapshot's
    /// sequence number.
    pub fn apply_snapshot(&mut self, snapshot: &Snapshot)
        ensures
            final(self)@ == old(self)@.apply_snapshot(snapshot@),
            final(self)@.quantities_positive(),
    {
        proof {
            lemma_load_levels_positive(snapshot.bids@);
            lemma_load_levels_positive(snapshot.asks@);
        }
        load_side(&mut self.bids, &snapshot.bids);
        load_side(&mut self.asks, &snapshot.asks);
        self.last_applied_id = snapshot.last_update_id;
    }

    /// Offers an update to the book.
    ///
    /// A stale update is accepted and changes nothing. An update that starts
    /// beyond the next expected sequence number is refused with the width of
    /// the gap and changes nothing. Any other update is applied in full.
    pub fn apply_update(&mut self, update: &OrderBookUpdate) -> (result: Result<(), GapError>)
        ensures
            final(self)@ == old(self)@.apply_update(update@),
            old(self)@.is_stale(update@) ==> final(self)@ == old(self)@,
            old(self)@.is_gap(update@) ==> final(self)@ == old(self)@,
            result is Err <==> !old(self)@.is_stale(update@) && old(self)@.is_gap(update@),
            result matches Err(gap) ==> gap.width == old(self)@.gap_width(update@),
            final(self)@.last_applied_id >= old(self)@.last_applied_id,
            old(self)@.quantities_positive() ==> final(self)@.quantities_positive(),
    {
        if update.last_trade_id <= self.last_applied_id {
            return Ok(());
        }
        if update.first_trade_id > self.last_applied_id && update.first_trade_id
            - self.last_applied_id > 1 {
            return Err(GapError { width: update.first_trade_id - self.last_applied_id });
        }
        proof {
            if self@.quantities_positive() {
                lemma_upsert_levels_positive(self.bids@, update.bids@);
                lemma_upsert_levels_positive(self.asks@, update.asks@);
            }
        }
        upsert_side(&mut self.bids, &update.bids);
        upsert_side(&mut self.asks, &update.asks);
        self.last_applied_id = update.last_trade_id;
        Ok(())
    }
}

} // verus!

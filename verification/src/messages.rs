//! Typed records of the depth feed, and how they are read from the strings
//! of the wire.

use crate::decimal::{decimal_units, parse_decimal};
use vstd::prelude::*;
use vstd::utf8::encode_utf8;

verus! {

/// One price level: a price and the quantity resting at it, both in
/// fixed-point units.
///
/// A quantity of zero in an update means that the level is removed.
#[derive(Debug, Clone, Copy, PartialEq, Eq, Structural)]
pub struct Level {
    pub price: u64,
    pub qty: u64,
}

/// The level that a `[price, quantity]` pair of the wire spells, if both
/// strings are decimals with a fixed-point value.
pub open spec fn wire_level(pair: [String; 2]) -> Option<Level> {
    match (decimal_units(encode_utf8(pair@[0]@)), decimal_units(encode_utf8(pair@[1]@))) {
        (Some(price), Some(qty)) => Some(Level { price, qty }),
        _ => None,
    }
}

/// Every pair of the list spells a level.
pub open spec fn wire_levels_valid(raw: Seq<[String; 2]>) -> bool {
    forall|i: int| 0 <= i < raw.len() ==> (#[trigger] wire_level(raw[i])) is Some
}

/// The levels that a list of valid pairs spells, in the same order.
pub open spec fn wire_levels(raw: Seq<[String; 2]>) -> Seq<Level> {
    Seq::new(raw.len(), |i: int| wire_level(raw[i]).unwrap())
}

/// Reads one `[price, quantity]` pair of the wire.
pub fn parse_level(pair: &[String; 2]) -> (level: Option<Level>)
    ensures
        level == wire_level(*pair),
{
    let price = match parse_decimal(pair[0].as_str()) {
        Some(price) => price,
        None => {
            return None;
        },
    };
    match parse_decimal(pair[1].as_str()) {
        Some(qty) => Some(Level { price, qty }),
        None => None,
    }
}

/// Reads a list of `[price, quantity]` pairs of the wire. One pair that is
/// not a level makes the whole list unreadable.
pub fn parse_levels(raw: &Vec<[String; 2]>) -> (levels: Option<Vec<Level>>)
    ensures
        levels is Some <==> wire_levels_valid(raw@),
        levels matches Some(read) ==> read@ == wire_levels(raw@),
{
    let mut read: Vec<Level> = Vec::new();
    let mut i: usize = 0;
    while i < raw.len()
        invariant
            i <= raw.len(),
            read@.len() == i,
            forall|k: int| 0 <= k < i ==> (#[trigger] wire_level(raw@[k])) == Some(read@[k]),
        decreases raw.len() - i,
    {
        match parse_level(&raw[i]) {
            Some(level) => {
                read.push(level);
            },
            None => {
                return None;
            },
        }
        i += 1;
    }
    assert(read@ =~= wire_levels(raw@));
    Some(read)
}

/// An incremental depth update covering the sequence numbers
/// `first_trade_id ..= last_trade_id`.
#[derive(Debug, Clone, PartialEq, Eq)]
pub struct OrderBookUpdate {
    pub event_type: String,
    pub event_time: u64,
    pub symbol: String,
    pub first_trade_id: u64,
    pub last_trade_id: u64,
    pub bids: Vec<Level>,
    pub asks: Vec<Level>,
}

/// The mathematical content of an [`OrderBookUpdate`].
pub struct UpdateView {
    pub event_type: Seq<char>,
    pub event_time: u64,
    pub symbol: Seq<char>,
    pub first_trade_id: u64,
    pub last_trade_id: u64,
    pub bids: Seq<Level>,
    pub asks: Seq<Level>,
}

impl View for OrderBookUpdate {
    type V = UpdateView;

    open spec fn view(&self) -> UpdateView {
        UpdateView {
            event_type: self.event_type@,
            event_time: self.event_time,
            symbol: self.symbol@,
            first_trade_id: self.first_trade_id,
            last_trade_id: self.last_trade_id,
            bids: self.bids@,
            asks: self.asks@,
        }
    }
}

impl OrderBookUpdate {
    /// Builds an update from the fields of a decoded frame. The frame is not
    /// an update if one of its price or quantity strings is not a decimal
    /// with a fixed-point value.
    pub fn from_wire(
        event_type: String,
        event_time: u64,
        symbol: String,
        first_trade_id: u64,
        last_trade_id: u64,
        bids: &Vec<[String; 2]>,
        asks: &Vec<[String; 2]>,
    ) -> (update: Option<OrderBookUpdate>)
        ensures
            update is Some <==> wire_levels_valid(bids@) && wire_levels_valid(asks@),
            update matches Some(read) ==> read@ == (UpdateView {
                event_type: event_type@,
                event_time,
                symbol: symbol@,
                first_trade_id,
                last_trade_id,
                bids: wire_levels(bids@),
                asks: wire_levels(asks@),
            }),
    {
        let bids = match parse_levels(bids) {
            Some(bids) => bids,
            None => {
                return None;
            },
        };
        let asks = match parse_levels(asks) {
            Some(asks) => asks,
            None => {
                return None;
            },
        };
        Some(
            OrderBookUpdate {
                event_type,
                event_time,
                symbol,
                first_trade_id,
                last_trade_id,
                bids,
                asks,
            },
        )
    }
}

/// The full book at one sequence point.
#[derive(Debug, Clone, PartialEq, Eq)]
pub struct Snapshot {
    pub last_update_id: u64,
    pub bids: Vec<Level>,
    pub asks: Vec<Level>,
}

/// The mathematical content of a [`Snapshot`].
pub struct SnapshotView {
    pub last_update_id: u64,
    pub bids: Seq<Level>,
    pub asks: Seq<Level>,
}

impl View for Snapshot {
    type V = SnapshotView;

    open spec fn view(&self) -> SnapshotView {
        SnapshotView { last_update_id: self.last_update_id, bids: self.bids@, asks: self.asks@ }
    }
}

impl Snapshot {
    /// Builds a snapshot from the fields of a decoded response. The response
    /// is not a snapshot if one of its price or quantity strings is not a
    /// decimal with a fixed-point value.
    pub fn from_wire(
        last_update_id: u64,
        bids: &Vec<[String; 2]>,
        asks: &Vec<[String; 2]>,
    ) -> (snapshot: Option<Snapshot>)
        ensures
            snapshot is Some <==> wire_levels_valid(bids@) && wire_levels_valid(asks@),
            snapshot matches Some(read) ==> read@ == (SnapshotView {
                last_update_id,
                bids: wire_levels(bids@),
                asks: wire_levels(asks@),
            }),
    {
        let bids = match parse_levels(bids) {
            Some(bids) => bids,
            None => {
                return None;
            },
        };
        let asks = match parse_levels(asks) {
            Some(asks) => asks,
            None => {
                return None;
            },
        };
        Some(Snapshot { last_update_id, bids, asks })
    }
}

} // verus!

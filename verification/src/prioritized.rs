//! The order in which pending updates leave the event buffer.

use crate::messages::{OrderBookUpdate, UpdateView};
use std::cmp::Ordering;
use vstd::prelude::*;
use vstd::std_specs::cmp::{PartialEqSpecImpl, PartialOrdSpecImpl};

verus! {

/// A pending update, ordered so that the greatest entry is the one with the
/// smallest first sequence number: the one to look at next.
#[derive(Debug)]
pub struct PrioritizedOrderBookUpdate(pub OrderBookUpdate);

impl View for PrioritizedOrderBookUpdate {
    type V = UpdateView;

    open spec fn view(&self) -> UpdateView {
        self.0@
    }
}

impl PartialEq for PrioritizedOrderBookUpdate {
    /// Two entries are equal when they cover the same range of sequence numbers.
    fn eq(&self, other: &Self) -> (r: bool) {
        self.0.first_trade_id == other.0.first_trade_id && self.0.last_trade_id
            == other.0.last_trade_id
    }
}

impl PartialEqSpecImpl for PrioritizedOrderBookUpdate {
    open spec fn obeys_eq_spec() -> bool {
        true
    }

    open spec fn eq_spec(&self, other: &Self) -> bool {
        self.0.first_trade_id == other.0.first_trade_id && self.0.last_trade_id
            == other.0.last_trade_id
    }
}

impl Eq for PrioritizedOrderBookUpdate {

}

impl PartialOrd for PrioritizedOrderBookUpdate {
    /// Compares by first sequence number, reversed: an earlier update is greater.
    fn partial_cmp(&self, other: &Self) -> (r: Option<Ordering>) {
        if other.0.first_trade_id < self.0.first_trade_id {
            Some(Ordering::Less)
        } else if other.0.first_trade_id == self.0.first_trade_id {
            Some(Ordering::Equal)
        } else {
            Some(Ordering::Greater)
        }
    }
}

impl PartialOrdSpecImpl for PrioritizedOrderBookUpdate {
    open spec fn obeys_partial_cmp_spec() -> bool {
        true
    }

    open spec fn partial_cmp_spec(&self, other: &Self) -> Option<Ordering> {
        if other.0.first_trade_id < self.0.first_trade_id {
            Some(Ordering::Less)
        } else if other.0.first_trade_id == self.0.first_trade_id {
            Some(Ordering::Equal)
        } else {
            Some(Ordering::Greater)
        }
    }
}

} // verus!

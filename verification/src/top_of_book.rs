//! A snapshot of the best bid and the best ask of one book.

use vstd::prelude::*;

verus! {

/// Best price and total resting quantity at that price, for each side.
/// A side without orders reports price zero and quantity zero.
#[derive(Debug, Clone, Copy, PartialEq, Eq, Structural)]
pub struct TopOfBookSnapshot {
    /// Best bid price, zero when there is no bid.
    pub bid_price: u32,
    /// Total quantity at the best bid, zero when there is no bid.
    pub bid_quantity: u32,
    /// Best ask price, zero when there is no ask.
    pub ask_price: u32,
    /// Total quantity at the best ask, zero when there is no ask.
    pub ask_quantity: u32,
}

impl TopOfBookSnapshot {
    /// The snapshot of a book without orders.
    pub open spec fn zero() -> TopOfBookSnapshot {
        TopOfBookSnapshot { bid_price: 0, bid_quantity: 0, ask_price: 0, ask_quantity: 0 }
    }

    /// Puts the four numbers together.
    pub fn new(bid_price: u32, bid_quantity: u32, ask_price: u32, ask_quantity: u32) -> (s:
        TopOfBookSnapshot)
        ensures
            s == (TopOfBookSnapshot { bid_price, bid_quantity, ask_price, ask_quantity }),
    {
        TopOfBookSnapshot { bid_price, bid_quantity, ask_price, ask_quantity }
    }

    /// True when neither side has a price.
    pub fn is_empty(&self) -> (b: bool)
        ensures
            b == (self.bid_price == 0 && self.ask_price == 0),
    {
        self.bid_price == 0 && self.ask_price == 0
    }
}

impl Default for TopOfBookSnapshot {
    fn default() -> (s: TopOfBookSnapshot)
        ensures
            s == TopOfBookSnapshot::zero(),
    {
        TopOfBookSnapshot { bid_price: 0, bid_quantity: 0, ask_price: 0, ask_quantity: 0 }
    }
}

} // verus!

//! Market and limit orders.

use vstd::prelude::*;

verus! {

/// How an order is priced. A market order carries price zero and takes any
/// opposing price; a limit order carries a positive price that bounds it.
#[derive(Debug, Copy, Clone, PartialEq, Eq, Structural)]
pub enum OrderType {
    Market,
    Limit,
}

impl OrderType {
    /// The type that a price implies: market exactly for price zero.
    pub open spec fn of_price(price: u32) -> OrderType {
        if price == 0 {
            OrderType::Market
        } else {
            OrderType::Limit
        }
    }
}

} // verus!

//! An order as a book holds it.

use vstd::prelude::*;
use std::time::SystemTime;
use std::time::UNIX_EPOCH;
use crate::messages::{NewOrder, NewOrderView};
use crate::order_type::OrderType;
use crate::side::Side;

verus! {

/// One order, from its arrival until it is filled or cancelled.
#[derive(Debug, Clone)]
pub struct Order {
    pub user_id: u32,
    pub user_order_id: u32,
    pub symbol: String,
    /// Zero for a market order, positive for a limit order.
    pub price: u32,
    /// The quantity the order arrived with.
    pub quantity: u32,
    /// The part of the quantity that has not traded yet.
    pub remaining_qty: u32,
    pub side: Side,
    pub order_type: OrderType,
    /// Arrival time in nanoseconds since the Unix epoch. It is a record
    /// only: time priority is the order of arrival within a price level.
    pub timestamp_ns: u64,
}

/// The value of an [`Order`]: every field that matching reads. The arrival
/// time is left out, since no decision depends on it.
pub struct OrderView {
    pub user_id: u32,
    pub user_order_id: u32,
    pub symbol: Seq<char>,
    pub price: u32,
    pub quantity: u32,
    pub remaining_qty: u32,
    pub side: Side,
    pub order_type: OrderType,
}

impl View for Order {
    type V = OrderView;

    open spec fn view(&self) -> OrderView {
        OrderView {
            user_id: self.user_id,
            user_order_id: self.user_order_id,
            symbol: self.symbol@,
            price: self.price,
            quantity: self.quantity,
            remaining_qty: self.remaining_qty,
            side: self.side,
            order_type: self.order_type,
        }
    }
}

impl OrderView {
    /// The order that a request turns into on arrival: nothing is filled
    /// yet, and the price decides between market and limit.
    pub open spec fn placed(msg: NewOrderView) -> OrderView {
        OrderView {
            user_id: msg.user_id,
            user_order_id: msg.user_order_id,
            symbol: msg.symbol,
            price: msg.price,
            quantity: msg.quantity,
            remaining_qty: msg.quantity,
            side: msg.side,
            order_type: msg.order_type(),
        }
    }

    /// This order with another remaining quantity.
    pub open spec fn with_remaining(self, remaining_qty: u32) -> OrderView {
        OrderView { remaining_qty, ..self }
    }

    /// True when the order carries the given user and order identifiers.
    pub open spec fn is_named(self, user_id: u32, user_order_id: u32) -> bool {
        self.user_id == user_id && self.user_order_id == user_order_id
    }
}

/// What `SystemTime::now().duration_since(UNIX_EPOCH)` reports: whole
/// seconds and the nanoseconds within the second, both zero when the clock
/// stands before the epoch. Nothing is claimed of a clock reading.
#[verifier::external_body]
fn time_since_epoch() -> (parts: (u64, u32)) {
    match SystemTime::now().duration_since(UNIX_EPOCH) {
        Ok(elapsed) => (elapsed.as_secs(), elapsed.subsec_nanos()),
        Err(_) => (0, 0),
    }
}

impl Order {
    /// The order that `msg` asks for, stamped with the given arrival time.
    pub fn from_new_order(msg: &NewOrder, timestamp_ns: u64) -> (order: Order)
        ensures
            order@ == OrderView::placed(msg@),
            order.timestamp_ns == timestamp_ns,
    {
        let order_type = msg.order_type();
        Order {
            user_id: msg.user_id,
            user_order_id: msg.user_order_id,
            symbol: msg.symbol.clone(),
            price: msg.price,
            quantity: msg.quantity,
            remaining_qty: msg.quantity,
            side: msg.side,
            order_type,
            timestamp_ns,
        }
    }

    /// The order that `msg` asks for, stamped with the current time. Every
    /// field but the stamp is fixed by `msg`.
    pub fn from_new_order_now(msg: &NewOrder) -> (order: Order)
        ensures
            order@ == OrderView::placed(msg@),
    {
        let ts = Order::current_timestamp_ns();
        Order::from_new_order(msg, ts)
    }

    /// True when nothing remains to trade.
    pub fn is_filled(&self) -> (b: bool)
        ensures
            b == (self.remaining_qty == 0),
    {
        self.remaining_qty == 0
    }

    /// Fills up to `qty` units and returns how many were filled: the
    /// smaller of `qty` and what remained.
    pub fn fill(&mut self, qty: u32) -> (filled: u32)
        ensures
            filled == if qty <= old(self).remaining_qty {
                qty
            } else {
                old(self).remaining_qty
            },
            final(self).remaining_qty == old(self).remaining_qty - filled,
            final(self)@ == old(self)@.with_remaining(final(self).remaining_qty),
            final(self).timestamp_ns == old(self).timestamp_ns,
    {
        let filled = if qty <= self.remaining_qty {
            qty
        } else {
            self.remaining_qty
        };
        self.remaining_qty = self.remaining_qty - filled;
        filled
    }

    /// The nanoseconds in `secs` whole seconds and `subsec_nanos`
    /// nanoseconds more, held at the largest `u64` where the count does not
    /// fit.
    pub open spec fn nanos_of(secs: u64, subsec_nanos: u32) -> u64 {
        if secs * 1_000_000_000 + subsec_nanos <= u64::MAX {
            (secs * 1_000_000_000 + subsec_nanos) as u64
        } else {
            u64::MAX
        }
    }

    /// Turns a clock reading, given as whole seconds and the nanoseconds
    /// beyond them, into one count of nanoseconds.
    pub fn timestamp_ns_from(secs: u64, subsec_nanos: u32) -> (timestamp_ns: u64)
        ensures
            timestamp_ns == Order::nanos_of(secs, subsec_nanos),
    {
        match secs.checked_mul(1_000_000_000) {
            Some(whole) => whole.saturating_add(subsec_nanos as u64),
            None => u64::MAX,
        }
    }

    /// A clock reading in nanoseconds since the Unix epoch, held at the
    /// largest `u64` where the count would not fit. The clock is read here
    /// and nowhere else; what becomes of a reading is said by
    /// [`Order::timestamp_ns_from`], for every reading.
    pub fn current_timestamp_ns() -> u64 {
        let (secs, nanos) = time_since_epoch();
        Order::timestamp_ns_from(secs, nanos)
    }
}

} // verus!

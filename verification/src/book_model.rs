//! The mathematical model of one order book.
//!
//! A side of a book is a map from price to the queue of orders resting at
//! that price, oldest first. The functions here say, over such maps, what
//! matching, resting, cancelling and reporting the top of the book mean.
//! The executable book is proved against them, and the laws at the end of
//! this file are proved of them.

use vstd::prelude::*;
use crate::messages::{NewOrderView, OutputMessageView, TradeView};
use crate::order::OrderView;
use crate::order_type::OrderType;
use crate::side::Side;
use crate::top_of_book::TopOfBookSnapshot;

verus! {

/// One side of a book: each price with the queue resting there, oldest
/// order first.
pub type Levels = Map<u32, Seq<OrderView>>;

/// The total quantity still to trade in a queue.
pub open spec fn level_quantity(queue: Seq<OrderView>) -> int
    decreases queue.len(),
{
    if queue.len() == 0 {
        0
    } else {
        level_quantity(queue.drop_last()) + queue.last().remaining_qty
    }
}

/// What holds of an order resting on `side` at `price`: it is a limit
/// order of that side and price, and part of it is still to trade.
pub open spec fn resting_wf(order: OrderView, side: Side, price: u32) -> bool {
    &&& order.side == side
    &&& order.price == price
    &&& order.order_type == OrderType::Limit
    &&& 0 < order.remaining_qty <= order.quantity
}

/// What holds of the orders queued at `price` on `side`: each rests there
/// rightly, and their total quantity fits in `u32`.
pub open spec fn orders_wf(queue: Seq<OrderView>, side: Side, price: u32) -> bool {
    &&& price > 0
    &&& forall|i: int| 0 <= i < queue.len() ==> resting_wf(#[trigger] queue[i], side, price)
    &&& level_quantity(queue) <= u32::MAX
}

/// What holds of the queue at `price` on `side`: it is not empty, and its
/// orders are well formed.
pub open spec fn level_wf(queue: Seq<OrderView>, side: Side, price: u32) -> bool {
    &&& queue.len() > 0
    &&& orders_wf(queue, side, price)
}

/// Every level of a side is well formed.
pub open spec fn side_wf(levels: Levels, side: Side) -> bool {
    forall|p: u32| levels.contains_key(p) ==> level_wf(#[trigger] levels[p], side, p)
}

/// No bid stands at or above an ask.
pub open spec fn uncrossed(bids: Levels, asks: Levels) -> bool {
    forall|b: u32, a: u32| #[trigger] bids.contains_key(b) && #[trigger] asks.contains_key(a) ==> b < a
}

/// True when `p` is the best price of a side: a price of the side that no
/// other betters. The best bid is the highest, the best ask the lowest.
pub open spec fn is_best(levels: Levels, side: Side, p: u32) -> bool {
    &&& levels.contains_key(p)
    &&& forall|q: u32| #[trigger]
        levels.contains_key(q) ==> match side {
            Side::Buy => q <= p,
            Side::Sell => p <= q,
        }
}

/// The best price of a side, if the side holds any order.
pub open spec fn best_price(levels: Levels, side: Side) -> Option<u32> {
    if exists|p: u32| is_best(levels, side, p) {
        Some(choose|p: u32| is_best(levels, side, p))
    } else {
        None
    }
}

/// The best price as reported: zero for a side without orders.
pub open spec fn top_price(levels: Levels, side: Side) -> u32 {
    match best_price(levels, side) {
        Some(p) => p,
        None => 0,
    }
}

/// The total quantity at the best price: zero for a side without orders.
pub open spec fn top_quantity(levels: Levels, side: Side) -> int {
    match best_price(levels, side) {
        Some(p) => level_quantity(levels[p]),
        None => 0,
    }
}

/// True when an incoming order may trade at the opposing price `p`: a
/// market order always, a limit order that buys when its price is at least
/// `p`, one that sells when its price is at most `p`.
pub open spec fn crosses(incoming: OrderView, p: u32) -> bool {
    incoming.order_type == OrderType::Market || match incoming.side {
        Side::Buy => incoming.price >= p,
        Side::Sell => incoming.price <= p,
    }
}

/// The trade of `quantity` between an incoming order and the resting order
/// it meets. The price is that of the resting order; the incoming order is
/// the buyer exactly when it buys.
pub open spec fn trade_between(
    symbol: Seq<char>,
    incoming: OrderView,
    passive: OrderView,
    price: u32,
    quantity: u32,
) -> TradeView {
    match incoming.side {
        Side::Buy => TradeView {
            symbol,
            user_id_buy: incoming.user_id,
            user_order_id_buy: incoming.user_order_id,
            user_id_sell: passive.user_id,
            user_order_id_sell: passive.user_order_id,
            price,
            quantity,
        },
        Side::Sell => TradeView {
            symbol,
            user_id_buy: passive.user_id,
            user_order_id_buy: passive.user_order_id,
            user_id_sell: incoming.user_id,
            user_order_id_sell: incoming.user_order_id,
            price,
            quantity,
        },
    }
}

/// A queue after `quantity` has traded against its oldest order: that
/// order leaves when nothing of it remains, and stays in front otherwise.
pub open spec fn queue_after_fill(queue: Seq<OrderView>, quantity: u32) -> Seq<OrderView> {
    let front = queue[0];
    if front.remaining_qty <= quantity {
        queue.drop_first()
    } else {
        queue.update(0, front.with_remaining((front.remaining_qty - quantity) as u32))
    }
}

/// A side with the queue at `p` replaced; a queue without orders takes its
/// price out of the side.
pub open spec fn with_queue(levels: Levels, p: u32, queue: Seq<OrderView>) -> Levels {
    if queue.len() == 0 {
        levels.remove(p)
    } else {
        levels.insert(p, queue)
    }
}

/// The smaller of two quantities.
pub open spec fn smaller(a: u32, b: u32) -> u32 {
    if a <= b {
        a
    } else {
        b
    }
}

/// What matching leaves behind.
pub struct MatchResult {
    /// The opposing side after the trades.
    pub levels: Levels,
    /// What remains of the incoming order.
    pub remaining: u32,
    /// The trades, in the order in which they happened.
    pub trades: Seq<TradeView>,
}

/// Matches `incoming` against the opposing side `levels`.
///
/// While part of the incoming order remains and the best opposing price
/// crosses, the oldest order at that price trades with it, for the smaller
/// of the two remaining quantities. A level whose front order could not
/// trade ends the matching; a well-formed side has no such level.
pub open spec fn match_order(symbol: Seq<char>, levels: Levels, incoming: OrderView) -> MatchResult
    decreases incoming.remaining_qty,
{
    let stop = MatchResult { levels, remaining: incoming.remaining_qty, trades: Seq::empty() };
    if incoming.remaining_qty == 0 {
        stop
    } else {
        match best_price(levels, incoming.side.opposite()) {
            None => stop,
            Some(p) => {
                let queue = levels[p];
                if !crosses(incoming, p) || queue.len() == 0 || queue[0].remaining_qty == 0 {
                    stop
                } else {
                    let passive = queue[0];
                    let quantity = smaller(incoming.remaining_qty, passive.remaining_qty);
                    let rest = match_order(
                        symbol,
                        with_queue(levels, p, queue_after_fill(queue, quantity)),
                        incoming.with_remaining((incoming.remaining_qty - quantity) as u32),
                    );
                    MatchResult {
                        levels: rest.levels,
                        remaining: rest.remaining,
                        trades: seq![trade_between(symbol, incoming, passive, p, quantity)]
                            + rest.trades,
                    }
                }
            },
        }
    }
}

impl MatchResult {
    /// This result with earlier trades put before its own.
    pub open spec fn after(self, earlier: Seq<TradeView>) -> MatchResult {
        MatchResult { trades: earlier + self.trades, ..self }
    }
}

/// True when no price of the side betters `p`.
pub open spec fn nothing_betters(levels: Levels, side: Side, p: u32) -> bool {
    forall|q: u32| #[trigger]
        levels.contains_key(q) ==> match side {
            Side::Buy => q <= p,
            Side::Sell => p <= q,
        }
}

/// A side after `order` has joined the back of the queue at its price.
pub open spec fn rest_order(levels: Levels, order: OrderView) -> Levels {
    let queue = if levels.contains_key(order.price) {
        levels[order.price]
    } else {
        Seq::empty()
    };
    levels.insert(order.price, queue.push(order))
}

/// True when some order of the queue carries the identifiers.
pub open spec fn queue_holds(queue: Seq<OrderView>, user_id: u32, user_order_id: u32) -> bool {
    exists|i: int| 0 <= i < queue.len() && (#[trigger] queue[i]).is_named(user_id, user_order_id)
}

/// True when `i` is the place of the oldest order of the queue that
/// carries the identifiers.
pub open spec fn is_first_in_queue(
    queue: Seq<OrderView>,
    user_id: u32,
    user_order_id: u32,
    i: int,
) -> bool {
    &&& 0 <= i < queue.len()
    &&& queue[i].is_named(user_id, user_order_id)
    &&& forall|j: int| 0 <= j < i ==> !(#[trigger] queue[j]).is_named(user_id, user_order_id)
}

/// True when `p` is the lowest price of the side at which an order carries
/// the identifiers.
pub open spec fn is_first_level(levels: Levels, user_id: u32, user_order_id: u32, p: u32) -> bool {
    &&& levels.contains_key(p)
    &&& queue_holds(levels[p], user_id, user_order_id)
    &&& forall|q: u32| #[trigger]
        levels.contains_key(q) && q < p ==> !queue_holds(levels[q], user_id, user_order_id)
}

/// True when some order of the side carries the identifiers.
pub open spec fn side_holds(levels: Levels, user_id: u32, user_order_id: u32) -> bool {
    exists|p: u32| #[trigger]
        levels.contains_key(p) && queue_holds(levels[p], user_id, user_order_id)
}

/// A side after the cancel of the identifiers: the lowest price holding
/// such an order loses the oldest one there. A side that holds none is
/// unchanged.
pub open spec fn cancel_in_side(levels: Levels, user_id: u32, user_order_id: u32) -> Levels {
    if exists|p: u32| is_first_level(levels, user_id, user_order_id, p) {
        let p = choose|p: u32| is_first_level(levels, user_id, user_order_id, p);
        let i = choose|i: int| is_first_in_queue(levels[p], user_id, user_order_id, i);
        with_queue(levels, p, levels[p].remove(i))
    } else {
        levels
    }
}

/// The reports that a change of one side's top calls for: none when price
/// and quantity are what was last reported, one report of the new top
/// otherwise.
pub open spec fn side_change(
    symbol: Seq<char>,
    side: Side,
    reported: (u32, u32),
    now: (u32, u32),
) -> Seq<OutputMessageView> {
    if reported == now {
        Seq::empty()
    } else {
        seq![OutputMessageView::side_report(symbol, side, now.0, now.1)]
    }
}

/// The reports that a new top of book calls for: the bid's before the
/// ask's, each only if that side changed.
pub open spec fn top_changes(
    symbol: Seq<char>,
    reported: TopOfBookSnapshot,
    now: TopOfBookSnapshot,
) -> Seq<OutputMessageView> {
    side_change(
        symbol,
        Side::Buy,
        (reported.bid_price, reported.bid_quantity),
        (now.bid_price, now.bid_quantity),
    ) + side_change(
        symbol,
        Side::Sell,
        (reported.ask_price, reported.ask_quantity),
        (now.ask_price, now.ask_quantity),
    )
}

/// The trades as output messages, in order.
pub open spec fn trade_events(trades: Seq<TradeView>) -> Seq<OutputMessageView> {
    Seq::new(trades.len(), |i: int| OutputMessageView::Trade(trades[i]))
}

/// The value of an order book.
pub struct BookView {
    /// The symbol that the book trades.
    pub symbol: Seq<char>,
    /// The buy side.
    pub bids: Levels,
    /// The sell side.
    pub asks: Levels,
    /// The top of book as last reported, kept to tell changes.
    pub reported: TopOfBookSnapshot,
}

impl BookView {
    /// The book of a symbol before any order.
    pub open spec fn empty(symbol: Seq<char>) -> BookView {
        BookView {
            symbol,
            bids: Map::empty(),
            asks: Map::empty(),
            reported: TopOfBookSnapshot::zero(),
        }
    }

    /// The levels of one side.
    pub open spec fn levels(self, side: Side) -> Levels {
        match side {
            Side::Buy => self.bids,
            Side::Sell => self.asks,
        }
    }

    /// This book with the levels of `side` and of the opposite side
    /// replaced.
    pub open spec fn with_levels(self, side: Side, own: Levels, opposite: Levels) -> BookView {
        match side {
            Side::Buy => BookView { bids: own, asks: opposite, ..self },
            Side::Sell => BookView { bids: opposite, asks: own, ..self },
        }
    }

    /// The top of the book as it stands now.
    pub open spec fn top(self) -> TopOfBookSnapshot {
        TopOfBookSnapshot {
            bid_price: top_price(self.bids, Side::Buy),
            bid_quantity: top_quantity(self.bids, Side::Buy) as u32,
            ask_price: top_price(self.asks, Side::Sell),
            ask_quantity: top_quantity(self.asks, Side::Sell) as u32,
        }
    }

    /// What holds of the two sides of a book at rest: every level is well
    /// formed, and no bid stands at or above an ask.
    pub open spec fn levels_wf(self) -> bool {
        &&& side_wf(self.bids, Side::Buy)
        &&& side_wf(self.asks, Side::Sell)
        &&& uncrossed(self.bids, self.asks)
    }

    /// The invariant of a book at rest: its sides are well formed, and the
    /// top last reported is the top as it stands.
    pub open spec fn wf(self) -> bool {
        &&& self.levels_wf()
        &&& self.reported == self.top()
    }

    /// The total resting on `side` at `price`; zero where nothing rests.
    pub open spec fn resting_at(self, side: Side, price: u32) -> int {
        if self.levels(side).contains_key(price) {
            level_quantity(self.levels(side)[price])
        } else {
            0
        }
    }

    /// What matching the order of `msg` against this book leaves behind.
    pub open spec fn matched(self, msg: NewOrderView) -> MatchResult {
        match_order(self.symbol, self.levels(msg.side.opposite()), OrderView::placed(msg))
    }

    /// True when the order of `msg` rests after matching: it is a limit
    /// order and part of it remains.
    pub open spec fn rests(self, msg: NewOrderView) -> bool {
        msg.order_type() == OrderType::Limit && self.matched(msg).remaining > 0
    }

    /// True when the book can take the order of `msg` within the range of
    /// its quantities: if the order rests, the total at its price still
    /// fits in `u32`.
    pub open spec fn has_room(self, msg: NewOrderView) -> bool {
        self.rests(msg) ==> self.resting_at(msg.side, msg.price) + self.matched(msg).remaining
            <= u32::MAX
    }

    /// A test for room that does not look at the opposing side: the order
    /// is a market order, or the total at its price and its whole quantity
    /// fit in `u32` together.
    pub open spec fn surely_has_room(self, msg: NewOrderView) -> bool {
        msg.price == 0 || self.resting_at(msg.side, msg.price) + msg.quantity <= u32::MAX
    }

    /// The book after the order of `msg` was matched and, if it rests,
    /// rested; the reported top is not yet brought up to date.
    pub open spec fn after_match(self, msg: NewOrderView) -> BookView {
        let m = self.matched(msg);
        let own = self.levels(msg.side);
        let own_after = if self.rests(msg) {
            rest_order(own, OrderView::placed(msg).with_remaining(m.remaining))
        } else {
            own
        };
        self.with_levels(msg.side, own_after, m.levels)
    }

    /// The book after an order, and what is sent out: the acknowledgement,
    /// the trades in order, then the changes of the top.
    pub open spec fn add_order(self, msg: NewOrderView) -> (BookView, Seq<OutputMessageView>) {
        let book = self.after_match(msg);
        (
            BookView { reported: book.top(), ..book },
            seq![OutputMessageView::ack(msg.user_id, msg.user_order_id, self.symbol)]
                + trade_events(self.matched(msg).trades) + top_changes(
                self.symbol,
                self.reported,
                book.top(),
            ),
        )
    }

    /// True when an order resting in the book carries the identifiers.
    pub open spec fn holds(self, user_id: u32, user_order_id: u32) -> bool {
        side_holds(self.bids, user_id, user_order_id) || side_holds(
            self.asks,
            user_id,
            user_order_id,
        )
    }

    /// The book after the cancel of the identifiers, before the reported
    /// top is brought up to date. The bids are searched before the asks,
    /// each side from its lowest price upwards and each queue from its
    /// oldest order; the first order found leaves.
    pub open spec fn after_cancel(self, user_id: u32, user_order_id: u32) -> BookView {
        if side_holds(self.bids, user_id, user_order_id) {
            BookView { bids: cancel_in_side(self.bids, user_id, user_order_id), ..self }
        } else {
            BookView { asks: cancel_in_side(self.asks, user_id, user_order_id), ..self }
        }
    }

    /// The book after a cancel, and what is sent out: the acknowledgement
    /// always, then the changes of the top.
    pub open spec fn cancel_order(self, user_id: u32, user_order_id: u32) -> (
        BookView,
        Seq<OutputMessageView>,
    ) {
        let book = self.after_cancel(user_id, user_order_id);
        let ack = seq![OutputMessageView::cancel_ack(user_id, user_order_id, self.symbol)];
        if self.holds(user_id, user_order_id) {
            (
                BookView { reported: book.top(), ..book },
                ack + top_changes(self.symbol, self.reported, book.top()),
            )
        } else {
            (self, ack)
        }
    }

    /// The book after a flush: as it was before any order.
    pub open spec fn flush(self) -> BookView {
        BookView::empty(self.symbol)
    }

    /// The two reports that answer a query: the bid, then the ask. The
    /// book is left as it is.
    pub open spec fn query(self) -> Seq<OutputMessageView> {
        let top = self.top();
        seq![
            OutputMessageView::side_report(self.symbol, Side::Buy, top.bid_price, top.bid_quantity),
            OutputMessageView::side_report(self.symbol, Side::Sell, top.ask_price, top.ask_quantity),
        ]
    }
}


/// A side has at most one best price.
pub proof fn lemma_best_is_unique(levels: Levels, side: Side, p: u32)
    requires
        is_best(levels, side, p),
    ensures
        best_price(levels, side) == Some(p),
{
    let q = choose|q: u32| is_best(levels, side, q);
    assert(levels.contains_key(p) && levels.contains_key(q));
}

/// The total of the first `n` orders of a queue is at most the total of
/// the queue.
pub proof fn lemma_quantity_of_prefix(queue: Seq<OrderView>, n: int)
    requires
        0 <= n <= queue.len(),
    ensures
        level_quantity(queue.take(n)) <= level_quantity(queue),
    decreases queue.len() - n,
{
    if n < queue.len() {
        assert(queue.take(n + 1).drop_last() == queue.take(n));
        lemma_quantity_of_prefix(queue, n + 1);
    } else {
        assert(queue.take(n) == queue);
    }
}

/// A book without orders is well formed, and its top is all zero.
pub proof fn lemma_empty_book_wf(symbol: Seq<char>)
    ensures
        BookView::empty(symbol).wf(),
        BookView::empty(symbol).top() == TopOfBookSnapshot::zero(),
{
    let book = BookView::empty(symbol);
    assert forall|p: u32| !is_best(book.bids, Side::Buy, p) by {}
    assert forall|p: u32| !is_best(book.asks, Side::Sell, p) by {}
}


/// The total of a queue is the remaining quantity of its oldest order plus
/// the total of the others.
pub proof fn lemma_quantity_from_front(queue: Seq<OrderView>)
    requires
        queue.len() > 0,
    ensures
        level_quantity(queue) == queue[0].remaining_qty + level_quantity(queue.drop_first()),
    decreases queue.len(),
{
    if queue.len() == 1 {
        assert(queue.drop_last() == Seq::<OrderView>::empty());
        assert(queue.drop_first() == Seq::<OrderView>::empty());
    } else {
        lemma_quantity_from_front(queue.drop_last());
        assert(queue.drop_last().drop_first() == queue.drop_first().drop_last());
    }
}

/// Taking one order out of a queue lowers the total by what remained of
/// that order.
pub proof fn lemma_quantity_without(queue: Seq<OrderView>, i: int)
    requires
        0 <= i < queue.len(),
    ensures
        level_quantity(queue.remove(i)) == level_quantity(queue) - queue[i].remaining_qty,
    decreases queue.len(),
{
    if i == queue.len() - 1 {
        assert(queue.remove(i) == queue.drop_last());
    } else {
        lemma_quantity_without(queue.drop_last(), i);
        assert(queue.remove(i).drop_last() == queue.drop_last().remove(i));
    }
}

/// A queue with one more order at its back totals that much more.
pub proof fn lemma_quantity_pushed(queue: Seq<OrderView>, order: OrderView)
    ensures
        level_quantity(queue.push(order)) == level_quantity(queue) + order.remaining_qty,
{
    assert(queue.push(order).drop_last() == queue);
}

/// A fill at the front of a well-formed queue leaves well-formed orders,
/// and lowers the total by the quantity filled.
pub proof fn lemma_fill_keeps_orders(queue: Seq<OrderView>, side: Side, price: u32, quantity: u32)
    requires
        queue.len() > 0,
        orders_wf(queue, side, price),
        0 < quantity <= queue[0].remaining_qty,
    ensures
        orders_wf(queue_after_fill(queue, quantity), side, price),
        level_quantity(queue_after_fill(queue, quantity)) == level_quantity(queue) - quantity,
{
    let after = queue_after_fill(queue, quantity);
    lemma_quantity_from_front(queue);
    if queue[0].remaining_qty <= quantity {
        assert forall|i: int| 0 <= i < after.len() implies resting_wf(
            #[trigger] after[i],
            side,
            price,
        ) by {
            assert(after[i] == queue[i + 1]);
        }
    } else {
        lemma_quantity_from_front(after);
        assert(after.drop_first() == queue.drop_first());
        assert forall|i: int| 0 <= i < after.len() implies resting_wf(
            #[trigger] after[i],
            side,
            price,
        ) by {
            if i > 0 {
                assert(after[i] == queue[i]);
            } else {
                assert(resting_wf(queue[0], side, price));
            }
        }
    }
}

/// Among the prices of a side that are at most `bound`, one is highest.
proof fn lemma_highest_below(levels: Levels, bound: u32)
    requires
        exists|k: u32| levels.contains_key(k) && k <= bound,
    ensures
        exists|p: u32|
            levels.contains_key(p) && p <= bound && forall|q: u32| #[trigger]
                levels.contains_key(q) && q <= bound ==> q <= p,
    decreases bound,
{
    if levels.contains_key(bound) {
        assert(levels.contains_key(bound) && bound <= bound && forall|q: u32| #[trigger]
            levels.contains_key(q) && q <= bound ==> q <= bound);
    } else {
        let k = choose|k: u32| levels.contains_key(k) && k <= bound;
        assert(k < bound);
        let lower = (bound - 1) as u32;
        assert(levels.contains_key(k) && k <= lower);
        lemma_highest_below(levels, lower);
        let p = choose|p: u32|
            levels.contains_key(p) && p <= lower && forall|q: u32| #[trigger]
                levels.contains_key(q) && q <= lower ==> q <= p;
        assert(levels.contains_key(p) && p <= bound && forall|q: u32| #[trigger]
            levels.contains_key(q) && q <= bound ==> q <= p);
    }
}

/// Among the prices of a side that are at least `bound`, one is lowest.
proof fn lemma_lowest_above(levels: Levels, bound: u32)
    requires
        exists|k: u32| levels.contains_key(k) && k >= bound,
    ensures
        exists|p: u32|
            levels.contains_key(p) && p >= bound && forall|q: u32| #[trigger]
                levels.contains_key(q) && q >= bound ==> p <= q,
    decreases u32::MAX - bound,
{
    if levels.contains_key(bound) {
        assert(levels.contains_key(bound) && bound >= bound && forall|q: u32| #[trigger]
            levels.contains_key(q) && q >= bound ==> bound <= q);
    } else {
        let k = choose|k: u32| levels.contains_key(k) && k >= bound;
        assert(k > bound);
        let higher = (bound + 1) as u32;
        assert(levels.contains_key(k) && k >= higher);
        lemma_lowest_above(levels, higher);
        let p = choose|p: u32|
            levels.contains_key(p) && p >= higher && forall|q: u32| #[trigger]
                levels.contains_key(q) && q >= higher ==> p <= q;
        assert(levels.contains_key(p) && p >= bound && forall|q: u32| #[trigger]
            levels.contains_key(q) && q >= bound ==> p <= q);
    }
}

/// A side that holds any price has a best price, and only such a side.
pub proof fn lemma_best_exists(levels: Levels, side: Side)
    ensures
        best_price(levels, side) is Some <==> exists|k: u32| levels.contains_key(k),
        best_price(levels, side) matches Some(p) ==> is_best(levels, side, p),
{
    if exists|k: u32| levels.contains_key(k) {
        let k = choose|k: u32| levels.contains_key(k);
        match side {
            Side::Buy => {
                assert(levels.contains_key(k) && k <= u32::MAX);
                lemma_highest_below(levels, u32::MAX);
                let p = choose|p: u32|
                    levels.contains_key(p) && p <= u32::MAX && forall|q: u32| #[trigger]
                        levels.contains_key(q) && q <= u32::MAX ==> q <= p;
                assert(is_best(levels, side, p));
            },
            Side::Sell => {
                assert(levels.contains_key(k) && k >= 0);
                lemma_lowest_above(levels, 0);
                let p = choose|p: u32|
                    levels.contains_key(p) && p >= 0 && forall|q: u32| #[trigger]
                        levels.contains_key(q) && q >= 0 ==> p <= q;
                assert(is_best(levels, side, p));
            },
        }
    }
    if best_price(levels, side) is Some {
        let p = choose|p: u32| is_best(levels, side, p);
        assert(levels.contains_key(p));
    }
}

/// One step of matching. Where part of the incoming order remains, the
/// price `p` is the best of the opposing side and crosses, and the oldest
/// order there can trade, matching is that trade followed by the matching
/// of what is left.
pub proof fn lemma_match_step(
    symbol: Seq<char>,
    others: Levels,
    p: u32,
    queue: Seq<OrderView>,
    incoming: OrderView,
)
    requires
        incoming.remaining_qty > 0,
        queue.len() > 0,
        queue[0].remaining_qty > 0,
        crosses(incoming, p),
        nothing_betters(others, incoming.side.opposite(), p),
    ensures
        ({
            let quantity = smaller(incoming.remaining_qty, queue[0].remaining_qty);
            match_order(symbol, others.insert(p, queue), incoming) == match_order(
                symbol,
                with_queue(others.remove(p), p, queue_after_fill(queue, quantity)),
                incoming.with_remaining((incoming.remaining_qty - quantity) as u32),
            ).after(seq![trade_between(symbol, incoming, queue[0], p, quantity)])
        }),
{
    let levels = others.insert(p, queue);
    let side = incoming.side.opposite();
    assert(is_best(levels, side, p));
    lemma_best_is_unique(levels, side, p);
    let quantity = smaller(incoming.remaining_qty, queue[0].remaining_qty);
    assert(with_queue(levels, p, queue_after_fill(queue, quantity)) == with_queue(
        others.remove(p),
        p,
        queue_after_fill(queue, quantity),
    ));
}

/// Matching ends, with nothing traded, where nothing remains of the
/// incoming order, where the opposing side is empty, and where its best
/// price does not cross.
pub proof fn lemma_match_stops(symbol: Seq<char>, levels: Levels, incoming: OrderView)
    requires
        incoming.remaining_qty == 0 || best_price(levels, incoming.side.opposite()) is None || (
        best_price(levels, incoming.side.opposite()) matches Some(p) && !crosses(incoming, p)),
    ensures
        match_order(symbol, levels, incoming) == (MatchResult {
            levels,
            remaining: incoming.remaining_qty,
            trades: Seq::empty(),
        }),
{
}

/// What matching does to a well-formed opposing side: the side stays well
/// formed, no price is added, the incoming order does not grow, and
/// matching goes on until nothing remains of the order or no price of the
/// side crosses any more.
pub proof fn lemma_match_order_props(symbol: Seq<char>, levels: Levels, incoming: OrderView)
    requires
        side_wf(levels, incoming.side.opposite()),
    ensures
        ({
            let m = match_order(symbol, levels, incoming);
            &&& side_wf(m.levels, incoming.side.opposite())
            &&& forall|p: u32| m.levels.contains_key(p) ==> levels.contains_key(p)
            &&& m.remaining <= incoming.remaining_qty
            &&& m.remaining == 0 || forall|p: u32|
                m.levels.contains_key(p) ==> !crosses(incoming, p)
        }),
    decreases incoming.remaining_qty,
{
    let side = incoming.side.opposite();
    lemma_best_exists(levels, side);
    if incoming.remaining_qty > 0 {
        match best_price(levels, side) {
            None => {},
            Some(p) => {
                let queue = levels[p];
                assert(is_best(levels, side, p));
                assert(level_wf(queue, side, p));
                assert(resting_wf(queue[0], side, p));
                if crosses(incoming, p) {
                    let quantity = smaller(incoming.remaining_qty, queue[0].remaining_qty);
                    let filled = queue_after_fill(queue, quantity);
                    let next = with_queue(levels, p, filled);
                    let left = incoming.with_remaining((incoming.remaining_qty - quantity) as u32);
                    lemma_fill_keeps_orders(queue, side, p, quantity);
                    assert forall|q: u32| next.contains_key(q) implies level_wf(
                        #[trigger] next[q],
                        side,
                        q,
                    ) by {
                        if q != p {
                            assert(levels.contains_key(q));
                            assert(next[q] == levels[q]);
                        } else {
                            assert(next[q] == filled);
                        }
                    }
                    assert(side_wf(next, left.side.opposite()));
                    lemma_match_order_props(symbol, next, left);
                    let rest = match_order(symbol, next, left);
                    let m = match_order(symbol, levels, incoming);
                    assert(m.levels == rest.levels);
                    assert(m.remaining == rest.remaining);
                    assert forall|q: u32| m.levels.contains_key(q) implies levels.contains_key(
                        q,
                    ) by {
                        assert(next.contains_key(q));
                    }
                    if m.remaining != 0 {
                        assert forall|q: u32| m.levels.contains_key(q) implies !crosses(
                            incoming,
                            q,
                        ) by {
                            assert(!crosses(left, q));
                        }
                    }
                } else {
                    assert forall|q: u32| levels.contains_key(q) implies !crosses(incoming, q) by {
                        assert(is_best(levels, side, p));
                    }
                }
            },
        }
    }
}

/// An order whose whole quantity fits beside what rests at its price has
/// room, whatever matching leaves of it.
pub proof fn lemma_surely_has_room(book: BookView, msg: NewOrderView)
    requires
        book.levels_wf(),
        book.surely_has_room(msg),
    ensures
        book.has_room(msg),
{
    lemma_match_order_props(
        book.symbol,
        book.levels(msg.side.opposite()),
        OrderView::placed(msg),
    );
}

/// An order keeps a book well formed: after matching and resting, every
/// level of both sides is non-empty and holds only orders of its side and
/// price with something left to trade, and no bid stands at or above an
/// ask.
pub proof fn lemma_add_order_wf(book: BookView, msg: NewOrderView)
    requires
        book.levels_wf(),
        book.has_room(msg),
    ensures
        book.after_match(msg).levels_wf(),
        book.add_order(msg).0.wf(),
{
    let incoming = OrderView::placed(msg);
    let own = book.levels(msg.side);
    let opposing = book.levels(msg.side.opposite());
    let m = book.matched(msg);
    let after = book.after_match(msg);
    lemma_match_order_props(book.symbol, opposing, incoming);
    assert(after.levels(msg.side.opposite()) == m.levels);
    if book.rests(msg) {
        let resting = incoming.with_remaining(m.remaining);
        let queue = if own.contains_key(msg.price) {
            own[msg.price]
        } else {
            Seq::empty()
        };
        let own_after = rest_order(own, resting);
        assert(after.levels(msg.side) == own_after);
        lemma_quantity_pushed(queue, resting);
        assert(resting_wf(resting, msg.side, msg.price));
        assert forall|p: u32| own_after.contains_key(p) implies level_wf(
            #[trigger] own_after[p],
            msg.side,
            p,
        ) by {
            if p == msg.price {
                let longer = queue.push(resting);
                assert(own_after[p] == longer);
                assert forall|i: int| 0 <= i < longer.len() implies resting_wf(
                    #[trigger] longer[i],
                    msg.side,
                    p,
                ) by {
                    if i < queue.len() {
                        assert(longer[i] == queue[i]);
                        assert(level_wf(own[p], msg.side, p));
                    }
                }
            } else {
                assert(own.contains_key(p));
                assert(own_after[p] == own[p]);
            }
        }
        assert forall|b: u32, a: u32| #[trigger]
            after.bids.contains_key(b) && #[trigger] after.asks.contains_key(a) implies b
            < a by {
            match msg.side {
                Side::Buy => {
                    assert(book.asks.contains_key(a));
                    if b == msg.price {
                        assert(!crosses(incoming, a));
                    } else {
                        assert(book.bids.contains_key(b));
                    }
                },
                Side::Sell => {
                    assert(book.bids.contains_key(b));
                    if a == msg.price {
                        assert(!crosses(incoming, b));
                    } else {
                        assert(book.asks.contains_key(a));
                    }
                },
            }
        }
    } else {
        assert(after.levels(msg.side) == own);
        assert forall|b: u32, a: u32| #[trigger]
            after.bids.contains_key(b) && #[trigger] after.asks.contains_key(a) implies b
            < a by {
            assert(book.bids.contains_key(b) && book.asks.contains_key(a));
        }
    }
}

/// A side whose top price is zero is empty, if its levels are well
/// formed, and so is its top quantity.
pub proof fn lemma_top_quantity_of_no_price(levels: Levels, side: Side)
    requires
        side_wf(levels, side),
    ensures
        top_price(levels, side) == 0 ==> top_quantity(levels, side) == 0 && forall|p: u32|
            !levels.contains_key(p),
        0 <= top_quantity(levels, side) <= u32::MAX,
{
    lemma_best_exists(levels, side);
    match best_price(levels, side) {
        Some(p) => {
            assert(level_wf(levels[p], side, p));
            lemma_quantity_positive(levels[p], side, p);
        },
        None => {},
    }
}

/// The total of well-formed orders is not negative, and positive where
/// there is an order.
pub proof fn lemma_quantity_positive(queue: Seq<OrderView>, side: Side, price: u32)
    requires
        forall|i: int| 0 <= i < queue.len() ==> resting_wf(#[trigger] queue[i], side, price),
    ensures
        0 <= level_quantity(queue),
        queue.len() > 0 ==> 0 < level_quantity(queue),
    decreases queue.len(),
{
    if queue.len() > 0 {
        let shorter = queue.drop_last();
        assert forall|i: int| 0 <= i < shorter.len() implies resting_wf(
            #[trigger] shorter[i],
            side,
            price,
        ) by {
            assert(shorter[i] == queue[i]);
        }
        lemma_quantity_positive(shorter, side, price);
        assert(resting_wf(queue[queue.len() - 1], side, price));
    }
}

/// A queue that holds the identifiers from place `n` on, and not before,
/// has an oldest order that carries them.
proof fn lemma_first_in_queue_from(queue: Seq<OrderView>, user_id: u32, user_order_id: u32, n: int)
    requires
        0 <= n <= queue.len(),
        forall|j: int| 0 <= j < n ==> !(#[trigger] queue[j]).is_named(user_id, user_order_id),
        queue_holds(queue, user_id, user_order_id),
    ensures
        exists|i: int| is_first_in_queue(queue, user_id, user_order_id, i),
    decreases queue.len() - n,
{
    if n < queue.len() && queue[n].is_named(user_id, user_order_id) {
        assert(is_first_in_queue(queue, user_id, user_order_id, n));
    } else {
        let k = choose|k: int|
            0 <= k < queue.len() && (#[trigger] queue[k]).is_named(user_id, user_order_id);
        assert(n < queue.len());
        assert forall|j: int| 0 <= j < n + 1 implies !(#[trigger] queue[j]).is_named(
            user_id,
            user_order_id,
        ) by {}
        lemma_first_in_queue_from(queue, user_id, user_order_id, n + 1);
    }
}

/// The cancel of identifiers found at price `p`, in place `i` of the
/// queue, where no lower price and no older order of the queue carries
/// them: that order leaves, and an emptied queue takes its price with it.
pub proof fn lemma_cancel_found(levels: Levels, user_id: u32, user_order_id: u32, p: u32, i: int)
    requires
        is_first_level(levels, user_id, user_order_id, p),
        is_first_in_queue(levels[p], user_id, user_order_id, i),
    ensures
        side_holds(levels, user_id, user_order_id),
        cancel_in_side(levels, user_id, user_order_id) == with_queue(
            levels,
            p,
            levels[p].remove(i),
        ),
{
    let p2 = choose|p2: u32| is_first_level(levels, user_id, user_order_id, p2);
    assert(levels.contains_key(p) && levels.contains_key(p2));
    assert(p2 == p);
    let i2 = choose|i2: int| is_first_in_queue(levels[p], user_id, user_order_id, i2);
    assert(i2 == i) by {
        if i2 < i {
            assert(!levels[p][i2].is_named(user_id, user_order_id));
        }
        if i < i2 {
            assert(!levels[p][i].is_named(user_id, user_order_id));
        }
    }
}

/// The cancel of identifiers that no order of the side carries leaves the
/// side as it is.
pub proof fn lemma_cancel_not_found(levels: Levels, user_id: u32, user_order_id: u32)
    requires
        !side_holds(levels, user_id, user_order_id),
    ensures
        cancel_in_side(levels, user_id, user_order_id) == levels,
{
    assert forall|p: u32| !is_first_level(levels, user_id, user_order_id, p) by {
        if is_first_level(levels, user_id, user_order_id, p) {
            assert(levels.contains_key(p) && queue_holds(levels[p], user_id, user_order_id));
        }
    }
}

/// A cancel keeps a side well formed and adds no price to it.
pub proof fn lemma_cancel_in_side_wf(levels: Levels, side: Side, user_id: u32, user_order_id: u32)
    requires
        side_wf(levels, side),
    ensures
        side_wf(cancel_in_side(levels, user_id, user_order_id), side),
        forall|p: u32|
            cancel_in_side(levels, user_id, user_order_id).contains_key(p) ==> levels.contains_key(
                p,
            ),
{
    let after = cancel_in_side(levels, user_id, user_order_id);
    if exists|p: u32| is_first_level(levels, user_id, user_order_id, p) {
        let p = choose|p: u32| is_first_level(levels, user_id, user_order_id, p);
        let queue = levels[p];
        lemma_first_in_queue_from(queue, user_id, user_order_id, 0);
        let i = choose|i: int| is_first_in_queue(queue, user_id, user_order_id, i);
        let shorter = queue.remove(i);
        assert(level_wf(queue, side, p));
        lemma_quantity_without(queue, i);
        assert forall|j: int| 0 <= j < shorter.len() implies resting_wf(
            #[trigger] shorter[j],
            side,
            p,
        ) by {
            if j < i {
                assert(shorter[j] == queue[j]);
            } else {
                assert(shorter[j] == queue[j + 1]);
            }
        }
        assert forall|q: u32| after.contains_key(q) implies level_wf(#[trigger] after[q], side, q)
            && levels.contains_key(q) by {
            if q != p {
                assert(levels.contains_key(q));
                assert(after[q] == levels[q]);
            }
        }
    }
}

/// A cancel keeps a book well formed.
pub proof fn lemma_cancel_order_wf(book: BookView, user_id: u32, user_order_id: u32)
    requires
        book.wf(),
    ensures
        book.after_cancel(user_id, user_order_id).levels_wf(),
        book.cancel_order(user_id, user_order_id).0.wf(),
{
    let after = book.after_cancel(user_id, user_order_id);
    lemma_cancel_in_side_wf(book.bids, Side::Buy, user_id, user_order_id);
    lemma_cancel_in_side_wf(book.asks, Side::Sell, user_id, user_order_id);
    assert forall|b: u32, a: u32| #[trigger]
        after.bids.contains_key(b) && #[trigger] after.asks.contains_key(a) implies b < a by {
        assert(book.bids.contains_key(b) && book.asks.contains_key(a));
    }
}

/// True when a run of messages holds a top-of-book report of `side`.
pub open spec fn reports_side(msgs: Seq<OutputMessageView>, side: Side) -> bool {
    exists|i: int|
        0 <= i < msgs.len() && (#[trigger] msgs[i] matches OutputMessageView::TopOfBook(t)
            && t.side == side)
}

/// True when a run of messages holds a trade.
pub open spec fn reports_trade(msgs: Seq<OutputMessageView>) -> bool {
    exists|i: int| 0 <= i < msgs.len() && #[trigger] msgs[i] is Trade
}

/// Where both sides of a well-formed book hold orders, the best bid is
/// below the best ask: the book is neither locked nor crossed.
pub proof fn lemma_best_bid_below_best_ask(book: BookView)
    requires
        book.levels_wf(),
    ensures
        best_price(book.bids, Side::Buy) matches Some(bid) ==> (best_price(
            book.asks,
            Side::Sell,
        ) matches Some(ask) ==> bid < ask),
        book.top().bid_price > 0 && book.top().ask_price > 0 ==> book.top().bid_price
            < book.top().ask_price,
        book.top().bid_price > 0 <==> exists|p: u32| book.bids.contains_key(p),
        book.top().ask_price > 0 <==> exists|p: u32| book.asks.contains_key(p),
{
    lemma_best_exists(book.bids, Side::Buy);
    lemma_best_exists(book.asks, Side::Sell);
    if best_price(book.bids, Side::Buy) is Some {
        let bid = best_price(book.bids, Side::Buy)->0;
        assert(level_wf(book.bids[bid], Side::Buy, bid));
    }
    if best_price(book.asks, Side::Sell) is Some {
        let ask = best_price(book.asks, Side::Sell)->0;
        assert(level_wf(book.asks[ask], Side::Sell, ask));
    }
}

/// The top of a well-formed book is the best price of each side with the
/// total of the queue there, and each total fits in `u32`.
pub proof fn lemma_top_is_total_at_best(book: BookView)
    requires
        book.levels_wf(),
    ensures
        best_price(book.bids, Side::Buy) matches Some(bid) ==> book.top().bid_price == bid
            && book.top().bid_quantity == level_quantity(book.bids[bid]),
        best_price(book.asks, Side::Sell) matches Some(ask) ==> book.top().ask_price == ask
            && book.top().ask_quantity == level_quantity(book.asks[ask]),
        best_price(book.bids, Side::Buy) is None ==> book.top().bid_price == 0
            && book.top().bid_quantity == 0,
        best_price(book.asks, Side::Sell) is None ==> book.top().ask_price == 0
            && book.top().ask_quantity == 0,
{
    lemma_top_quantity_of_no_price(book.bids, Side::Buy);
    lemma_top_quantity_of_no_price(book.asks, Side::Sell);
}

/// What is reported is what is remembered. Of the reports that a new top
/// calls for, each carries the price and the quantity of its side in the
/// new top, and is marked eliminated exactly when that price is zero; a
/// side without a report has the top that was reported before.
pub proof fn lemma_reports_carry_new_top(
    symbol: Seq<char>,
    reported: TopOfBookSnapshot,
    now: TopOfBookSnapshot,
)
    requires
        now.bid_price == 0 ==> now.bid_quantity == 0,
        now.ask_price == 0 ==> now.ask_quantity == 0,
    ensures
        ({
            let reports = top_changes(symbol, reported, now);
            &&& reports.len() <= 2
            &&& forall|i: int|
                0 <= i < reports.len() ==> (#[trigger] reports[i] matches OutputMessageView::TopOfBook(
                    t,
                ) && t.symbol == symbol && match t.side {
                    Side::Buy => t.price == now.bid_price && t.total_quantity == now.bid_quantity
                        && t.eliminated == (now.bid_price == 0),
                    Side::Sell => t.price == now.ask_price && t.total_quantity == now.ask_quantity
                        && t.eliminated == (now.ask_price == 0),
                })
            &&& reports.len() == 2 ==> (reports[0] matches OutputMessageView::TopOfBook(first)
                && first.side == Side::Buy) && (reports[1] matches OutputMessageView::TopOfBook(
                second,
            ) && second.side == Side::Sell)
            &&& !reports_side(reports, Side::Buy) <==> reported.bid_price == now.bid_price
                && reported.bid_quantity == now.bid_quantity
            &&& !reports_side(reports, Side::Sell) <==> reported.ask_price == now.ask_price
                && reported.ask_quantity == now.ask_quantity
        }),
{
    let reports = top_changes(symbol, reported, now);
    let bid = side_change(
        symbol,
        Side::Buy,
        (reported.bid_price, reported.bid_quantity),
        (now.bid_price, now.bid_quantity),
    );
    let ask = side_change(
        symbol,
        Side::Sell,
        (reported.ask_price, reported.ask_quantity),
        (now.ask_price, now.ask_quantity),
    );
    assert(reports == bid + ask);
    if bid.len() > 0 {
        assert(reports[0] == bid[0]);
    }
    if ask.len() > 0 {
        assert(reports[bid.len() as int] == ask[0]);
    }
}

/// The cancel of identifiers that no resting order carries is acknowledged
/// and leaves the book as it is, however often it is repeated.
pub proof fn lemma_cancel_of_absent_order(book: BookView, user_id: u32, user_order_id: u32)
    requires
        !book.holds(user_id, user_order_id),
    ensures
        book.cancel_order(user_id, user_order_id) == (
            book,
            seq![OutputMessageView::cancel_ack(user_id, user_order_id, book.symbol)],
        ),
{
}

/// A flush gives the book of the symbol before any order, which is well
/// formed; a second flush changes nothing.
pub proof fn lemma_flush_is_idempotent(book: BookView)
    ensures
        book.flush() == BookView::empty(book.symbol),
        book.flush().flush() == book.flush(),
        book.flush().wf(),
{
    lemma_empty_book_wf(book.symbol);
}

/// A market order never rests. It trades until nothing remains of it or
/// the opposing side is empty, what then remains is dropped, and its own
/// side, which did not change, is not reported.
pub proof fn lemma_market_order_takes_what_is_there(book: BookView, msg: NewOrderView)
    requires
        book.wf(),
        msg.price == 0,
    ensures
        book.has_room(msg),
        ({
            let (after, outputs) = book.add_order(msg);
            &&& after.levels(msg.side) == book.levels(msg.side)
            &&& book.matched(msg).remaining == 0 || forall|p: u32|
                !after.levels(msg.side.opposite()).contains_key(p)
            &&& !reports_side(outputs, msg.side)
        }),
{
    let incoming = OrderView::placed(msg);
    let m = book.matched(msg);
    let (after, outputs) = book.add_order(msg);
    lemma_match_order_props(book.symbol, book.levels(msg.side.opposite()), incoming);
    if m.remaining != 0 {
        assert forall|p: u32| !after.levels(msg.side.opposite()).contains_key(p) by {
            if m.levels.contains_key(p) {
                assert(crosses(incoming, p));
            }
        }
    }
    let now = book.after_match(msg).top();
    let ack = seq![OutputMessageView::ack(msg.user_id, msg.user_order_id, book.symbol)];
    let trades = trade_events(m.trades);
    let reports = top_changes(book.symbol, book.reported, now);
    lemma_add_order_wf(book, msg);
    lemma_top_quantity_of_no_price(book.after_match(msg).bids, Side::Buy);
    lemma_top_quantity_of_no_price(book.after_match(msg).asks, Side::Sell);
    lemma_reports_carry_new_top(book.symbol, book.reported, now);
    assert(!reports_side(reports, msg.side));
    assert forall|i: int| 0 <= i < outputs.len() implies !(#[trigger] outputs[i] matches OutputMessageView::TopOfBook(
        t,
    ) && t.side == msg.side) by {
        if i >= 1 + trades.len() {
            assert(outputs[i] == reports[i - 1 - trades.len()]);
        } else if i >= 1 {
            assert(outputs[i] == trades[i - 1]);
        }
    }
}

/// A limit order whose price does not cross the best opposing price rests
/// in full, behind the orders already waiting at its price; nothing
/// trades, and the opposing side is left as it is.
pub proof fn lemma_passive_limit_order_rests(book: BookView, msg: NewOrderView)
    requires
        msg.price > 0,
        msg.quantity > 0,
        best_price(book.levels(msg.side.opposite()), msg.side.opposite()) matches Some(p)
            ==> !crosses(OrderView::placed(msg), p),
    ensures
        book.matched(msg).trades == Seq::<TradeView>::empty(),
        book.matched(msg).remaining == msg.quantity,
        book.rests(msg),
        ({
            let (after, outputs) = book.add_order(msg);
            &&& after.levels(msg.side) == rest_order(book.levels(msg.side), OrderView::placed(msg))
            &&& after.levels(msg.side.opposite()) == book.levels(msg.side.opposite())
            &&& !reports_trade(outputs)
        }),
{
    let incoming = OrderView::placed(msg);
    lemma_match_stops(book.symbol, book.levels(msg.side.opposite()), incoming);
    assert(incoming.with_remaining(msg.quantity) == incoming);
    let (after, outputs) = book.add_order(msg);
    let reports = top_changes(book.symbol, book.reported, book.after_match(msg).top());
    assert(trade_events(book.matched(msg).trades) =~= Seq::<OutputMessageView>::empty());
    assert forall|i: int| 0 <= i < outputs.len() implies !(#[trigger] outputs[i] is Trade) by {
        if i >= 1 {
            assert(outputs[i] == reports[i - 1]);
            if reports.len() == 2 {
                assert(reports[0] is TopOfBook && reports[1] is TopOfBook);
            } else if reports.len() == 1 {
                assert(reports[0] is TopOfBook);
            }
        }
    }
}

/// What is sent out for one order: the acknowledgement first, then one
/// message for each trade in order, then at most two reports.
pub proof fn lemma_add_order_outputs_in_order(book: BookView, msg: NewOrderView)
    ensures
        ({
            let outputs = book.add_order(msg).1;
            let trades = book.matched(msg).trades;
            &&& 1 + trades.len() <= outputs.len() <= 3 + trades.len()
            &&& outputs[0] == OutputMessageView::ack(msg.user_id, msg.user_order_id, book.symbol)
            &&& forall|i: int|
                0 <= i < trades.len() ==> #[trigger] outputs[1 + i] == OutputMessageView::Trade(
                    trades[i],
                )
            &&& forall|i: int| 1 + trades.len() <= i < outputs.len() ==> #[trigger] outputs[i] is TopOfBook
        }),
{
    let outputs = book.add_order(msg).1;
    let trades = trade_events(book.matched(msg).trades);
    let reports = top_changes(book.symbol, book.reported, book.after_match(msg).top());
    assert forall|i: int| 1 + trades.len() <= i < outputs.len() implies #[trigger] outputs[i] is TopOfBook by {
        assert(outputs[i] == reports[i - 1 - trades.len()]);
        if reports.len() == 2 {
            assert(reports[0] is TopOfBook && reports[1] is TopOfBook);
        } else if reports.len() == 1 {
            assert(reports[0] is TopOfBook);
        }
    }
    assert forall|i: int| 0 <= i < trades.len() implies #[trigger] outputs[1 + i]
        == OutputMessageView::Trade(book.matched(msg).trades[i]) by {
        assert(outputs[1 + i] == trades[i]);
    }
}

/// The total quantity of a run of trades.
pub open spec fn traded_quantity(trades: Seq<TradeView>) -> int
    decreases trades.len(),
{
    if trades.len() == 0 {
        0
    } else {
        trades[0].quantity + traded_quantity(trades.drop_first())
    }
}

/// True when a trade names the incoming order on the side on which that
/// order trades.
pub open spec fn trade_is_of(trade: TradeView, incoming: OrderView) -> bool {
    match incoming.side {
        Side::Buy => trade.user_id_buy == incoming.user_id && trade.user_order_id_buy
            == incoming.user_order_id,
        Side::Sell => trade.user_id_sell == incoming.user_id && trade.user_order_id_sell
            == incoming.user_order_id,
    }
}

/// True when trading at `later` after `earlier` follows price priority for
/// the incoming side: a buyer meets asks at rising prices, a seller bids
/// at falling prices.
pub open spec fn in_price_order(side: Side, earlier: u32, later: u32) -> bool {
    match side {
        Side::Buy => earlier <= later,
        Side::Sell => earlier >= later,
    }
}

/// Price-time priority. The trades of one order
///
/// - are each for a positive quantity, in the book's symbol, with the
///   incoming order on its own side, at a price of the opposing side that
///   the order crosses: the price of the resting order, never beyond the
///   limit;
/// - begin, if there are any, with the oldest order at the best opposing
///   price, for the smaller of the two remaining quantities;
/// - go from better prices to worse, never back;
/// - add up to exactly what the incoming order lost.
pub proof fn lemma_trades_follow_priority(symbol: Seq<char>, levels: Levels, incoming: OrderView)
    requires
        side_wf(levels, incoming.side.opposite()),
    ensures
        ({
            let m = match_order(symbol, levels, incoming);
            &&& forall|i: int|
                0 <= i < m.trades.len() ==> {
                    let t = #[trigger] m.trades[i];
                    &&& t.quantity > 0
                    &&& t.symbol == symbol
                    &&& trade_is_of(t, incoming)
                    &&& levels.contains_key(t.price)
                    &&& crosses(incoming, t.price)
                }
            &&& m.trades.len() > 0 ==> (best_price(
                levels,
                incoming.side.opposite(),
            ) matches Some(p) && m.trades[0] == trade_between(
                symbol,
                incoming,
                levels[p][0],
                p,
                smaller(incoming.remaining_qty, levels[p][0].remaining_qty),
            ))
            &&& forall|i: int, j: int|
                0 <= i <= j < m.trades.len() ==> in_price_order(
                    incoming.side,
                    #[trigger] m.trades[i].price,
                    #[trigger] m.trades[j].price,
                )
            &&& traded_quantity(m.trades) == incoming.remaining_qty - m.remaining
        }),
    decreases incoming.remaining_qty,
{
    let side = incoming.side.opposite();
    let m = match_order(symbol, levels, incoming);
    lemma_best_exists(levels, side);
    if incoming.remaining_qty > 0 {
        match best_price(levels, side) {
            None => {},
            Some(p) => {
                let queue = levels[p];
                assert(is_best(levels, side, p));
                assert(level_wf(queue, side, p));
                assert(resting_wf(queue[0], side, p));
                if crosses(incoming, p) {
                    let quantity = smaller(incoming.remaining_qty, queue[0].remaining_qty);
                    let filled = queue_after_fill(queue, quantity);
                    let next = with_queue(levels, p, filled);
                    let left = incoming.with_remaining((incoming.remaining_qty - quantity) as u32);
                    let first = trade_between(symbol, incoming, queue[0], p, quantity);
                    lemma_fill_keeps_orders(queue, side, p, quantity);
                    assert forall|q: u32| next.contains_key(q) implies level_wf(
                        #[trigger] next[q],
                        side,
                        q,
                    ) by {
                        if q != p {
                            assert(levels.contains_key(q));
                            assert(next[q] == levels[q]);
                        } else {
                            assert(next[q] == filled);
                        }
                    }
                    lemma_trades_follow_priority(symbol, next, left);
                    let rest = match_order(symbol, next, left);
                    assert(m.trades == seq![first] + rest.trades);
                    assert(m.trades.drop_first() =~= rest.trades);
                    assert forall|i: int| 0 <= i < m.trades.len() implies {
                        let t = #[trigger] m.trades[i];
                        &&& t.quantity > 0
                        &&& t.symbol == symbol
                        &&& trade_is_of(t, incoming)
                        &&& levels.contains_key(t.price)
                        &&& crosses(incoming, t.price)
                    } by {
                        if i > 0 {
                            let t = rest.trades[i - 1];
                            assert(m.trades[i] == t);
                            assert(next.contains_key(t.price));
                            assert(crosses(left, t.price));
                            assert(trade_is_of(t, left));
                        }
                    }
                    assert forall|i: int, j: int| 0 <= i <= j < m.trades.len() implies in_price_order(
                        incoming.side,
                        #[trigger] m.trades[i].price,
                        #[trigger] m.trades[j].price,
                    ) by {
                        if i > 0 {
                            assert(m.trades[i] == rest.trades[i - 1]);
                            assert(m.trades[j] == rest.trades[j - 1]);
                        } else if j > 0 {
                            assert(m.trades[j] == rest.trades[j - 1]);
                            assert(next.contains_key(rest.trades[j - 1].price));
                            assert(levels.contains_key(m.trades[j].price));
                        }
                    }
                } else {
                    assert(m.trades.len() == 0);
                }
            },
        }
    }
}

} // verus!

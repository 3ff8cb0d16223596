//! The order book of one symbol, with price-time priority.
//!
//! Each side is a `BTreeMap` from price to the queue of orders resting at
//! that price. The best bid is the highest key of the bids, the best ask
//! the lowest key of the asks; within a price the oldest order trades
//! first.

use vstd::prelude::*;
use std::collections::BTreeMap;
use std::collections::VecDeque;
use crate::book_model::{
    best_price, cancel_in_side, crosses, is_best, is_first_in_queue, is_first_level,
    lemma_add_order_wf, lemma_best_exists, lemma_best_is_unique, lemma_cancel_found,
    lemma_cancel_not_found, lemma_cancel_order_wf, lemma_empty_book_wf, lemma_fill_keeps_orders,
    lemma_match_step, lemma_match_stops, lemma_quantity_of_prefix, lemma_surely_has_room,
    lemma_top_quantity_of_no_price, level_quantity, level_wf, match_order, nothing_betters,
    orders_wf, queue_after_fill, queue_holds, rest_order, resting_wf, side_holds, side_wf,
    smaller, top_changes, top_price, top_quantity, trade_between, trade_events, with_queue,
    BookView, Levels, MatchResult,
};
use crate::messages::{views_of, NewOrder, OutputMessage, OutputMessageView, TradeView};
use crate::order::{Order, OrderView};
use crate::order_type::OrderType;
use crate::side::Side;
use crate::top_of_book::TopOfBookSnapshot;

verus! {

/// One side as it is stored.
pub type PriceLevels = BTreeMap<u32, VecDeque<Order>>;

/// The values of the orders of a queue, oldest first.
pub open spec fn queue_view(queue: Seq<Order>) -> Seq<OrderView> {
    Seq::new(queue.len(), |i: int| queue[i]@)
}

/// The value of a stored side.
pub open spec fn levels_view(levels: Map<u32, VecDeque<Order>>) -> Levels {
    Map::new(|p: u32| levels.contains_key(p), |p: u32| queue_view(levels[p]@))
}

/// What `BTreeMap::first_key_value` gives, the key alone: the lowest price
/// that has a queue, and `None` exactly for a side without queues.
#[verifier::external_body]
fn lowest_price(levels: &PriceLevels) -> (r: Option<u32>)
    ensures
        match r {
            Some(p) => levels@.contains_key(p) && forall|q: u32|
                levels@.contains_key(q) ==> p <= q,
            None => forall|q: u32| !levels@.contains_key(q),
        },
{
    match levels.first_key_value() {
        Some((price, _)) => Some(*price),
        None => None,
    }
}

/// What `BTreeMap::last_key_value` gives, the key alone: the highest price
/// that has a queue, and `None` exactly for a side without queues.
#[verifier::external_body]
fn highest_price(levels: &PriceLevels) -> (r: Option<u32>)
    ensures
        match r {
            Some(p) => levels@.contains_key(p) && forall|q: u32|
                levels@.contains_key(q) ==> q <= p,
            None => forall|q: u32| !levels@.contains_key(q),
        },
{
    match levels.last_key_value() {
        Some((price, _)) => Some(*price),
        None => None,
    }
}

/// What `BTreeMap::keys` walks through, collected: every price that has a
/// queue, once, in ascending order.
#[verifier::external_body]
fn prices_ascending(levels: &PriceLevels) -> (prices: Vec<u32>)
    ensures
        forall|i: int, j: int| 0 <= i < j < prices.len() ==> prices[i] < prices[j],
        forall|p: u32| levels@.contains_key(p) <==> prices@.contains(p),
{
    levels.keys().copied().collect()
}

/// The best price of a stored side: the highest for the bids, the lowest
/// for the asks.
fn best_of(levels: &PriceLevels, side: Side) -> (r: Option<u32>)
    ensures
        r == best_price(levels_view(levels@), side),
{
    let r = match side {
        Side::Buy => highest_price(levels),
        Side::Sell => lowest_price(levels),
    };
    proof {
        match r {
            Some(p) => {
                assert(is_best(levels_view(levels@), side, p));
                lemma_best_is_unique(levels_view(levels@), side, p);
            },
            None => {
                assert forall|p: u32| !is_best(levels_view(levels@), side, p) by {
                    assert(!levels@.contains_key(p));
                }
            },
        }
    }
    r
}

/// The total quantity still to trade in a queue.
fn total_quantity_at_price(orders: &VecDeque<Order>) -> (total: u32)
    requires
        level_quantity(queue_view(orders@)) <= u32::MAX,
    ensures
        total == level_quantity(queue_view(orders@)),
{
    let ghost queue = queue_view(orders@);
    let mut total: u32 = 0;
    let mut i: usize = 0;
    while i < orders.len()
        invariant
            i <= orders.len(),
            queue == queue_view(orders@),
            total == level_quantity(queue.take(i as int)),
            level_quantity(queue) <= u32::MAX,
        decreases orders.len() - i,
    {
        proof {
            assert(queue.take(i + 1).drop_last() == queue.take(i as int));
            lemma_quantity_of_prefix(queue, i + 1);
        }
        total = total + orders[i].remaining_qty;
        i += 1;
    }
    proof {
        assert(queue.take(i as int) == queue);
    }
    total
}

/// Taking a price out of a stored side takes it out of the side's value.
proof fn lemma_view_remove(levels: Map<u32, VecDeque<Order>>, p: u32)
    ensures
        levels_view(levels.remove(p)) == levels_view(levels).remove(p),
{
    assert(levels_view(levels.remove(p)) =~= levels_view(levels).remove(p));
}

/// Storing a queue at a price puts the queue's value at that price.
proof fn lemma_view_insert(levels: Map<u32, VecDeque<Order>>, p: u32, queue: VecDeque<Order>)
    ensures
        levels_view(levels.insert(p, queue)) == levels_view(levels).insert(p, queue_view(queue@)),
{
    assert(levels_view(levels.insert(p, queue)) =~= levels_view(levels).insert(
        p,
        queue_view(queue@),
    ));
}

/// Matches `order` against the stored opposing side `levels`, best price
/// first and oldest order first within a price, and returns the trades.
fn match_against(symbol: &String, levels: &mut PriceLevels, order: &mut Order) -> (outputs: Vec<
    OutputMessage,
>)
    requires
        side_wf(levels_view(old(levels)@), old(order).side.opposite()),
    ensures
        ({
            let m = match_order(symbol@, levels_view(old(levels)@), old(order)@);
            &&& levels_view(final(levels)@) == m.levels
            &&& final(order)@ == old(order)@.with_remaining(m.remaining)
            &&& final(order).timestamp_ns == old(order).timestamp_ns
            &&& views_of(outputs@) == trade_events(m.trades)
        }),
{
    let mut outputs: Vec<OutputMessage> = Vec::new();
    let ghost start = order@;
    let ghost target = match_order(symbol@, levels_view(levels@), order@);
    let ghost mut done: Seq<TradeView> = Seq::empty();
    let opposing = match order.side {
        Side::Buy => Side::Sell,
        Side::Sell => Side::Buy,
    };
    proof {
        assert(target.after(done).trades =~= target.trades);
        assert(views_of(outputs@) =~= trade_events(done));
    }
    loop
        invariant_except_break
            target == match_order(symbol@, levels_view(levels@), order@).after(done),
        invariant
            opposing == start.side.opposite(),
            order@ == start.with_remaining(order.remaining_qty),
            order.timestamp_ns == old(order).timestamp_ns,
            side_wf(levels_view(levels@), opposing),
            views_of(outputs@) == trade_events(done),
        ensures
            target == (MatchResult {
                levels: levels_view(levels@),
                remaining: order.remaining_qty,
                trades: done,
            }),
        decreases order.remaining_qty,
    {
        proof {
            lemma_best_exists(levels_view(levels@), opposing);
        }
        if order.remaining_qty == 0 {
            proof {
                lemma_match_stops(symbol@, levels_view(levels@), order@);
                assert(done + Seq::<TradeView>::empty() =~= done);
            }
            break ;
        }
        let best = match best_of(levels, opposing) {
            Some(p) => p,
            None => {
                proof {
                    lemma_match_stops(symbol@, levels_view(levels@), order@);
                    assert(done + Seq::<TradeView>::empty() =~= done);
                }
                break ;
            },
        };
        let can_match = match order.order_type {
            OrderType::Market => true,
            OrderType::Limit => match order.side {
                Side::Buy => order.price >= best,
                Side::Sell => order.price <= best,
            },
        };
        if !can_match {
            proof {
                lemma_match_stops(symbol@, levels_view(levels@), order@);
                assert(done + Seq::<TradeView>::empty() =~= done);
            }
            break ;
        }
        let ghost whole = levels_view(levels@);
        let ghost before = order.remaining_qty;
        assert(is_best(whole, opposing, best));
        assert(level_wf(whole[best], opposing, best));
        let taken = levels.remove(&best);
        assert(taken is Some);
        let mut queue = taken.unwrap();
        proof {
            lemma_view_remove(old(levels)@, best);
            assert(levels_view(levels@) == whole.remove(best));
            assert(with_queue(levels_view(levels@), best, queue_view(queue@)) =~= whole);
        }
        while order.remaining_qty > 0 && queue.len() > 0
            invariant
                opposing == start.side.opposite(),
                order@ == start.with_remaining(order.remaining_qty),
                order.timestamp_ns == old(order).timestamp_ns,
                side_wf(levels_view(levels@), opposing),
                views_of(outputs@) == trade_events(done),
                !levels@.contains_key(best),
                nothing_betters(levels_view(levels@), opposing, best),
                orders_wf(queue_view(queue@), opposing, best),
                crosses(order@, best),
                target == match_order(
                    symbol@,
                    with_queue(levels_view(levels@), best, queue_view(queue@)),
                    order@,
                ).after(done),
                order.remaining_qty < before || (order.remaining_qty == before && queue.len() > 0),
            decreases order.remaining_qty,
        {
            let ghost others = levels_view(levels@);
            let ghost waiting = queue_view(queue@);
            let ghost incoming = order@;
            let ghost earlier = done;
            assert(resting_wf(waiting[0], opposing, best));
            let front = queue.pop_front();
            let mut passive = front.unwrap();
            let trade_qty = if order.remaining_qty <= passive.remaining_qty {
                order.remaining_qty
            } else {
                passive.remaining_qty
            };
            let trade = match order.side {
                Side::Buy => OutputMessage::trade(
                    symbol.clone(),
                    order.user_id,
                    order.user_order_id,
                    passive.user_id,
                    passive.user_order_id,
                    best,
                    trade_qty,
                ),
                Side::Sell => OutputMessage::trade(
                    symbol.clone(),
                    passive.user_id,
                    passive.user_order_id,
                    order.user_id,
                    order.user_order_id,
                    best,
                    trade_qty,
                ),
            };
            let ghost event = trade_between(symbol@, incoming, waiting[0], best, trade_qty);
            assert(trade@ == OutputMessageView::Trade(event));
            let ghost sent = outputs@;
            outputs.push(trade);
            order.fill(trade_qty);
            passive.fill(trade_qty);
            if !passive.is_filled() {
                queue.push_front(passive);
            }
            proof {
                assert(trade_qty == smaller(incoming.remaining_qty, waiting[0].remaining_qty));
                lemma_match_step(symbol@, others, best, waiting, incoming);
                lemma_fill_keeps_orders(waiting, opposing, best, trade_qty);
                assert(queue_view(queue@) =~= queue_after_fill(waiting, trade_qty));
                assert(others.remove(best) =~= others);
                assert(with_queue(others, best, waiting) =~= others.insert(best, waiting));
                done = earlier.push(event);
                let rest = match_order(
                    symbol@,
                    with_queue(others, best, queue_view(queue@)),
                    order@,
                );
                assert(rest.after(seq![event]).after(earlier).trades =~= rest.after(done).trades);
                assert(views_of(outputs@) =~= views_of(sent).push(trade@));
                assert(trade_events(done) =~= trade_events(earlier).push(
                    OutputMessageView::Trade(event),
                ));
            }
        }
        if queue.len() > 0 {
            let ghost kept = levels@;
            assert(level_wf(queue_view(queue@), opposing, best));
            levels.insert(best, queue);
            proof {
                lemma_view_insert(kept, best, queue);
            }
        } else {
            proof {
                assert(with_queue(levels_view(levels@), best, queue_view(queue@)) =~= levels_view(
                    levels@,
                ));
            }
        }
    }
    outputs
}

/// Puts `order` at the back of the queue at its price, opening the queue
/// where the price had none.
fn rest_in(levels: &mut PriceLevels, order: Order)
    ensures
        levels_view(final(levels)@) == rest_order(levels_view(old(levels)@), order@),
{
    let price = order.price;
    let ghost resting = order@;
    let mut queue = match levels.remove(&price) {
        Some(queue) => queue,
        None => VecDeque::new(),
    };
    let ghost waiting = queue_view(queue@);
    let ghost others = levels@;
    proof {
        let before = levels_view(old(levels)@);
        if before.contains_key(price) {
            assert(waiting == before[price]);
        } else {
            assert(waiting =~= Seq::<OrderView>::empty());
        }
    }
    queue.push_back(order);
    levels.insert(price, queue);
    proof {
        lemma_view_remove(old(levels)@, price);
        lemma_view_insert(others, price, queue);
        assert(queue_view(queue@) =~= waiting.push(resting));
        assert(levels_view(levels@) =~= rest_order(levels_view(old(levels)@), resting));
    }
}

/// The values of two runs of messages, one after the other, are the
/// values of the first followed by those of the second.
proof fn lemma_views_of_concat(first: Seq<OutputMessage>, second: Seq<OutputMessage>)
    ensures
        views_of(first + second) == views_of(first) + views_of(second),
{
    assert(views_of(first + second) =~= views_of(first) + views_of(second));
}

/// The place of the oldest order of a queue that carries the identifiers.
fn position_in_queue(orders: &VecDeque<Order>, user_id: u32, user_order_id: u32) -> (r: Option<
    usize,
>)
    ensures
        match r {
            Some(i) => is_first_in_queue(queue_view(orders@), user_id, user_order_id, i as int),
            None => !queue_holds(queue_view(orders@), user_id, user_order_id),
        },
{
    let mut idx: usize = 0;
    while idx < orders.len()
        invariant
            idx <= orders.len(),
            forall|j: int|
                0 <= j < idx ==> !(#[trigger] queue_view(orders@)[j]).is_named(
                    user_id,
                    user_order_id,
                ),
        decreases orders.len() - idx,
    {
        let o = &orders[idx];
        if o.user_id == user_id && o.user_order_id == user_order_id {
            assert(queue_view(orders@)[idx as int].is_named(user_id, user_order_id));
            return Some(idx);
        }
        idx += 1;
    }
    None
}

/// Takes the first order that carries the identifiers out of a stored
/// side, searching from the lowest price upwards and each queue from its
/// oldest order, and says whether there was one. A queue left without
/// orders goes with its price.
fn remove_from_side(levels: &mut PriceLevels, user_id: u32, user_order_id: u32) -> (found: bool)
    ensures
        found == side_holds(levels_view(old(levels)@), user_id, user_order_id),
        levels_view(final(levels)@) == cancel_in_side(
            levels_view(old(levels)@),
            user_id,
            user_order_id,
        ),
{
    let prices = prices_ascending(levels);
    let ghost side = levels_view(levels@);
    let mut k: usize = 0;
    while k < prices.len()
        invariant
            k <= prices.len(),
            levels@ == old(levels)@,
            side == levels_view(levels@),
            forall|i: int, j: int| 0 <= i < j < prices.len() ==> prices[i] < prices[j],
            forall|p: u32| levels@.contains_key(p) <==> prices@.contains(p),
            forall|j: int|
                0 <= j < k ==> !queue_holds(side[#[trigger] prices[j]], user_id, user_order_id),
        decreases prices.len() - k,
    {
        let price = prices[k];
        assert(prices@.contains(price));
        let place = match levels.get(&price) {
            Some(orders) => position_in_queue(orders, user_id, user_order_id),
            None => None,
        };
        match place {
            Some(idx) => {
                proof {
                    assert forall|q: u32| #[trigger] side.contains_key(q) && q < price implies
                        !queue_holds(side[q], user_id, user_order_id) by {
                        assert(levels@.contains_key(q));
                        assert(prices@.contains(q));
                        let j = choose|j: int| 0 <= j < prices@.len() && prices@[j] == q;
                        assert(j < k) by {
                            if j > k {
                                assert(prices[k as int] < prices[j]);
                            }
                        }
                    }
                    assert(queue_holds(side[price], user_id, user_order_id));
                    assert(is_first_level(side, user_id, user_order_id, price));
                    lemma_cancel_found(side, user_id, user_order_id, price, idx as int);
                }
                let taken = levels.remove(&price);
                let mut queue = taken.unwrap();
                queue.remove(idx);
                proof {
                    lemma_view_remove(old(levels)@, price);
                    assert(queue_view(queue@) =~= side[price].remove(idx as int));
                }
                if queue.len() > 0 {
                    let ghost others = levels@;
                    levels.insert(price, queue);
                    proof {
                        lemma_view_insert(others, price, queue);
                        assert(levels_view(levels@) =~= with_queue(
                            side,
                            price,
                            side[price].remove(idx as int),
                        ));
                    }
                }
                return true;
            },
            None => {},
        }
        k += 1;
    }
    proof {
        assert forall|p: u32| #[trigger] side.contains_key(p) implies !queue_holds(
            side[p],
            user_id,
            user_order_id,
        ) by {
            assert(levels@.contains_key(p));
            assert(prices@.contains(p));
            let j = choose|j: int| 0 <= j < prices@.len() && prices@[j] == p;
            assert(side[prices[j]] == side[p]);
        }
        lemma_cancel_not_found(side, user_id, user_order_id);
    }
    false
}

/// The order book of one symbol.
#[derive(Debug)]
pub struct OrderBook {
    symbol: String,
    /// Price to queue; the best bid is the highest key.
    bids: PriceLevels,
    /// Price to queue; the best ask is the lowest key.
    asks: PriceLevels,
    /// The top of book as last reported, kept to tell changes.
    prev_best_bid_price: u32,
    prev_best_bid_qty: u32,
    prev_best_ask_price: u32,
    prev_best_ask_qty: u32,
}

impl View for OrderBook {
    type V = BookView;

    closed spec fn view(&self) -> BookView {
        BookView {
            symbol: self.symbol@,
            bids: levels_view(self.bids@),
            asks: levels_view(self.asks@),
            reported: TopOfBookSnapshot {
                bid_price: self.prev_best_bid_price,
                bid_quantity: self.prev_best_bid_qty,
                ask_price: self.prev_best_ask_price,
                ask_quantity: self.prev_best_ask_qty,
            },
        }
    }
}

impl OrderBook {
    /// A book for `symbol` without orders.
    pub fn new(symbol: &str) -> (book: OrderBook)
        ensures
            book@ == BookView::empty(symbol@),
            book@.wf(),
    {
        let book = OrderBook {
            symbol: symbol.to_owned(),
            bids: BTreeMap::new(),
            asks: BTreeMap::new(),
            prev_best_bid_price: 0,
            prev_best_bid_qty: 0,
            prev_best_ask_price: 0,
            prev_best_ask_qty: 0,
        };
        proof {
            assert(book@.bids =~= Map::empty());
            assert(book@.asks =~= Map::empty());
            lemma_empty_book_wf(symbol@);
        }
        book
    }

    /// The symbol that the book trades.
    pub fn symbol(&self) -> (s: &str)
        ensures
            s@ == self@.symbol,
    {
        self.symbol.as_str()
    }

    /// Drops every order and forgets the reported top.
    pub fn flush(&mut self)
        ensures
            final(self)@ == old(self)@.flush(),
            final(self)@.wf(),
    {
        self.bids.clear();
        self.asks.clear();
        self.prev_best_bid_price = 0;
        self.prev_best_bid_qty = 0;
        self.prev_best_ask_price = 0;
        self.prev_best_ask_qty = 0;
        proof {
            assert(self@.bids =~= Map::empty());
            assert(self@.asks =~= Map::empty());
            lemma_empty_book_wf(self@.symbol);
        }
    }

    /// The highest bid price, zero when there is no bid.
    pub fn best_bid_price(&self) -> (price: u32)
        ensures
            price == top_price(self@.bids, Side::Buy),
    {
        match best_of(&self.bids, Side::Buy) {
            Some(p) => p,
            None => 0,
        }
    }

    /// The lowest ask price, zero when there is no ask.
    pub fn best_ask_price(&self) -> (price: u32)
        ensures
            price == top_price(self@.asks, Side::Sell),
    {
        match best_of(&self.asks, Side::Sell) {
            Some(p) => p,
            None => 0,
        }
    }

    /// The total quantity resting at the best bid, zero when there is no
    /// bid.
    pub fn best_bid_quantity(&self) -> (quantity: u32)
        requires
            self@.wf(),
        ensures
            quantity == top_quantity(self@.bids, Side::Buy),
    {
        OrderBook::best_quantity(&self.bids, Side::Buy)
    }

    /// The total quantity resting at the best ask, zero when there is no
    /// ask.
    pub fn best_ask_quantity(&self) -> (quantity: u32)
        requires
            self@.wf(),
        ensures
            quantity == top_quantity(self@.asks, Side::Sell),
    {
        OrderBook::best_quantity(&self.asks, Side::Sell)
    }

    /// The top of the book as it stands.
    pub fn top_of_book_snapshot(&self) -> (top: TopOfBookSnapshot)
        requires
            self@.wf(),
        ensures
            top == self@.top(),
    {
        TopOfBookSnapshot::new(
            self.best_bid_price(),
            self.best_bid_quantity(),
            self.best_ask_price(),
            self.best_ask_quantity(),
        )
    }

    /// True when the order of `msg` is a market order, or its whole
    /// quantity fits in `u32` beside what rests at its price. An order
    /// that passes has room in the book.
    pub fn can_accept(&self, msg: &NewOrder) -> (ok: bool)
        requires
            self@.wf(),
        ensures
            ok == self@.surely_has_room(msg@),
            ok ==> self@.has_room(msg@),
    {
        let ok = if msg.price == 0 {
            true
        } else {
            let resting = match msg.side {
                Side::Buy => OrderBook::quantity_at(&self.bids, Side::Buy, msg.price),
                Side::Sell => OrderBook::quantity_at(&self.asks, Side::Sell, msg.price),
            };
            msg.quantity <= u32::MAX - resting
        };
        proof {
            if ok {
                lemma_surely_has_room(self@, msg@);
            }
        }
        ok
    }

    /// Takes in one order: acknowledges it, matches it against the
    /// opposing side, rests what remains of a limit order, drops what
    /// remains of a market order, and reports each side of the top that
    /// changed.
    pub fn add_order(&mut self, msg: &NewOrder) -> (outputs: Vec<OutputMessage>)
        requires
            old(self)@.wf(),
            old(self)@.has_room(msg@),
        ensures
            (final(self)@, views_of(outputs@)) == old(self)@.add_order(msg@),
            final(self)@.wf(),
    {
        let mut outputs: Vec<OutputMessage> = Vec::new();
        let mut order = Order::from_new_order_now(msg);
        outputs.push(OutputMessage::ack(order.user_id, order.user_order_id, self.symbol.clone()));
        let ghost acked = outputs@;
        let mut trade_outputs = self.match_order(&mut order);
        let ghost traded = trade_outputs@;
        outputs.append(&mut trade_outputs);
        if order.remaining_qty > 0 && order.order_type == OrderType::Limit {
            self.add_to_book(order);
        }
        proof {
            assert(self@ == old(self)@.after_match(msg@));
            lemma_add_order_wf(old(self)@, msg@);
        }
        let mut tob_outputs = self.check_top_of_book_changes();
        let ghost reports = tob_outputs@;
        outputs.append(&mut tob_outputs);
        proof {
            lemma_views_of_concat(acked, traded);
            lemma_views_of_concat(acked + traded, reports);
            assert(views_of(acked) =~= seq![
                OutputMessageView::ack(msg.user_id, msg.user_order_id, old(self)@.symbol),
            ]);
        }
        outputs
    }

    /// Cancels the order that carries the identifiers, if one rests in the
    /// book, and acknowledges the request either way. The bids are
    /// searched before the asks. Where an order left, each side of the top
    /// that changed is reported.
    pub fn cancel_order(&mut self, user_id: u32, user_order_id: u32) -> (outputs: Vec<
        OutputMessage,
    >)
        requires
            old(self)@.wf(),
        ensures
            (final(self)@, views_of(outputs@)) == old(self)@.cancel_order(user_id, user_order_id),
            final(self)@.wf(),
    {
        let mut outputs: Vec<OutputMessage> = Vec::new();
        let mut found = remove_from_side(&mut self.bids, user_id, user_order_id);
        if !found {
            found = remove_from_side(&mut self.asks, user_id, user_order_id);
        }
        proof {
            if side_holds(old(self)@.bids, user_id, user_order_id) {
            } else {
                lemma_cancel_not_found(old(self)@.bids, user_id, user_order_id);
            }
            assert(self@ == old(self)@.after_cancel(user_id, user_order_id));
            lemma_cancel_order_wf(old(self)@, user_id, user_order_id);
        }
        outputs.push(OutputMessage::cancel_ack(user_id, user_order_id, self.symbol.clone()));
        let ghost acked = outputs@;
        if found {
            let mut tob_outputs = self.check_top_of_book_changes();
            let ghost reports = tob_outputs@;
            outputs.append(&mut tob_outputs);
            proof {
                lemma_views_of_concat(acked, reports);
            }
        } else {
            proof {
                lemma_cancel_not_found(old(self)@.asks, user_id, user_order_id);
                assert(self@.bids == old(self)@.bids);
                assert(self@.asks == old(self)@.asks);
            }
        }
        proof {
            assert(views_of(acked) =~= seq![
                OutputMessageView::cancel_ack(user_id, user_order_id, old(self)@.symbol),
            ]);
        }
        outputs
    }

    /// Matches `order` against the opposing side of the book and returns
    /// the trades; what remains is left in `order`.
    fn match_order(&mut self, order: &mut Order) -> (outputs: Vec<OutputMessage>)
        requires
            old(self)@.levels_wf(),
        ensures
            ({
                let book = old(self)@;
                let side = old(order).side;
                let m = match_order(book.symbol, book.levels(side.opposite()), old(order)@);
                &&& final(self)@ == book.with_levels(side, book.levels(side), m.levels)
                &&& final(order)@ == old(order)@.with_remaining(m.remaining)
                &&& views_of(outputs@) == trade_events(m.trades)
            }),
    {
        match order.side {
            Side::Buy => match_against(&self.symbol, &mut self.asks, order),
            Side::Sell => match_against(&self.symbol, &mut self.bids, order),
        }
    }

    /// Rests `order` on its side of the book, behind the orders already
    /// waiting at its price.
    fn add_to_book(&mut self, order: Order)
        ensures
            final(self)@ == old(self)@.with_levels(
                order.side,
                rest_order(old(self)@.levels(order.side), order@),
                old(self)@.levels(order.side.opposite()),
            ),
    {
        match order.side {
            Side::Buy => rest_in(&mut self.bids, order),
            Side::Sell => rest_in(&mut self.asks, order),
        }
    }

    /// Compares the top of the book with the top last reported, reports
    /// each side that differs, the bid before the ask, and remembers the
    /// new top.
    fn check_top_of_book_changes(&mut self) -> (outputs: Vec<OutputMessage>)
        requires
            old(self)@.levels_wf(),
        ensures
            final(self)@ == (BookView { reported: old(self)@.top(), ..old(self)@ }),
            views_of(outputs@) == top_changes(
                old(self)@.symbol,
                old(self)@.reported,
                old(self)@.top(),
            ),
    {
        let mut outputs: Vec<OutputMessage> = Vec::new();
        let current_best_bid_price = self.best_bid_price();
        let current_best_bid_qty = OrderBook::best_quantity(&self.bids, Side::Buy);
        let current_best_ask_price = self.best_ask_price();
        let current_best_ask_qty = OrderBook::best_quantity(&self.asks, Side::Sell);
        if current_best_bid_price != self.prev_best_bid_price || current_best_bid_qty
            != self.prev_best_bid_qty {
            if current_best_bid_price == 0 {
                outputs.push(OutputMessage::top_of_book_eliminated(self.symbol.clone(), Side::Buy));
            } else {
                outputs.push(
                    OutputMessage::top_of_book(
                        self.symbol.clone(),
                        Side::Buy,
                        current_best_bid_price,
                        current_best_bid_qty,
                    ),
                );
            }
            self.prev_best_bid_price = current_best_bid_price;
            self.prev_best_bid_qty = current_best_bid_qty;
        }
        let ghost bid_reports = outputs@;
        if current_best_ask_price != self.prev_best_ask_price || current_best_ask_qty
            != self.prev_best_ask_qty {
            if current_best_ask_price == 0 {
                outputs.push(
                    OutputMessage::top_of_book_eliminated(self.symbol.clone(), Side::Sell),
                );
            } else {
                outputs.push(
                    OutputMessage::top_of_book(
                        self.symbol.clone(),
                        Side::Sell,
                        current_best_ask_price,
                        current_best_ask_qty,
                    ),
                );
            }
            self.prev_best_ask_price = current_best_ask_price;
            self.prev_best_ask_qty = current_best_ask_qty;
        }
        proof {
            let book = old(self)@;
            lemma_top_quantity_of_no_price(book.bids, Side::Buy);
            lemma_top_quantity_of_no_price(book.asks, Side::Sell);
            assert(views_of(outputs@) =~= top_changes(book.symbol, book.reported, book.top()));
        }
        outputs
    }

    /// The total resting at `price` on a stored side, zero where nothing
    /// rests.
    fn quantity_at(levels: &PriceLevels, side: Side, price: u32) -> (quantity: u32)
        requires
            side_wf(levels_view(levels@), side),
        ensures
            quantity == if levels_view(levels@).contains_key(price) {
                level_quantity(levels_view(levels@)[price])
            } else {
                0
            },
    {
        match levels.get(&price) {
            Some(orders) => {
                assert(level_wf(levels_view(levels@)[price], side, price));
                total_quantity_at_price(orders)
            },
            None => 0,
        }
    }

    /// The total quantity at the best price of a stored side.
    fn best_quantity(levels: &PriceLevels, side: Side) -> (quantity: u32)
        requires
            side_wf(levels_view(levels@), side),
        ensures
            quantity == top_quantity(levels_view(levels@), side),
    {
        match best_of(levels, side) {
            Some(price) => {
                match levels.get(&price) {
                    Some(orders) => {
                        assert(level_wf(levels_view(levels@)[price], side, price));
                        total_quantity_at_price(orders)
                    },
                    None => 0,
                }
            },
            None => 0,
        }
    }
}

} // verus!

//! Identifiers of resting orders.
//!
//! A client that names each of its orders differently can cancel each of
//! them. This file says what a book keeps of that discipline: while no
//! order arrives under identifiers that another order rests under, no two
//! resting orders share identifiers, and a cancel takes the one order that
//! carries its identifiers out of the book.

use vstd::prelude::*;
use crate::book_model::{
    cancel_in_side, is_first_in_queue, is_first_level, lemma_best_exists, lemma_cancel_not_found,
    lemma_fill_keeps_orders, level_wf, match_order, best_price, crosses, queue_after_fill,
    queue_holds, rest_order, resting_wf, side_holds, side_wf, smaller, with_queue, BookView,
    Levels,
};
use crate::messages::NewOrderView;
use crate::order::OrderView;

verus! {

/// True when place `i` of the queue at price `p` holds an order.
pub open spec fn is_place(levels: Levels, p: u32, i: int) -> bool {
    levels.contains_key(p) && 0 <= i < levels[p].len()
}

/// True when the order at place `i` of the queue at `p` carries the
/// identifiers.
pub open spec fn named_at(levels: Levels, user_id: u32, user_order_id: u32, p: u32, i: int) -> bool {
    is_place(levels, p, i) && levels[p][i].is_named(user_id, user_order_id)
}

/// No two orders of a side carry the same identifiers.
pub open spec fn side_ids_unique(levels: Levels) -> bool {
    forall|p1: u32, i1: int, p2: u32, i2: int|
        #![trigger is_place(levels, p1, i1), is_place(levels, p2, i2)]
        is_place(levels, p1, i1) && is_place(levels, p2, i2) && levels[p1][i1].user_id
            == levels[p2][i2].user_id && levels[p1][i1].user_order_id
            == levels[p2][i2].user_order_id ==> p1 == p2 && i1 == i2
}

impl BookView {
    /// No two resting orders of the book carry the same identifiers.
    pub open spec fn ids_unique(self) -> bool {
        &&& side_ids_unique(self.bids)
        &&& side_ids_unique(self.asks)
        &&& forall|user_id: u32, user_order_id: u32|
            !(#[trigger] side_holds(self.bids, user_id, user_order_id) && side_holds(
                self.asks,
                user_id,
                user_order_id,
            ))
    }
}

/// A side holds identifiers exactly when some place of it is named by
/// them.
pub proof fn lemma_holds_is_named_somewhere(levels: Levels, user_id: u32, user_order_id: u32)
    ensures
        side_holds(levels, user_id, user_order_id) <==> exists|p: u32, i: int|
            named_at(levels, user_id, user_order_id, p, i),
{
    if side_holds(levels, user_id, user_order_id) {
        let p = choose|p: u32| #[trigger]
            levels.contains_key(p) && queue_holds(levels[p], user_id, user_order_id);
        let i = choose|i: int|
            0 <= i < levels[p].len() && (#[trigger] levels[p][i]).is_named(user_id, user_order_id);
        assert(named_at(levels, user_id, user_order_id, p, i));
    }
    if exists|p: u32, i: int| named_at(levels, user_id, user_order_id, p, i) {
        let (p, i) = choose|p: u32, i: int| named_at(levels, user_id, user_order_id, p, i);
        assert(levels[p][i].is_named(user_id, user_order_id));
        assert(queue_holds(levels[p], user_id, user_order_id));
        assert(levels.contains_key(p));
    }
}

/// A fill at the front of the best queue brings no identifiers into a
/// side, and keeps them apart.
proof fn lemma_fill_keeps_identifiers(levels: Levels, p: u32, quantity: u32)
    requires
        levels.contains_key(p),
        levels[p].len() > 0,
    ensures
        ({
            let next = with_queue(levels, p, queue_after_fill(levels[p], quantity));
            &&& forall|user_id: u32, user_order_id: u32| #[trigger]
                side_holds(next, user_id, user_order_id) ==> side_holds(
                    levels,
                    user_id,
                    user_order_id,
                )
            &&& side_ids_unique(levels) ==> side_ids_unique(next)
        }),
{
    let queue = levels[p];
    let filled = queue_after_fill(queue, quantity);
    let next = with_queue(levels, p, filled);
    let shift: int = if queue[0].remaining_qty <= quantity {
        1
    } else {
        0
    };
    // Each place of the side after the fill is a place of the side before,
    // with the same identifiers.
    assert forall|q: u32, i: int| is_place(next, q, i) implies is_place(
        levels,
        q,
        if q == p {
            i + shift
        } else {
            i
        },
    ) && next[q][i].user_id == levels[q][if q == p {
        i + shift
    } else {
        i
    }].user_id && next[q][i].user_order_id == levels[q][if q == p {
        i + shift
    } else {
        i
    }].user_order_id by {
        if q == p {
            assert(next[q] == filled);
        } else {
            assert(next[q] == levels[q]);
        }
    }
    assert forall|user_id: u32, user_order_id: u32| #[trigger]
        side_holds(next, user_id, user_order_id) implies side_holds(
        levels,
        user_id,
        user_order_id,
    ) by {
        lemma_holds_is_named_somewhere(next, user_id, user_order_id);
        let (q, i) = choose|q: u32, i: int| named_at(next, user_id, user_order_id, q, i);
        assert(is_place(next, q, i));
        let j = if q == p {
            i + shift
        } else {
            i
        };
        assert(named_at(levels, user_id, user_order_id, q, j));
        lemma_holds_is_named_somewhere(levels, user_id, user_order_id);
    }
    if side_ids_unique(levels) {
        assert forall|p1: u32, i1: int, p2: u32, i2: int|
            #![trigger is_place(next, p1, i1), is_place(next, p2, i2)]
            is_place(next, p1, i1) && is_place(next, p2, i2) && next[p1][i1].user_id
                == next[p2][i2].user_id && next[p1][i1].user_order_id
                == next[p2][i2].user_order_id implies p1 == p2 && i1 == i2 by {
            let j1 = if p1 == p {
                i1 + shift
            } else {
                i1
            };
            let j2 = if p2 == p {
                i2 + shift
            } else {
                i2
            };
            assert(is_place(levels, p1, j1) && is_place(levels, p2, j2));
        }
    }
}

/// Matching brings no identifiers into the opposing side, and keeps them
/// apart.
pub proof fn lemma_match_keeps_identifiers(symbol: Seq<char>, levels: Levels, incoming: OrderView)
    requires
        side_wf(levels, incoming.side.opposite()),
    ensures
        ({
            let m = match_order(symbol, levels, incoming);
            &&& forall|user_id: u32, user_order_id: u32| #[trigger]
                side_holds(m.levels, user_id, user_order_id) ==> side_holds(
                    levels,
                    user_id,
                    user_order_id,
                )
            &&& side_ids_unique(levels) ==> side_ids_unique(m.levels)
        }),
    decreases incoming.remaining_qty,
{
    let side = incoming.side.opposite();
    lemma_best_exists(levels, side);
    if incoming.remaining_qty > 0 {
        match best_price(levels, side) {
            None => {},
            Some(p) => {
                let queue = levels[p];
                assert(level_wf(queue, side, p));
                assert(resting_wf(queue[0], side, p));
                if crosses(incoming, p) {
                    let quantity = smaller(incoming.remaining_qty, queue[0].remaining_qty);
                    let filled = queue_after_fill(queue, quantity);
                    let next = with_queue(levels, p, filled);
                    let left = incoming.with_remaining((incoming.remaining_qty - quantity) as u32);
                    lemma_fill_keeps_orders(queue, side, p, quantity);
                    assert forall|q: u32| next.contains_key(q) implies level_wf(
                        #[trigger] next[q],
                        side,
                        q,
                    ) by {
                        if q != p {
                            assert(levels.contains_key(q));
                            assert(next[q] == levels[q]);
                        } else {
                            assert(next[q] == filled);
                        }
                    }
                    lemma_fill_keeps_identifiers(levels, p, quantity);
                    lemma_match_keeps_identifiers(symbol, next, left);
                    let m = match_order(symbol, levels, incoming);
                    assert(m.levels == match_order(symbol, next, left).levels);
                    assert forall|user_id: u32, user_order_id: u32| #[trigger]
                        side_holds(m.levels, user_id, user_order_id) implies side_holds(
                        levels,
                        user_id,
                        user_order_id,
                    ) by {
                        let rest = match_order(symbol, next, left);
                        assert(m.levels == rest.levels);
                        assert(side_holds(rest.levels, user_id, user_order_id));
                        assert(side_holds(next, user_id, user_order_id));
                    }
                }
            },
        }
    }
}

/// Resting an order under identifiers that the side does not hold keeps
/// the identifiers of the side apart; the side then holds those it held
/// and those of the order.
pub proof fn lemma_rest_keeps_identifiers(levels: Levels, order: OrderView)
    ensures
        forall|user_id: u32, user_order_id: u32| #[trigger]
            side_holds(rest_order(levels, order), user_id, user_order_id) <==> side_holds(
                levels,
                user_id,
                user_order_id,
            ) || order.is_named(user_id, user_order_id),
        side_ids_unique(levels) && !side_holds(levels, order.user_id, order.user_order_id)
            ==> side_ids_unique(rest_order(levels, order)),
{
    let after = rest_order(levels, order);
    let p = order.price;
    let before_len: int = if levels.contains_key(p) {
        levels[p].len() as int
    } else {
        0
    };
    assert(after[p].len() == before_len + 1);
    assert(after[p][before_len] == order);
    assert forall|q: u32, i: int| is_place(after, q, i) && !(q == p && i == before_len) implies
        is_place(levels, q, i) && after[q][i] == levels[q][i] by {
        if q != p {
            assert(after[q] == levels[q]);
        }
    }
    assert forall|q: u32, i: int| is_place(levels, q, i) implies is_place(after, q, i)
        && after[q][i] == levels[q][i] by {
        if q != p {
            assert(after[q] == levels[q]);
        }
    }
    assert forall|user_id: u32, user_order_id: u32| #[trigger]
        side_holds(after, user_id, user_order_id) <==> side_holds(levels, user_id, user_order_id)
            || order.is_named(user_id, user_order_id) by {
        lemma_holds_is_named_somewhere(after, user_id, user_order_id);
        lemma_holds_is_named_somewhere(levels, user_id, user_order_id);
        if side_holds(after, user_id, user_order_id) {
            let (q, i) = choose|q: u32, i: int| named_at(after, user_id, user_order_id, q, i);
            if !(q == p && i == before_len) {
                assert(is_place(after, q, i));
                assert(named_at(levels, user_id, user_order_id, q, i));
            }
        }
        if side_holds(levels, user_id, user_order_id) {
            let (q, i) = choose|q: u32, i: int| named_at(levels, user_id, user_order_id, q, i);
            assert(is_place(levels, q, i));
            assert(named_at(after, user_id, user_order_id, q, i));
        }
        if order.is_named(user_id, user_order_id) {
            assert(named_at(after, user_id, user_order_id, p, before_len));
        }
    }
    if side_ids_unique(levels) && !side_holds(levels, order.user_id, order.user_order_id) {
        lemma_holds_is_named_somewhere(levels, order.user_id, order.user_order_id);
        assert forall|p1: u32, i1: int, p2: u32, i2: int|
            #![trigger is_place(after, p1, i1), is_place(after, p2, i2)]
            is_place(after, p1, i1) && is_place(after, p2, i2) && after[p1][i1].user_id
                == after[p2][i2].user_id && after[p1][i1].user_order_id
                == after[p2][i2].user_order_id implies p1 == p2 && i1 == i2 by {
            let new1 = p1 == p && i1 == before_len;
            let new2 = p2 == p && i2 == before_len;
            if new1 && !new2 {
                assert(is_place(after, p2, i2));
                assert(named_at(levels, order.user_id, order.user_order_id, p2, i2));
            } else if new2 && !new1 {
                assert(is_place(after, p1, i1));
                assert(named_at(levels, order.user_id, order.user_order_id, p1, i1));
            } else if !new1 && !new2 {
                assert(is_place(levels, p1, i1) && is_place(levels, p2, i2));
            }
        }
    }
}

/// A cancel in a side whose identifiers are apart takes the one order
/// that carries the identifiers: afterwards the side holds them no more,
/// holds what else it held, and its identifiers are still apart.
pub proof fn lemma_cancel_keeps_identifiers(levels: Levels, user_id: u32, user_order_id: u32)
    requires
        side_ids_unique(levels),
    ensures
        ({
            let after = cancel_in_side(levels, user_id, user_order_id);
            &&& !side_holds(after, user_id, user_order_id)
            &&& forall|u: u32, o: u32| #[trigger]
                side_holds(after, u, o) ==> side_holds(levels, u, o)
            &&& side_ids_unique(after)
        }),
{
    let after = cancel_in_side(levels, user_id, user_order_id);
    lemma_holds_is_named_somewhere(levels, user_id, user_order_id);
    lemma_holds_is_named_somewhere(after, user_id, user_order_id);
    if exists|p: u32| is_first_level(levels, user_id, user_order_id, p) {
        let p = choose|p: u32| is_first_level(levels, user_id, user_order_id, p);
        let queue = levels[p];
        let k0 = choose|k: int|
            0 <= k < queue.len() && (#[trigger] queue[k]).is_named(user_id, user_order_id);
        assert(is_place(levels, p, k0));
        // By uniqueness the one order named so is the first one.
        assert(is_first_in_queue(queue, user_id, user_order_id, k0)) by {
            assert forall|j: int| 0 <= j < k0 implies !(#[trigger] queue[j]).is_named(
                user_id,
                user_order_id,
            ) by {
                assert(is_place(levels, p, j));
            }
        }
        let k = choose|k: int| is_first_in_queue(queue, user_id, user_order_id, k);
        assert(is_place(levels, p, k));
        let shorter = queue.remove(k);
        assert(after == with_queue(levels, p, shorter));
        // Each place of the side after the cancel is a place of the side
        // before, other than the place of the cancelled order.
        assert forall|q: u32, i: int| is_place(after, q, i) implies is_place(
            levels,
            q,
            if q == p && i >= k {
                i + 1
            } else {
                i
            },
        ) && after[q][i] == levels[q][if q == p && i >= k {
            i + 1
        } else {
            i
        }] by {
            if q == p {
                assert(after[q] == shorter);
            } else {
                assert(after[q] == levels[q]);
            }
        }
        assert forall|u: u32, o: u32| #[trigger] side_holds(after, u, o) implies side_holds(
            levels,
            u,
            o,
        ) && !(u == user_id && o == user_order_id) by {
            lemma_holds_is_named_somewhere(after, u, o);
            lemma_holds_is_named_somewhere(levels, u, o);
            let (q, i) = choose|q: u32, i: int| named_at(after, u, o, q, i);
            assert(is_place(after, q, i));
            let j = if q == p && i >= k {
                i + 1
            } else {
                i
            };
            assert(named_at(levels, u, o, q, j));
            if u == user_id && o == user_order_id {
                assert(is_place(levels, q, j) && is_place(levels, p, k));
            }
        }
        assert forall|p1: u32, i1: int, p2: u32, i2: int|
            #![trigger is_place(after, p1, i1), is_place(after, p2, i2)]
            is_place(after, p1, i1) && is_place(after, p2, i2) && after[p1][i1].user_id
                == after[p2][i2].user_id && after[p1][i1].user_order_id
                == after[p2][i2].user_order_id implies p1 == p2 && i1 == i2 by {
            let j1 = if p1 == p && i1 >= k {
                i1 + 1
            } else {
                i1
            };
            let j2 = if p2 == p && i2 >= k {
                i2 + 1
            } else {
                i2
            };
            assert(is_place(levels, p1, j1) && is_place(levels, p2, j2));
        }
    } else {
        // No price is the first to hold the identifiers, so none holds
        // them.
        if side_holds(levels, user_id, user_order_id) {
            lemma_first_level_exists(levels, user_id, user_order_id, 0);
        }
        lemma_cancel_not_found(levels, user_id, user_order_id);
    }
}

/// A side that holds identifiers at or above the price `from`, and at no
/// price below, has a lowest price that holds them.
proof fn lemma_first_level_exists(levels: Levels, user_id: u32, user_order_id: u32, from: u32)
    requires
        side_holds(levels, user_id, user_order_id),
        forall|q: u32| #[trigger]
            levels.contains_key(q) && q < from ==> !queue_holds(levels[q], user_id, user_order_id),
    ensures
        exists|p: u32| is_first_level(levels, user_id, user_order_id, p),
    decreases u32::MAX - from,
{
    if levels.contains_key(from) && queue_holds(levels[from], user_id, user_order_id) {
        assert(is_first_level(levels, user_id, user_order_id, from));
    } else {
        let p = choose|p: u32| #[trigger]
            levels.contains_key(p) && queue_holds(levels[p], user_id, user_order_id);
        assert(p > from) by {
            if p < from {
                assert(levels.contains_key(p) && p < from);
            }
        }
        let next = (from + 1) as u32;
        assert forall|q: u32| #[trigger] levels.contains_key(q) && q < next implies !queue_holds(
            levels[q],
            user_id,
            user_order_id,
        ) by {
            if q < from {
                assert(levels.contains_key(q) && q < from);
            }
        }
        lemma_first_level_exists(levels, user_id, user_order_id, next);
    }
}

/// An order that arrives under identifiers that no resting order carries
/// leaves the identifiers of the book apart; the book then holds those it
/// held, and those of the order if it rests.
pub proof fn lemma_add_order_keeps_identifiers(book: BookView, msg: NewOrderView)
    requires
        book.levels_wf(),
        book.ids_unique(),
        !book.holds(msg.user_id, msg.user_order_id),
    ensures
        book.after_match(msg).ids_unique(),
        book.add_order(msg).0.ids_unique(),
        forall|user_id: u32, user_order_id: u32| #[trigger]
            book.add_order(msg).0.holds(user_id, user_order_id) ==> book.holds(
                user_id,
                user_order_id,
            ) || (user_id == msg.user_id && user_order_id == msg.user_order_id),
{
    let incoming = OrderView::placed(msg);
    let own = book.levels(msg.side);
    let opposing = book.levels(msg.side.opposite());
    let m = book.matched(msg);
    let after = book.after_match(msg);
    lemma_match_keeps_identifiers(book.symbol, opposing, incoming);
    let resting = incoming.with_remaining(m.remaining);
    lemma_rest_keeps_identifiers(own, resting);
    assert(after.levels(msg.side.opposite()) == m.levels);
    assert forall|user_id: u32, user_order_id: u32|
        !(#[trigger] side_holds(after.bids, user_id, user_order_id) && side_holds(
            after.asks,
            user_id,
            user_order_id,
        )) by {
        if side_holds(after.bids, user_id, user_order_id) && side_holds(
            after.asks,
            user_id,
            user_order_id,
        ) {
            assert(side_holds(after.levels(msg.side.opposite()), user_id, user_order_id));
            assert(side_holds(opposing, user_id, user_order_id));
            assert(side_holds(after.levels(msg.side), user_id, user_order_id));
            assert(side_holds(book.bids, user_id, user_order_id) || side_holds(
                book.asks,
                user_id,
                user_order_id,
            ));
            if !side_holds(own, user_id, user_order_id) {
                assert(resting.is_named(user_id, user_order_id));
            }
        }
    }
    assert forall|user_id: u32, user_order_id: u32| #[trigger]
        book.add_order(msg).0.holds(user_id, user_order_id) implies book.holds(
        user_id,
        user_order_id,
    ) || (user_id == msg.user_id && user_order_id == msg.user_order_id) by {
        if side_holds(after.levels(msg.side), user_id, user_order_id) {
            if !side_holds(own, user_id, user_order_id) {
                assert(resting.is_named(user_id, user_order_id));
            }
        } else {
            assert(side_holds(after.levels(msg.side.opposite()), user_id, user_order_id));
            assert(side_holds(opposing, user_id, user_order_id));
        }
    }
}

/// A cancel in a book whose identifiers are apart takes the one order
/// that carries the identifiers: afterwards the book holds them no more,
/// holds what else it held, and its identifiers are still apart.
pub proof fn lemma_cancel_order_keeps_identifiers(book: BookView, user_id: u32, user_order_id: u32)
    requires
        book.ids_unique(),
    ensures
        book.cancel_order(user_id, user_order_id).0.ids_unique(),
        !book.cancel_order(user_id, user_order_id).0.holds(user_id, user_order_id),
        forall|u: u32, o: u32| #[trigger]
            book.cancel_order(user_id, user_order_id).0.holds(u, o) ==> book.holds(u, o),
{
    lemma_cancel_keeps_identifiers(book.bids, user_id, user_order_id);
    lemma_cancel_keeps_identifiers(book.asks, user_id, user_order_id);
    let after = book.cancel_order(user_id, user_order_id).0;
    assert forall|u: u32, o: u32|
        !(#[trigger] side_holds(after.bids, u, o) && side_holds(after.asks, u, o)) by {
        if side_holds(after.bids, u, o) && side_holds(after.asks, u, o) {
            assert(side_holds(book.bids, u, o) && side_holds(book.asks, u, o));
        }
    }
}

} // verus!

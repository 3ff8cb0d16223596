//! The engine: one order book per symbol, and the routing of cancels.
//!
//! A cancel names a user and an order identifier, not a symbol. The engine
//! therefore remembers, for each order it took in, the symbol it went to.
//! Matching may fill an order without the engine hearing of it, so that
//! record may outlive its order; a cancel of such an order is acknowledged
//! like any other.

use vstd::prelude::*;
use std::collections::HashMap;
use vstd::hash_map::StringHashMap;
use crate::book_identifiers::{
    lemma_add_order_keeps_identifiers, lemma_cancel_order_keeps_identifiers,
};
use crate::book_model::{lemma_add_order_wf, lemma_cancel_order_wf, lemma_empty_book_wf, BookView};
use crate::messages::{
    views_of, Cancel, InputMessage, InputMessageView, NewOrder, OutputMessage,
    OutputMessageView, TopOfBookQuery,
};
use crate::order_book::OrderBook;
use crate::side::Side;

verus! {

/// The symbol that acknowledges a cancel of an order the engine has no
/// record of.
pub open spec fn unknown_symbol() -> Seq<char> {
    "<unknown>"@
}

/// The value of an engine.
pub struct EngineView {
    /// The book of each symbol that has one.
    pub books: Map<Seq<char>, BookView>,
    /// For each order taken in and not yet cancelled, the symbol it went
    /// to, by user and order identifier.
    pub index: Map<(u32, u32), Seq<char>>,
}

impl EngineView {
    /// The engine before any message.
    pub open spec fn empty() -> EngineView {
        EngineView { books: Map::empty(), index: Map::empty() }
    }

    /// The invariant of an engine: each book is well formed and stands
    /// under its own symbol.
    pub open spec fn wf(self) -> bool {
        forall|symbol: Seq<char>| #[trigger]
            self.books.contains_key(symbol) ==> self.books[symbol].wf()
                && self.books[symbol].symbol == symbol
    }

    /// The book of a symbol, or an empty book of that symbol where the
    /// engine has none.
    pub open spec fn book_or_new(self, symbol: Seq<char>) -> BookView {
        if self.books.contains_key(symbol) {
            self.books[symbol]
        } else {
            BookView::empty(symbol)
        }
    }

    /// True when the engine can take the message within the range of its
    /// quantities: an order that rests must leave the total at its price
    /// within `u32`. Every other message is taken.
    pub open spec fn accepts(self, msg: InputMessageView) -> bool {
        match msg {
            InputMessageView::NewOrder(order) => self.book_or_new(order.symbol).has_room(order),
            _ => true,
        }
    }

    /// A test for room that looks only at what rests at the order's own
    /// price.
    pub open spec fn surely_accepts(self, msg: InputMessageView) -> bool {
        match msg {
            InputMessageView::NewOrder(order) => self.book_or_new(order.symbol).surely_has_room(
                order,
            ),
            _ => true,
        }
    }

    /// True when some resting order of some book carries the identifiers.
    pub open spec fn is_resting(self, user_id: u32, user_order_id: u32) -> bool {
        exists|symbol: Seq<char>| #[trigger]
            self.books.contains_key(symbol) && self.books[symbol].holds(user_id, user_order_id)
    }

    /// Every resting order is on record under the symbol of its book, so
    /// that a cancel finds it.
    pub open spec fn orders_on_record(self) -> bool {
        forall|symbol: Seq<char>, user_id: u32, user_order_id: u32|
            self.books.contains_key(symbol) && #[trigger] self.books[symbol].holds(
                user_id,
                user_order_id,
            ) ==> self.index.contains_key((user_id, user_order_id)) && self.index[(
                user_id,
                user_order_id,
            )] == symbol
    }

    /// In no book do two resting orders carry the same identifiers.
    pub open spec fn ids_unique(self) -> bool {
        forall|symbol: Seq<char>| #[trigger]
            self.books.contains_key(symbol) ==> self.books[symbol].ids_unique()
    }

    /// The engine after a message, and what is sent out.
    ///
    /// - A new order goes to the book of its symbol, opened if need be,
    ///   and is recorded under its identifiers.
    /// - A cancel of identifiers without record is acknowledged under the
    ///   unknown symbol. One with a record goes to the recorded book, or
    ///   is acknowledged under the recorded symbol where that book is
    ///   missing; the record goes either way.
    /// - A flush empties the engine and sends nothing.
    /// - A query sends the two sides of the top of the symbol's book, and
    ///   changes nothing.
    pub open spec fn process(self, msg: InputMessageView) -> (EngineView, Seq<OutputMessageView>) {
        match msg {
            InputMessageView::NewOrder(order) => {
                let (book, outputs) = self.book_or_new(order.symbol).add_order(order);
                (
                    EngineView {
                        books: self.books.insert(order.symbol, book),
                        index: self.index.insert(
                            (order.user_id, order.user_order_id),
                            order.symbol,
                        ),
                    },
                    outputs,
                )
            },
            InputMessageView::Cancel(cancel) => {
                let key = (cancel.user_id, cancel.user_order_id);
                if !self.index.contains_key(key) {
                    (
                        self,
                        seq![
                            OutputMessageView::cancel_ack(
                                cancel.user_id,
                                cancel.user_order_id,
                                unknown_symbol(),
                            ),
                        ],
                    )
                } else {
                    let symbol = self.index[key];
                    if self.books.contains_key(symbol) {
                        let (book, outputs) = self.books[symbol].cancel_order(
                            cancel.user_id,
                            cancel.user_order_id,
                        );
                        (
                            EngineView {
                                books: self.books.insert(symbol, book),
                                index: self.index.remove(key),
                            },
                            outputs,
                        )
                    } else {
                        (
                            EngineView { index: self.index.remove(key), ..self },
                            seq![
                                OutputMessageView::cancel_ack(
                                    cancel.user_id,
                                    cancel.user_order_id,
                                    symbol,
                                ),
                            ],
                        )
                    }
                }
            },
            InputMessageView::Flush => (EngineView::empty(), Seq::empty()),
            InputMessageView::QueryTopOfBook(query) => (
                self,
                self.book_or_new(query.symbol).query(),
            ),
        }
    }
}

/// Every message that an engine accepts keeps it well formed: each book
/// stays well formed and under its own symbol.
pub proof fn lemma_process_keeps_wf(engine: EngineView, msg: InputMessageView)
    requires
        engine.wf(),
        engine.accepts(msg),
    ensures
        engine.process(msg).0.wf(),
{
    let after = engine.process(msg).0;
    match msg {
        InputMessageView::NewOrder(order) => {
            let book = engine.book_or_new(order.symbol);
            lemma_empty_book_wf(order.symbol);
            lemma_add_order_wf(book, order);
            assert forall|symbol: Seq<char>| #[trigger]
                after.books.contains_key(symbol) implies after.books[symbol].wf()
                && after.books[symbol].symbol == symbol by {
                if symbol != order.symbol {
                    assert(engine.books.contains_key(symbol));
                }
            }
        },
        InputMessageView::Cancel(cancel) => {
            let key = (cancel.user_id, cancel.user_order_id);
            if engine.index.contains_key(key) && engine.books.contains_key(engine.index[key]) {
                let symbol = engine.index[key];
                lemma_cancel_order_wf(engine.books[symbol], cancel.user_id, cancel.user_order_id);
                assert forall|s: Seq<char>| #[trigger]
                    after.books.contains_key(s) implies after.books[s].wf() && after.books[s].symbol
                    == s by {
                    if s != symbol {
                        assert(engine.books.contains_key(s));
                    }
                }
            }
        },
        InputMessageView::Flush => {},
        InputMessageView::QueryTopOfBook(_) => {},
    }
}

/// The cancel of identifiers that the engine has no record of is
/// acknowledged under the unknown symbol and leaves the engine as it is,
/// however often it is repeated.
pub proof fn lemma_unknown_cancel_is_idempotent(engine: EngineView, cancel: Cancel)
    requires
        !engine.index.contains_key((cancel.user_id, cancel.user_order_id)),
    ensures
        engine.process(InputMessageView::Cancel(cancel)) == (
            engine,
            seq![
                OutputMessageView::cancel_ack(
                    cancel.user_id,
                    cancel.user_order_id,
                    unknown_symbol(),
                ),
            ],
        ),
        engine.process(InputMessageView::Cancel(cancel)).0.process(
            InputMessageView::Cancel(cancel),
        ) == engine.process(InputMessageView::Cancel(cancel)),
{
}

/// A cancel takes the record of its identifiers with it, whether or not
/// an order was found: the same cancel sent again is one of identifiers
/// without record.
pub proof fn lemma_cancel_clears_record(engine: EngineView, cancel: Cancel)
    ensures
        !engine.process(InputMessageView::Cancel(cancel)).0.index.contains_key(
            (cancel.user_id, cancel.user_order_id),
        ),
{
}

/// A flush sends nothing and returns the engine to its state before any
/// message; a second flush changes nothing.
pub proof fn lemma_flush_is_idempotent(engine: EngineView)
    ensures
        engine.process(InputMessageView::Flush) == (
            EngineView::empty(),
            Seq::<OutputMessageView>::empty(),
        ),
        engine.process(InputMessageView::Flush).0.process(InputMessageView::Flush)
            == engine.process(InputMessageView::Flush),
        EngineView::empty().wf(),
{
}

/// A query changes nothing, and sends exactly two reports: the bid, then
/// the ask.
pub proof fn lemma_query_changes_nothing(engine: EngineView, symbol: Seq<char>)
    requires
        engine.wf(),
    ensures
        ({
            let (after, outputs) = engine.process(
                InputMessageView::QueryTopOfBook(
                    crate::messages::TopOfBookQueryView { symbol },
                ),
            );
            &&& after == engine
            &&& outputs.len() == 2
            &&& outputs[0] matches OutputMessageView::TopOfBook(bid) && bid.side == Side::Buy
                && bid.symbol == symbol
            &&& outputs[1] matches OutputMessageView::TopOfBook(ask) && ask.side == Side::Sell
                && ask.symbol == symbol
        }),
{
}

/// The record of resting orders. While no order arrives under identifiers
/// that a resting order carries, every resting order is on record under
/// the symbol of its book, and no two resting orders share identifiers.
/// A cancel then reaches the order it names: after it, no resting order
/// carries its identifiers.
pub proof fn lemma_process_keeps_orders_on_record(engine: EngineView, msg: InputMessageView)
    requires
        engine.wf(),
        engine.accepts(msg),
        engine.orders_on_record(),
        engine.ids_unique(),
        msg matches InputMessageView::NewOrder(order) ==> !engine.is_resting(
            order.user_id,
            order.user_order_id,
        ),
    ensures
        engine.process(msg).0.orders_on_record(),
        engine.process(msg).0.ids_unique(),
        msg matches InputMessageView::Cancel(cancel) ==> !engine.process(msg).0.is_resting(
            cancel.user_id,
            cancel.user_order_id,
        ),
{
    let after = engine.process(msg).0;
    match msg {
        InputMessageView::NewOrder(order) => {
            let book = engine.book_or_new(order.symbol);
            lemma_empty_book_wf(order.symbol);
            assert(!book.holds(order.user_id, order.user_order_id)) by {
                if engine.books.contains_key(order.symbol) {
                    assert(engine.books.contains_key(order.symbol) && !engine.books[order.symbol].holds(
                        order.user_id,
                        order.user_order_id,
                    ));
                } else {
                    lemma_empty_book_holds_nothing(order.symbol, order.user_id, order.user_order_id);
                }
            }
            assert(book.ids_unique()) by {
                if !engine.books.contains_key(order.symbol) {
                    lemma_empty_book_ids_unique(order.symbol);
                }
            }
            lemma_add_order_keeps_identifiers(book, order);
            let added = book.add_order(order).0;
            assert forall|symbol: Seq<char>, user_id: u32, user_order_id: u32|
                after.books.contains_key(symbol) && #[trigger] after.books[symbol].holds(
                    user_id,
                    user_order_id,
                ) implies after.index.contains_key((user_id, user_order_id)) && after.index[(
                user_id,
                user_order_id,
            )] == symbol by {
                if symbol == order.symbol {
                    assert(added.holds(user_id, user_order_id));
                    if !(user_id == order.user_id && user_order_id == order.user_order_id) {
                        assert(book.holds(user_id, user_order_id));
                        if !engine.books.contains_key(symbol) {
                            lemma_empty_book_holds_nothing(symbol, user_id, user_order_id);
                        }
                    }
                } else {
                    assert(engine.books.contains_key(symbol) && engine.books[symbol].holds(
                        user_id,
                        user_order_id,
                    ));
                }
            }
            assert forall|symbol: Seq<char>| #[trigger]
                after.books.contains_key(symbol) implies after.books[symbol].ids_unique() by {
                if symbol != order.symbol {
                    assert(engine.books.contains_key(symbol));
                }
            }
        },
        InputMessageView::Cancel(cancel) => {
            let key = (cancel.user_id, cancel.user_order_id);
            if engine.index.contains_key(key) && engine.books.contains_key(engine.index[key]) {
                let symbol = engine.index[key];
                let book = engine.books[symbol];
                lemma_cancel_order_keeps_identifiers(book, cancel.user_id, cancel.user_order_id);
                let cancelled = book.cancel_order(cancel.user_id, cancel.user_order_id).0;
                assert forall|s: Seq<char>, user_id: u32, user_order_id: u32|
                    after.books.contains_key(s) && #[trigger] after.books[s].holds(
                        user_id,
                        user_order_id,
                    ) implies after.index.contains_key((user_id, user_order_id)) && after.index[(
                    user_id,
                    user_order_id,
                )] == s by {
                    if s == symbol {
                        assert(cancelled.holds(user_id, user_order_id));
                        assert(book.holds(user_id, user_order_id));
                    } else {
                        assert(engine.books.contains_key(s) && engine.books[s].holds(
                            user_id,
                            user_order_id,
                        ));
                    }
                }
                assert forall|s: Seq<char>| #[trigger]
                    after.books.contains_key(s) implies after.books[s].ids_unique() by {
                    if s != symbol {
                        assert(engine.books.contains_key(s));
                    }
                }
            } else {
                assert forall|s: Seq<char>, user_id: u32, user_order_id: u32|
                    after.books.contains_key(s) && #[trigger] after.books[s].holds(
                        user_id,
                        user_order_id,
                    ) implies after.index.contains_key((user_id, user_order_id)) && after.index[(
                    user_id,
                    user_order_id,
                )] == s by {
                    assert(engine.books.contains_key(s) && engine.books[s].holds(
                        user_id,
                        user_order_id,
                    ));
                }
            }
            assert(!after.is_resting(cancel.user_id, cancel.user_order_id)) by {
                if after.is_resting(cancel.user_id, cancel.user_order_id) {
                    let s = choose|s: Seq<char>| #[trigger]
                        after.books.contains_key(s) && after.books[s].holds(
                            cancel.user_id,
                            cancel.user_order_id,
                        );
                    assert(after.books.contains_key(s) && after.books[s].holds(
                        cancel.user_id,
                        cancel.user_order_id,
                    ));
                    assert(after.index.contains_key(key));
                }
            }
        },
        InputMessageView::Flush => {},
        InputMessageView::QueryTopOfBook(_) => {},
    }
}

/// A book without orders holds no identifiers.
proof fn lemma_empty_book_holds_nothing(symbol: Seq<char>, user_id: u32, user_order_id: u32)
    ensures
        !BookView::empty(symbol).holds(user_id, user_order_id),
{
}

/// In a book without orders no identifiers are shared.
proof fn lemma_empty_book_ids_unique(symbol: Seq<char>)
    ensures
        BookView::empty(symbol).ids_unique(),
{
}

/// The key under which the order of a user is recorded: the user
/// identifier in the upper half, the order identifier in the lower.
pub open spec fn packed_key(key: (u32, u32)) -> u64 {
    (key.0 as int * 0x1_0000_0000 + key.1 as int) as u64
}

/// Packs user and order identifier into one key.
fn order_key(user_id: u32, user_order_id: u32) -> (key: u64)
    ensures
        key == packed_key((user_id, user_order_id)),
{
    (user_id as u64) * 0x1_0000_0000 + (user_order_id as u64)
}

/// The multi-symbol matching engine.
pub struct MatchingEngine {
    /// The books, in the order in which their symbols first appeared.
    books: Vec<OrderBook>,
    /// Symbol to the place of its book in `books`.
    slots: StringHashMap<usize>,
    /// Packed user and order identifier to the symbol the order went to.
    order_to_symbol: HashMap<u64, String>,
}

impl View for MatchingEngine {
    type V = EngineView;

    closed spec fn view(&self) -> EngineView {
        EngineView {
            books: Map::new(
                |symbol: Seq<char>| self.slots@.contains_key(symbol),
                |symbol: Seq<char>| self.books@[self.slots@[symbol] as int]@,
            ),
            index: Map::new(
                |key: (u32, u32)| self.order_to_symbol@.contains_key(packed_key(key)),
                |key: (u32, u32)| self.order_to_symbol@[packed_key(key)]@,
            ),
        }
    }
}

impl MatchingEngine {
    /// The invariant of an engine: every symbol leads to a well-formed
    /// book of that symbol.
    pub closed spec fn wf(&self) -> bool {
        forall|symbol: Seq<char>| #[trigger]
            self.slots@.contains_key(symbol) ==> {
                &&& self.slots@[symbol] < self.books@.len()
                &&& self.books@[self.slots@[symbol] as int]@.symbol == symbol
                &&& self.books@[self.slots@[symbol] as int]@.wf()
            }
    }

    /// The value of a well-formed engine is well formed.
    pub proof fn lemma_view_wf(&self)
        requires
            self.wf(),
        ensures
            self@.wf(),
    {
    }

    /// An engine without books or records.
    pub fn new() -> (engine: MatchingEngine)
        ensures
            engine.wf(),
            engine@ == EngineView::empty(),
    {
        let engine = MatchingEngine {
            books: Vec::new(),
            slots: StringHashMap::new(),
            order_to_symbol: HashMap::new(),
        };
        proof {
            assert(engine@.books =~= Map::empty());
            assert(engine@.index =~= Map::empty());
        }
        engine
    }

    /// Takes in one message and returns what is to be sent out, in order.
    pub fn process_message(&mut self, msg: InputMessage) -> (outputs: Vec<OutputMessage>)
        requires
            old(self).wf(),
            old(self)@.accepts(msg@),
        ensures
            final(self).wf(),
            (final(self)@, views_of(outputs@)) == old(self)@.process(msg@),
    {
        match msg {
            InputMessage::NewOrder(new) => self.process_new_order(new),
            InputMessage::Cancel(cancel) => self.process_cancel(cancel),
            InputMessage::Flush => self.process_flush(),
            InputMessage::QueryTopOfBook(query) => self.process_query_top_of_book(query),
        }
    }

    /// True when `msg` is no order, a market order, or an order whose whole
    /// quantity fits in `u32` beside what rests at its price in its book.
    /// The engine accepts every message that passes.
    pub fn can_accept(&self, msg: &InputMessage) -> (ok: bool)
        requires
            self.wf(),
        ensures
            ok == self@.surely_accepts(msg@),
            ok ==> self@.accepts(msg@),
    {
        match msg {
            InputMessage::NewOrder(order) => {
                match self.slots.get(order.symbol.as_str()) {
                    Some(slot) => self.books[*slot].can_accept(order),
                    None => {
                        proof {
                            lemma_empty_book_wf(order.symbol@);
                            crate::book_model::lemma_surely_has_room(
                                BookView::empty(order.symbol@),
                                order@,
                            );
                        }
                        true
                    },
                }
            },
            _ => true,
        }
    }

    /// Sends a new order to the book of its symbol, opened if need be, and
    /// records where it went.
    fn process_new_order(&mut self, msg: NewOrder) -> (outputs: Vec<OutputMessage>)
        requires
            old(self).wf(),
            old(self)@.accepts(InputMessageView::NewOrder(msg@)),
        ensures
            final(self).wf(),
            (final(self)@, views_of(outputs@)) == old(self)@.process(
                InputMessageView::NewOrder(msg@),
            ),
    {
        let slot = self.get_or_create_order_book(msg.symbol.as_str());
        let ghost opened = *self;
        let key = order_key(msg.user_id, msg.user_order_id);
        self.order_to_symbol.insert(key, msg.symbol.clone());
        let outputs = self.books[slot].add_order(&msg);
        proof {
            let book = old(self)@.book_or_new(msg@.symbol).add_order(msg@).0;
            assert(self.books@[slot as int]@ == book);
            assert(self.slots@ == opened.slots@);
            assert forall|symbol: Seq<char>| #[trigger]
                self.slots@.contains_key(symbol) && symbol != msg@.symbol implies
                self.books@[self.slots@[symbol] as int] == opened.books@[opened.slots@[symbol] as int]
                && old(self)@.books.contains_key(symbol)
                && opened.books@[opened.slots@[symbol] as int]@ == old(self)@.books[symbol] by {
                assert(opened.books@[opened.slots@[symbol] as int]@.symbol == symbol);
                assert(opened.slots@[symbol] != slot);
                assert(opened@.books.contains_key(symbol));
                assert(opened@.books[symbol] == old(self)@.books[symbol]);
            }
            let target = old(self)@.books.insert(msg@.symbol, book);
            assert forall|symbol: Seq<char>| #[trigger]
                self@.books.contains_key(symbol) implies target.contains_key(symbol)
                && self@.books[symbol] == target[symbol] by {
                assert(self.slots@.contains_key(symbol));
            }
            assert forall|symbol: Seq<char>| #[trigger]
                target.contains_key(symbol) implies self@.books.contains_key(symbol) by {
                assert(opened@.books.contains_key(symbol));
            }
            assert(self@.books =~= target);
            assert(self@.index =~= old(self)@.index.insert(
                (msg.user_id, msg.user_order_id),
                msg@.symbol,
            ));
        }
        outputs
    }

    /// Routes a cancel to the book on record, acknowledges it where there
    /// is no record or no book, and drops the record.
    fn process_cancel(&mut self, msg: Cancel) -> (outputs: Vec<OutputMessage>)
        requires
            old(self).wf(),
        ensures
            final(self).wf(),
            (final(self)@, views_of(outputs@)) == old(self)@.process(InputMessageView::Cancel(msg)),
    {
        let key = order_key(msg.user_id, msg.user_order_id);
        let symbol_opt = match self.order_to_symbol.get(&key) {
            Some(symbol) => Some(symbol.clone()),
            None => None,
        };
        match symbol_opt {
            None => {
                let outputs = vec![
                    OutputMessage::cancel_ack(
                        msg.user_id,
                        msg.user_order_id,
                        "<unknown>".to_owned(),
                    ),
                ];
                proof {
                    assert(views_of(outputs@) =~= seq![
                        OutputMessageView::cancel_ack(
                            msg.user_id,
                            msg.user_order_id,
                            unknown_symbol(),
                        ),
                    ]);
                }
                outputs
            },
            Some(symbol) => {
                let ghost before = *self;
                let found = match self.slots.get(symbol.as_str()) {
                    Some(slot) => Some(*slot),
                    None => None,
                };
                let outputs = match found {
                    Some(slot) => self.books[slot].cancel_order(msg.user_id, msg.user_order_id),
                    None => {
                        let outputs = vec![
                            OutputMessage::cancel_ack(
                                msg.user_id,
                                msg.user_order_id,
                                symbol.clone(),
                            ),
                        ];
                        proof {
                            assert(views_of(outputs@) =~= seq![
                                OutputMessageView::cancel_ack(
                                    msg.user_id,
                                    msg.user_order_id,
                                    symbol@,
                                ),
                            ]);
                        }
                        outputs
                    },
                };
                self.order_to_symbol.remove(&key);
                proof {
                    assert forall|s: Seq<char>| #[trigger]
                        self.slots@.contains_key(s) implies self.slots@[s] < self.books@.len()
                        && self.books@[self.slots@[s] as int]@.symbol == s
                        && self.books@[self.slots@[s] as int]@.wf() by {
                        if found is Some && self.slots@[s] != found->0 {
                            assert(self.books@[self.slots@[s] as int] == before.books@[self.slots@[s] as int]);
                        }
                    }
                    assert(self@.index =~= old(self)@.index.remove(
                        (msg.user_id, msg.user_order_id),
                    ));
                    if found is Some {
                        let book = old(self)@.books[symbol@].cancel_order(
                            msg.user_id,
                            msg.user_order_id,
                        ).0;
                        assert(self@.books =~= old(self)@.books.insert(symbol@, book)) by {
                            assert forall|s: Seq<char>| #[trigger]
                                self@.books.contains_key(s) && s != symbol@ implies
                                self@.books[s] == old(self)@.books[s] by {
                                assert(self.slots@[s] != found->0);
                                assert(self.books@[self.slots@[s] as int] == before.books@[self.slots@[s] as int]);
                            }
                        }
                    } else {
                        assert(self@.books =~= old(self)@.books);
                    }
                }
                outputs
            },
        }
    }

    /// Drops every book and every record, and sends nothing.
    fn process_flush(&mut self) -> (outputs: Vec<OutputMessage>)
        ensures
            final(self).wf(),
            final(self)@ == EngineView::empty(),
            outputs@.len() == 0,
            views_of(outputs@) == Seq::<OutputMessageView>::empty(),
    {
        self.books.clear();
        self.slots.clear();
        self.order_to_symbol.clear();
        let outputs: Vec<OutputMessage> = Vec::new();
        proof {
            assert(self@.books =~= Map::empty());
            assert(self@.index =~= Map::empty());
            assert(views_of(outputs@) =~= Seq::<OutputMessageView>::empty());
        }
        outputs
    }

    /// Reports the bid and the ask of a symbol's book, both eliminated
    /// where the symbol has no book, and changes nothing.
    fn process_query_top_of_book(&mut self, query: TopOfBookQuery) -> (outputs: Vec<OutputMessage>)
        requires
            old(self).wf(),
        ensures
            final(self).wf(),
            *final(self) == *old(self),
            views_of(outputs@) == old(self)@.book_or_new(query@.symbol).query(),
    {
        let symbol = query.symbol;
        let (bid_price, bid_qty, ask_price, ask_qty) = match self.slots.get(symbol.as_str()) {
            Some(slot) => {
                let book = &self.books[*slot];
                (
                    book.best_bid_price(),
                    book.best_bid_quantity(),
                    book.best_ask_price(),
                    book.best_ask_quantity(),
                )
            },
            None => {
                proof {
                    lemma_empty_book_wf(symbol@);
                }
                (0, 0, 0, 0)
            },
        };
        let mut outputs: Vec<OutputMessage> = Vec::new();
        if bid_price == 0 {
            outputs.push(OutputMessage::top_of_book_eliminated(symbol.clone(), Side::Buy));
        } else {
            outputs.push(OutputMessage::top_of_book(symbol.clone(), Side::Buy, bid_price, bid_qty));
        }
        if ask_price == 0 {
            outputs.push(OutputMessage::top_of_book_eliminated(symbol.clone(), Side::Sell));
        } else {
            outputs.push(
                OutputMessage::top_of_book(symbol.clone(), Side::Sell, ask_price, ask_qty),
            );
        }
        proof {
            assert(views_of(outputs@) =~= old(self)@.book_or_new(symbol@).query());
        }
        outputs
    }

    /// The place of the book of `symbol`, which is opened where the symbol
    /// had none.
    fn get_or_create_order_book(&mut self, symbol: &str) -> (slot: usize)
        requires
            old(self).wf(),
        ensures
            final(self).wf(),
            slot < final(self).books@.len(),
            final(self).slots@.contains_key(symbol@),
            final(self).slots@[symbol@] == slot,
            final(self).books@[slot as int]@ == old(self)@.book_or_new(symbol@),
            final(self)@.books == old(self)@.books.insert(
                symbol@,
                old(self)@.book_or_new(symbol@),
            ),
            final(self).order_to_symbol == old(self).order_to_symbol,
    {
        let found = match self.slots.get(symbol) {
            Some(slot) => Some(*slot),
            None => None,
        };
        match found {
            Some(slot) => {
                proof {
                    assert(self@.books =~= old(self)@.books.insert(
                        symbol@,
                        old(self)@.book_or_new(symbol@),
                    ));
                }
                slot
            },
            None => {
                let slot = self.books.len();
                self.books.push(OrderBook::new(symbol));
                self.slots.insert(symbol.to_owned(), slot);
                proof {
                    assert forall|s: Seq<char>| #[trigger]
                        self.slots@.contains_key(s) implies self.slots@[s] < self.books@.len()
                        && self.books@[self.slots@[s] as int]@.symbol == s
                        && self.books@[self.slots@[s] as int]@.wf() by {
                        if s != symbol@ {
                            assert(old(self).slots@.contains_key(s));
                        }
                    }
                    assert(self@.books =~= old(self)@.books.insert(
                        symbol@,
                        old(self)@.book_or_new(symbol@),
                    ));
                }
                slot
            },
        }
    }

    /// The book of `symbol`, if the engine has one.
    pub fn get_book(&self, symbol: &str) -> (book: Option<&OrderBook>)
        requires
            self.wf(),
        ensures
            match book {
                Some(book) => self@.books.contains_key(symbol@) && book@ == self@.books[symbol@],
                None => !self@.books.contains_key(symbol@),
            },
    {
        match self.slots.get(symbol) {
            Some(slot) => Some(&self.books[*slot]),
            None => None,
        }
    }

    /// The number of symbols that have a book.
    pub fn num_symbols(&self) -> (n: usize)
        ensures
            n == self@.books.dom().len(),
    {
        proof {
            assert(self@.books.dom() =~= self.slots@.dom());
        }
        self.slots.len()
    }
}

impl Default for MatchingEngine {
    fn default() -> (engine: MatchingEngine)
        ensures
            engine.wf(),
            engine@ == EngineView::empty(),
    {
        MatchingEngine::new()
    }
}

} // verus!

//! The logical messages that the engine consumes and produces.
//!
//! Every message type has a view, its mathematical value, in which a symbol
//! is a sequence of characters. Contracts across the crate speak of views.

use vstd::prelude::*;
use crate::order_type::OrderType;
use crate::side::Side;

verus! {

/// A request to place an order.
#[derive(Debug, Clone, PartialEq, Eq)]
pub struct NewOrder {
    /// The user placing the order.
    pub user_id: u32,
    /// The instrument, for instance `IBM`.
    pub symbol: String,
    /// Price in ticks; zero makes this a market order.
    pub price: u32,
    /// The quantity asked for.
    pub quantity: u32,
    /// Buy or sell.
    pub side: Side,
    /// The user's own identifier of the order, named again to cancel it.
    pub user_order_id: u32,
}

/// The value of a [`NewOrder`].
pub struct NewOrderView {
    pub user_id: u32,
    pub symbol: Seq<char>,
    pub price: u32,
    pub quantity: u32,
    pub side: Side,
    pub user_order_id: u32,
}

impl View for NewOrder {
    type V = NewOrderView;

    open spec fn view(&self) -> NewOrderView {
        NewOrderView {
            user_id: self.user_id,
            symbol: self.symbol@,
            price: self.price,
            quantity: self.quantity,
            side: self.side,
            user_order_id: self.user_order_id,
        }
    }
}

impl NewOrderView {
    /// Market for price zero, limit otherwise.
    pub open spec fn order_type(self) -> OrderType {
        OrderType::of_price(self.price)
    }
}

impl NewOrder {
    /// Market for price zero, limit otherwise.
    pub fn order_type(&self) -> (t: OrderType)
        ensures
            t == self@.order_type(),
    {
        if self.price == 0 {
            OrderType::Market
        } else {
            OrderType::Limit
        }
    }
}

/// A request to cancel the order that a user placed under an identifier.
#[derive(Debug, Clone, Copy, PartialEq, Eq, Structural)]
pub struct Cancel {
    pub user_id: u32,
    pub user_order_id: u32,
}

/// A request for the current top of one symbol's book.
#[derive(Debug, Clone, PartialEq, Eq)]
pub struct TopOfBookQuery {
    /// The symbol asked about.
    pub symbol: String,
}

/// The value of a [`TopOfBookQuery`].
pub struct TopOfBookQueryView {
    pub symbol: Seq<char>,
}

impl View for TopOfBookQuery {
    type V = TopOfBookQueryView;

    open spec fn view(&self) -> TopOfBookQueryView {
        TopOfBookQueryView { symbol: self.symbol@ }
    }
}

/// What the engine consumes.
#[derive(Debug, Clone, PartialEq, Eq)]
pub enum InputMessage {
    /// Place a market or limit order.
    NewOrder(NewOrder),
    /// Cancel an order by user and order identifier.
    Cancel(Cancel),
    /// Drop every book and all routing state.
    Flush,
    /// Report the top of one symbol's book.
    QueryTopOfBook(TopOfBookQuery),
}

/// The value of an [`InputMessage`].
pub enum InputMessageView {
    NewOrder(NewOrderView),
    Cancel(Cancel),
    Flush,
    QueryTopOfBook(TopOfBookQueryView),
}

impl View for InputMessage {
    type V = InputMessageView;

    open spec fn view(&self) -> InputMessageView {
        match self {
            InputMessage::NewOrder(n) => InputMessageView::NewOrder(n@),
            InputMessage::Cancel(c) => InputMessageView::Cancel(*c),
            InputMessage::Flush => InputMessageView::Flush,
            InputMessage::QueryTopOfBook(q) => InputMessageView::QueryTopOfBook(q@),
        }
    }
}

/// Acknowledges a new order.
#[derive(Debug, Clone, PartialEq, Eq)]
pub struct Ack {
    pub user_id: u32,
    pub user_order_id: u32,
    pub symbol: String,
}

/// The value of an [`Ack`].
pub struct AckView {
    pub user_id: u32,
    pub user_order_id: u32,
    pub symbol: Seq<char>,
}

impl View for Ack {
    type V = AckView;

    open spec fn view(&self) -> AckView {
        AckView { user_id: self.user_id, user_order_id: self.user_order_id, symbol: self.symbol@ }
    }
}

/// Acknowledges a cancel request, whether or not an order was found.
#[derive(Debug, Clone, PartialEq, Eq)]
pub struct CancelAck {
    pub user_id: u32,
    pub user_order_id: u32,
    pub symbol: String,
}

/// The value of a [`CancelAck`].
pub struct CancelAckView {
    pub user_id: u32,
    pub user_order_id: u32,
    pub symbol: Seq<char>,
}

impl View for CancelAck {
    type V = CancelAckView;

    open spec fn view(&self) -> CancelAckView {
        CancelAckView {
            user_id: self.user_id,
            user_order_id: self.user_order_id,
            symbol: self.symbol@,
        }
    }
}

/// One fill between a buyer and a seller.
#[derive(Debug, Clone, PartialEq, Eq)]
pub struct Trade {
    /// The instrument traded.
    pub symbol: String,
    pub user_id_buy: u32,
    pub user_order_id_buy: u32,
    pub user_id_sell: u32,
    pub user_order_id_sell: u32,
    /// The price of the resting order.
    pub price: u32,
    pub quantity: u32,
}

/// The value of a [`Trade`].
pub struct TradeView {
    pub symbol: Seq<char>,
    pub user_id_buy: u32,
    pub user_order_id_buy: u32,
    pub user_id_sell: u32,
    pub user_order_id_sell: u32,
    pub price: u32,
    pub quantity: u32,
}

impl View for Trade {
    type V = TradeView;

    open spec fn view(&self) -> TradeView {
        TradeView {
            symbol: self.symbol@,
            user_id_buy: self.user_id_buy,
            user_order_id_buy: self.user_order_id_buy,
            user_id_sell: self.user_id_sell,
            user_order_id_sell: self.user_order_id_sell,
            price: self.price,
            quantity: self.quantity,
        }
    }
}

/// The best price of one side of a book and the quantity resting there.
#[derive(Debug, Clone, PartialEq, Eq)]
pub struct TopOfBook {
    /// The instrument.
    pub symbol: String,
    /// The side reported: buy for the bid, sell for the ask.
    pub side: Side,
    /// The best price; zero when the side is eliminated.
    pub price: u32,
    /// The total quantity at the best price; zero when the side is eliminated.
    pub total_quantity: u32,
    /// True when the side holds no order.
    pub eliminated: bool,
}

/// The value of a [`TopOfBook`].
pub struct TopOfBookView {
    pub symbol: Seq<char>,
    pub side: Side,
    pub price: u32,
    pub total_quantity: u32,
    pub eliminated: bool,
}

impl View for TopOfBook {
    type V = TopOfBookView;

    open spec fn view(&self) -> TopOfBookView {
        TopOfBookView {
            symbol: self.symbol@,
            side: self.side,
            price: self.price,
            total_quantity: self.total_quantity,
            eliminated: self.eliminated,
        }
    }
}

/// What the engine produces.
#[derive(Debug, Clone, PartialEq, Eq)]
pub enum OutputMessage {
    /// A new order was received.
    Ack(Ack),
    /// A cancel request was received.
    CancelAck(CancelAck),
    /// Two orders traded.
    Trade(Trade),
    /// The top of one side of a book, as a change or as a snapshot.
    TopOfBook(TopOfBook),
}

/// The value of an [`OutputMessage`].
pub enum OutputMessageView {
    Ack(AckView),
    CancelAck(CancelAckView),
    Trade(TradeView),
    TopOfBook(TopOfBookView),
}

impl View for OutputMessage {
    type V = OutputMessageView;

    open spec fn view(&self) -> OutputMessageView {
        match self {
            OutputMessage::Ack(a) => OutputMessageView::Ack(a@),
            OutputMessage::CancelAck(c) => OutputMessageView::CancelAck(c@),
            OutputMessage::Trade(t) => OutputMessageView::Trade(t@),
            OutputMessage::TopOfBook(t) => OutputMessageView::TopOfBook(t@),
        }
    }
}

/// The values of a sequence of output messages, in order.
pub open spec fn views_of(msgs: Seq<OutputMessage>) -> Seq<OutputMessageView> {
    Seq::new(msgs.len(), |i: int| msgs[i]@)
}

impl OutputMessageView {
    /// The acknowledgement of a new order.
    pub open spec fn ack(user_id: u32, user_order_id: u32, symbol: Seq<char>) -> OutputMessageView {
        OutputMessageView::Ack(AckView { user_id, user_order_id, symbol })
    }

    /// The acknowledgement of a cancel request.
    pub open spec fn cancel_ack(
        user_id: u32,
        user_order_id: u32,
        symbol: Seq<char>,
    ) -> OutputMessageView {
        OutputMessageView::CancelAck(CancelAckView { user_id, user_order_id, symbol })
    }

    /// A report of a side that holds orders.
    pub open spec fn top_of_book(
        symbol: Seq<char>,
        side: Side,
        price: u32,
        total_quantity: u32,
    ) -> OutputMessageView {
        OutputMessageView::TopOfBook(
            TopOfBookView { symbol, side, price, total_quantity, eliminated: false },
        )
    }

    /// A report of a side that holds no order: price and quantity are zero.
    pub open spec fn top_of_book_eliminated(symbol: Seq<char>, side: Side) -> OutputMessageView {
        OutputMessageView::TopOfBook(
            TopOfBookView { symbol, side, price: 0, total_quantity: 0, eliminated: true },
        )
    }

    /// The report of one side whose best price and quantity are given:
    /// eliminated exactly when the price is zero.
    pub open spec fn side_report(
        symbol: Seq<char>,
        side: Side,
        price: u32,
        total_quantity: u32,
    ) -> OutputMessageView {
        if price == 0 {
            OutputMessageView::top_of_book_eliminated(symbol, side)
        } else {
            OutputMessageView::top_of_book(symbol, side, price, total_quantity)
        }
    }
}

impl OutputMessage {
    /// Builds the acknowledgement of a new order.
    pub fn ack(user_id: u32, user_order_id: u32, symbol: String) -> (m: OutputMessage)
        ensures
            m@ == OutputMessageView::ack(user_id, user_order_id, symbol@),
    {
        OutputMessage::Ack(Ack { user_id, user_order_id, symbol })
    }

    /// Builds the acknowledgement of a cancel request.
    pub fn cancel_ack(user_id: u32, user_order_id: u32, symbol: String) -> (m: OutputMessage)
        ensures
            m@ == OutputMessageView::cancel_ack(user_id, user_order_id, symbol@),
    {
        OutputMessage::CancelAck(CancelAck { user_id, user_order_id, symbol })
    }

    /// Builds a trade event.
    pub fn trade(
        symbol: String,
        user_id_buy: u32,
        user_order_id_buy: u32,
        user_id_sell: u32,
        user_order_id_sell: u32,
        price: u32,
        quantity: u32,
    ) -> (m: OutputMessage)
        ensures
            m@ == OutputMessageView::Trade(
                TradeView {
                    symbol: symbol@,
                    user_id_buy,
                    user_order_id_buy,
                    user_id_sell,
                    user_order_id_sell,
                    price,
                    quantity,
                },
            ),
    {
        OutputMessage::Trade(
            Trade {
                symbol,
                user_id_buy,
                user_order_id_buy,
                user_id_sell,
                user_order_id_sell,
                price,
                quantity,
            },
        )
    }

    /// Builds the report of a side that holds orders.
    pub fn top_of_book(symbol: String, side: Side, price: u32, total_quantity: u32) -> (m:
        OutputMessage)
        ensures
            m@ == OutputMessageView::top_of_book(symbol@, side, price, total_quantity),
    {
        OutputMessage::TopOfBook(
            TopOfBook { symbol, side, price, total_quantity, eliminated: false },
        )
    }

    /// Builds the report of a side that holds no order.
    pub fn top_of_book_eliminated(symbol: String, side: Side) -> (m: OutputMessage)
        ensures
            m@ == OutputMessageView::top_of_book_eliminated(symbol@, side),
    {
        OutputMessage::TopOfBook(
            TopOfBook { symbol, side, price: 0, total_quantity: 0, eliminated: true },
        )
    }
}

} // verus!

//! The binary payloads of the wire protocol.
//!
//! A payload is one message. It starts with four bytes: the type code, the
//! protocol version, and two reserved bytes written as zero. The body
//! follows; every number in it is big-endian, and a symbol is one length
//! byte followed by that many bytes of UTF-8.
//!
//! | message | body |
//! |---|---|
//! | NewOrder (0) | user, order id, price, quantity: four `u32`; side; symbol |
//! | Cancel (1) | user, order id: two `u32` |
//! | Flush (2) | empty |
//! | QueryTopOfBook (3) | symbol |
//! | Ack (10) | user, order id: two `u32`; symbol |
//! | CancelAck (11) | user, order id: two `u32`; symbol |
//! | Trade (12) | symbol; buying user and order id, selling user and order id, price, quantity: six `u32` |
//! | TopOfBook (13) | symbol; side; eliminated; price, total quantity: two `u32` |
//!
//! The length prefix that frames a payload on a stream is the sender's
//! business, not this module's.

use vstd::prelude::*;
use vstd::utf8::{decode_utf8, encode_utf8, valid_utf8};
use vstd::string::StringExecFns;
use crate::messages::{
    Ack, AckView, Cancel, CancelAck, CancelAckView, InputMessage, InputMessageView, NewOrder,
    NewOrderView, OutputMessage, OutputMessageView, TopOfBook, TopOfBookQuery,
    TopOfBookQueryView, TopOfBookView, Trade, TradeView,
};
use crate::side::Side;
use crate::text::{decimal, push_decimal};
use crate::wire_types::{
    is_symbol_len, validate_symbol_len, PROTOCOL_VERSION, WireInputType,
    WireOutputType,
};

verus! {

/// Why a payload could not be read, or a message not written.
#[derive(Debug, Clone, PartialEq, Eq)]
pub enum ProtocolError {
    /// The buffer ends before the fields do.
    Truncated,
    /// The type code names no message.
    UnknownMessageType(u8),
    /// The version byte is not the protocol's version.
    VersionMismatch(u8),
    /// The symbol is empty, too long, or not UTF-8.
    InvalidSymbol,
    /// The named field holds a value it may not hold.
    InvalidField(&'static str),
}

/// The value of a [`ProtocolError`].
pub enum ProtocolErrorView {
    Truncated,
    UnknownMessageType(u8),
    VersionMismatch(u8),
    InvalidSymbol,
    InvalidField(Seq<char>),
}

impl View for ProtocolError {
    type V = ProtocolErrorView;

    open spec fn view(&self) -> ProtocolErrorView {
        match self {
            ProtocolError::Truncated => ProtocolErrorView::Truncated,
            ProtocolError::UnknownMessageType(t) => ProtocolErrorView::UnknownMessageType(*t),
            ProtocolError::VersionMismatch(v) => ProtocolErrorView::VersionMismatch(*v),
            ProtocolError::InvalidSymbol => ProtocolErrorView::InvalidSymbol,
            ProtocolError::InvalidField(name) => ProtocolErrorView::InvalidField(name@),
        }
    }
}

/// An error in words.
pub open spec fn error_text(e: ProtocolErrorView) -> Seq<char> {
    match e {
        ProtocolErrorView::Truncated => "Buffer truncated"@,
        ProtocolErrorView::UnknownMessageType(t) => "Unknown message type: "@ + decimal(t as nat),
        ProtocolErrorView::VersionMismatch(v) => "Protocol version mismatch: got "@ + decimal(
            v as nat,
        ) + ", expected "@ + decimal(PROTOCOL_VERSION as nat),
        ProtocolErrorView::InvalidSymbol => "Invalid symbol"@,
        ProtocolErrorView::InvalidField(name) => "Invalid field: "@ + name,
    }
}

impl ProtocolError {
    /// This error in words, for a log or a user.
    pub fn message(&self) -> (text: String)
        ensures
            text@ == error_text(self@),
    {
        let mut text = String::new();
        match self {
            ProtocolError::Truncated => {
                text.append("Buffer truncated");
            },
            ProtocolError::UnknownMessageType(t) => {
                text.append("Unknown message type: ");
                push_decimal(&mut text, *t as u32);
            },
            ProtocolError::VersionMismatch(v) => {
                text.append("Protocol version mismatch: got ");
                push_decimal(&mut text, *v as u32);
                text.append(", expected ");
                push_decimal(&mut text, PROTOCOL_VERSION as u32);
            },
            ProtocolError::InvalidSymbol => {
                text.append("Invalid symbol");
            },
            ProtocolError::InvalidField(name) => {
                text.append("Invalid field: ");
                text.append(name);
            },
        }
        proof {
            assert(text@ =~= error_text(self@));
        }
        text
    }
}

/// The value of the result of reading an input payload.
pub open spec fn input_result_view(r: Result<InputMessage, ProtocolError>) -> Result<
    InputMessageView,
    ProtocolErrorView,
> {
    match r {
        Ok(m) => Ok(m@),
        Err(e) => Err(e@),
    }
}

/// The value of the result of reading an output payload.
pub open spec fn output_result_view(r: Result<OutputMessage, ProtocolError>) -> Result<
    OutputMessageView,
    ProtocolErrorView,
> {
    match r {
        Ok(m) => Ok(m@),
        Err(e) => Err(e@),
    }
}

/// The four bytes of a number, most significant first.
pub open spec fn be_bytes(v: u32) -> Seq<u8> {
    seq![
        (v / 0x100_0000) as u8,
        (v / 0x1_0000 % 0x100) as u8,
        (v / 0x100 % 0x100) as u8,
        (v % 0x100) as u8,
    ]
}

/// The number that four bytes spell, most significant first.
pub open spec fn be_value(bytes: Seq<u8>) -> u32 {
    (bytes[0] * 0x100_0000 + bytes[1] * 0x1_0000 + bytes[2] * 0x100 + bytes[3]) as u32
}

/// The number in the four bytes of a buffer that start at `at`.
pub open spec fn u32_at(buf: Seq<u8>, at: int) -> u32 {
    be_value(buf.subrange(at, at + 4))
}

/// The four bytes that open a payload of the given type code.
pub open spec fn header(code: u8) -> Seq<u8> {
    seq![code, PROTOCOL_VERSION, 0u8, 0u8]
}

/// True for a symbol that may go on the wire: its UTF-8 form has one to
/// thirty-two bytes.
pub open spec fn valid_symbol(symbol: Seq<char>) -> bool {
    is_symbol_len(encode_utf8(symbol).len() as int)
}

/// A symbol on the wire: the length of its UTF-8 form in one byte, then
/// that form.
pub open spec fn symbol_field(symbol: Seq<char>) -> Seq<u8> {
    seq![encode_utf8(symbol).len() as u8] + encode_utf8(symbol)
}

/// The byte of a side: zero for buy, one for sell.
pub open spec fn side_byte(side: Side) -> u8 {
    match side {
        Side::Buy => 0,
        Side::Sell => 1,
    }
}

/// The side that a byte stands for, if any.
pub open spec fn parsed_side(b: u8) -> Option<Side> {
    if b == 0 {
        Some(Side::Buy)
    } else if b == 1 {
        Some(Side::Sell)
    } else {
        None
    }
}

/// The byte of a flag: one for true, zero for false.
pub open spec fn flag_byte(flag: bool) -> u8 {
    if flag {
        1
    } else {
        0
    }
}

/// The payload of an input message, for a message whose symbol may go on
/// the wire. No other field is constrained.
pub open spec fn input_payload(msg: InputMessageView) -> Option<Seq<u8>> {
    match msg {
        InputMessageView::NewOrder(n) => if valid_symbol(n.symbol) {
            Some(
                header(WireInputType::NewOrder.code()) + be_bytes(n.user_id) + be_bytes(
                    n.user_order_id,
                ) + be_bytes(n.price) + be_bytes(n.quantity) + seq![side_byte(n.side)]
                    + symbol_field(n.symbol),
            )
        } else {
            None
        },
        InputMessageView::Cancel(c) => Some(
            header(WireInputType::Cancel.code()) + be_bytes(c.user_id) + be_bytes(c.user_order_id),
        ),
        InputMessageView::Flush => Some(header(WireInputType::Flush.code())),
        InputMessageView::QueryTopOfBook(q) => if valid_symbol(q.symbol) {
            Some(header(WireInputType::QueryTopOfBook.code()) + symbol_field(q.symbol))
        } else {
            None
        },
    }
}

/// The symbol of an output message.
pub open spec fn output_symbol(msg: OutputMessageView) -> Seq<char> {
    match msg {
        OutputMessageView::Ack(a) => a.symbol,
        OutputMessageView::CancelAck(c) => c.symbol,
        OutputMessageView::Trade(t) => t.symbol,
        OutputMessageView::TopOfBook(t) => t.symbol,
    }
}

/// The payload of an output message, for a message whose symbol may go on
/// the wire. No other field is constrained.
pub open spec fn output_payload(msg: OutputMessageView) -> Option<Seq<u8>> {
    if !valid_symbol(output_symbol(msg)) {
        None
    } else {
        Some(
            match msg {
                OutputMessageView::Ack(a) => header(WireOutputType::Ack.code()) + be_bytes(
                    a.user_id,
                ) + be_bytes(a.user_order_id) + symbol_field(a.symbol),
                OutputMessageView::CancelAck(c) => header(WireOutputType::CancelAck.code())
                    + be_bytes(c.user_id) + be_bytes(c.user_order_id) + symbol_field(c.symbol),
                OutputMessageView::Trade(t) => header(WireOutputType::Trade.code()) + symbol_field(
                    t.symbol,
                ) + be_bytes(t.user_id_buy) + be_bytes(t.user_order_id_buy) + be_bytes(
                    t.user_id_sell,
                ) + be_bytes(t.user_order_id_sell) + be_bytes(t.price) + be_bytes(t.quantity),
                OutputMessageView::TopOfBook(t) => header(WireOutputType::TopOfBook.code())
                    + symbol_field(t.symbol) + seq![side_byte(t.side), flag_byte(t.eliminated)]
                    + be_bytes(t.price) + be_bytes(t.total_quantity),
            },
        )
    }
}

/// The symbol whose length byte stands at `at`, in a message that has
/// `tail` more bytes after the symbol. The length is judged first, then
/// whether the buffer holds the symbol and the tail, then the UTF-8.
pub open spec fn parsed_symbol(buf: Seq<u8>, at: int, tail: int) -> Result<
    Seq<char>,
    ProtocolErrorView,
> {
    if buf.len() <= at {
        Err(ProtocolErrorView::Truncated)
    } else if !is_symbol_len(buf[at] as int) {
        Err(ProtocolErrorView::InvalidSymbol)
    } else if buf.len() < at + 1 + buf[at] + tail {
        Err(ProtocolErrorView::Truncated)
    } else if !valid_utf8(buf.subrange(at + 1, at + 1 + buf[at])) {
        Err(ProtocolErrorView::InvalidSymbol)
    } else {
        Ok(decode_utf8(buf.subrange(at + 1, at + 1 + buf[at])))
    }
}

/// What the body of a new order reads as. The side is judged before the
/// symbol, and the quantity, which may not be zero, last.
pub open spec fn parsed_new_order(buf: Seq<u8>) -> Result<InputMessageView, ProtocolErrorView> {
    if buf.len() < 22 {
        Err(ProtocolErrorView::Truncated)
    } else {
        match parsed_side(buf[20]) {
            None => Err(ProtocolErrorView::InvalidField("side"@)),
            Some(side) => match parsed_symbol(buf, 21, 0) {
                Err(e) => Err(e),
                Ok(symbol) => if u32_at(buf, 16) == 0 {
                    Err(ProtocolErrorView::InvalidField("quantity"@))
                } else {
                    Ok(
                        InputMessageView::NewOrder(
                            NewOrderView {
                                user_id: u32_at(buf, 4),
                                symbol,
                                price: u32_at(buf, 12),
                                quantity: u32_at(buf, 16),
                                side,
                                user_order_id: u32_at(buf, 8),
                            },
                        ),
                    )
                },
            },
        }
    }
}

/// What the body of a cancel reads as.
pub open spec fn parsed_cancel(buf: Seq<u8>) -> Result<InputMessageView, ProtocolErrorView> {
    if buf.len() < 12 {
        Err(ProtocolErrorView::Truncated)
    } else {
        Ok(
            InputMessageView::Cancel(
                Cancel { user_id: u32_at(buf, 4), user_order_id: u32_at(buf, 8) },
            ),
        )
    }
}

/// What the body of a query reads as.
pub open spec fn parsed_query(buf: Seq<u8>) -> Result<InputMessageView, ProtocolErrorView> {
    match parsed_symbol(buf, 4, 0) {
        Err(e) => Err(e),
        Ok(symbol) => Ok(InputMessageView::QueryTopOfBook(TopOfBookQueryView { symbol })),
    }
}

/// What an input payload reads as. A buffer shorter than the header is
/// truncated; then the version is judged, then the type code, then the
/// body. The reserved bytes are not looked at, nor is anything after the
/// message.
pub open spec fn parsed_input(buf: Seq<u8>) -> Result<InputMessageView, ProtocolErrorView> {
    if buf.len() < 4 {
        Err(ProtocolErrorView::Truncated)
    } else if buf[1] != PROTOCOL_VERSION {
        Err(ProtocolErrorView::VersionMismatch(buf[1]))
    } else {
        match WireInputType::of_code(buf[0]) {
            None => Err(ProtocolErrorView::UnknownMessageType(buf[0])),
            Some(WireInputType::NewOrder) => parsed_new_order(buf),
            Some(WireInputType::Cancel) => parsed_cancel(buf),
            Some(WireInputType::Flush) => Ok(InputMessageView::Flush),
            Some(WireInputType::QueryTopOfBook) => parsed_query(buf),
        }
    }
}

/// What the body of an acknowledgement reads as: user, order identifier
/// and symbol.
pub open spec fn parsed_ack_fields(buf: Seq<u8>) -> Result<(u32, u32, Seq<char>), ProtocolErrorView> {
    if buf.len() < 13 {
        Err(ProtocolErrorView::Truncated)
    } else {
        match parsed_symbol(buf, 12, 0) {
            Err(e) => Err(e),
            Ok(symbol) => Ok((u32_at(buf, 4), u32_at(buf, 8), symbol)),
        }
    }
}

/// What the body of a trade reads as.
pub open spec fn parsed_trade(buf: Seq<u8>) -> Result<OutputMessageView, ProtocolErrorView> {
    match parsed_symbol(buf, 4, 24) {
        Err(e) => Err(e),
        Ok(symbol) => {
            let at = 5 + buf[4];
            Ok(
                OutputMessageView::Trade(
                    TradeView {
                        symbol,
                        user_id_buy: u32_at(buf, at),
                        user_order_id_buy: u32_at(buf, at + 4),
                        user_id_sell: u32_at(buf, at + 8),
                        user_order_id_sell: u32_at(buf, at + 12),
                        price: u32_at(buf, at + 16),
                        quantity: u32_at(buf, at + 20),
                    },
                ),
            )
        },
    }
}

/// What the body of a top-of-book report reads as. Any byte but zero
/// reads as an eliminated side.
pub open spec fn parsed_top_of_book(buf: Seq<u8>) -> Result<OutputMessageView, ProtocolErrorView> {
    match parsed_symbol(buf, 4, 10) {
        Err(e) => Err(e),
        Ok(symbol) => {
            let at = 5 + buf[4];
            match parsed_side(buf[at]) {
                None => Err(ProtocolErrorView::InvalidField("side"@)),
                Some(side) => Ok(
                    OutputMessageView::TopOfBook(
                        TopOfBookView {
                            symbol,
                            side,
                            price: u32_at(buf, at + 2),
                            total_quantity: u32_at(buf, at + 6),
                            eliminated: buf[at + 1] != 0,
                        },
                    ),
                ),
            }
        },
    }
}

/// What an output payload reads as, judged in the order of
/// [`parsed_input`].
pub open spec fn parsed_output(buf: Seq<u8>) -> Result<OutputMessageView, ProtocolErrorView> {
    if buf.len() < 4 {
        Err(ProtocolErrorView::Truncated)
    } else if buf[1] != PROTOCOL_VERSION {
        Err(ProtocolErrorView::VersionMismatch(buf[1]))
    } else {
        match WireOutputType::of_code(buf[0]) {
            None => Err(ProtocolErrorView::UnknownMessageType(buf[0])),
            Some(WireOutputType::Ack) => match parsed_ack_fields(buf) {
                Err(e) => Err(e),
                Ok((user_id, user_order_id, symbol)) => Ok(
                    OutputMessageView::ack(user_id, user_order_id, symbol),
                ),
            },
            Some(WireOutputType::CancelAck) => match parsed_ack_fields(buf) {
                Err(e) => Err(e),
                Ok((user_id, user_order_id, symbol)) => Ok(
                    OutputMessageView::cancel_ack(user_id, user_order_id, symbol),
                ),
            },
            Some(WireOutputType::Trade) => parsed_trade(buf),
            Some(WireOutputType::TopOfBook) => parsed_top_of_book(buf),
        }
    }
}

/// What `std::str::from_utf8` makes of bytes: the text whose UTF-8 form
/// they are, and `None` exactly where they are not UTF-8.
#[verifier::external_body]
fn text_of(bytes: &[u8]) -> (r: Option<&str>)
    ensures
        r is Some <==> valid_utf8(bytes@),
        r matches Some(text) ==> encode_utf8(text@) == bytes@,
{
    match std::str::from_utf8(bytes) {
        Ok(text) => Some(text),
        Err(_) => None,
    }
}

/// Reads a big-endian number from the first four bytes of a slice.
pub(crate) fn read_u32_be(bytes: &[u8]) -> (v: u32)
    requires
        bytes@.len() >= 4,
    ensures
        v == be_value(bytes@),
{
    (bytes[0] as u32) * 0x100_0000 + (bytes[1] as u32) * 0x1_0000 + (bytes[2] as u32) * 0x100 + (
    bytes[3] as u32)
}

/// Appends the four bytes of a number, most significant first.
pub(crate) fn write_u32_be(v: u32, out: &mut Vec<u8>)
    ensures
        final(out)@ == old(out)@ + be_bytes(v),
{
    out.push((v / 0x100_0000) as u8);
    out.push((v / 0x1_0000 % 0x100) as u8);
    out.push((v / 0x100 % 0x100) as u8);
    out.push((v % 0x100) as u8);
    proof {
        assert(out@ =~= old(out)@ + be_bytes(v));
    }
}

/// Appends the header of a payload.
fn write_header(code: u8, out: &mut Vec<u8>)
    ensures
        final(out)@ == old(out)@ + header(code),
{
    out.push(code);
    out.push(PROTOCOL_VERSION);
    out.push(0);
    out.push(0);
    proof {
        assert(out@ =~= old(out)@ + header(code));
    }
}

/// Appends a symbol: its length byte and its UTF-8 form.
fn write_symbol(symbol: &String, out: &mut Vec<u8>)
    requires
        valid_symbol(symbol@),
    ensures
        final(out)@ == old(out)@ + symbol_field(symbol@),
{
    let symbol_bytes = symbol.as_str().as_bytes();
    out.push(symbol_bytes.len() as u8);
    out.extend_from_slice(symbol_bytes);
    proof {
        assert(out@ =~= old(out)@ + symbol_field(symbol@));
    }
}

/// Tells whether a symbol may go on the wire.
fn symbol_fits(symbol: &String) -> (ok: bool)
    ensures
        ok == valid_symbol(symbol@),
{
    let symbol_bytes = symbol.as_str().as_bytes();
    validate_symbol_len(symbol_bytes.len())
}

/// Reads the symbol whose length byte stands at `at`, in a message that
/// has `tail` more bytes after the symbol.
fn read_symbol(buf: &[u8], at: usize, tail: usize) -> (r: Result<String, ProtocolError>)
    requires
        at < buf@.len(),
        tail <= 64,
    ensures
        match r {
            Ok(symbol) => parsed_symbol(buf@, at as int, tail as int) == Ok::<
                Seq<char>,
                ProtocolErrorView,
            >(symbol@),
            Err(e) => parsed_symbol(buf@, at as int, tail as int) == Err::<
                Seq<char>,
                ProtocolErrorView,
            >(e@),
        },
{
    let symbol_len = buf[at] as usize;
    if !validate_symbol_len(symbol_len) {
        return Err(ProtocolError::InvalidSymbol);
    }
    if buf.len() - at - 1 < symbol_len + tail {
        return Err(ProtocolError::Truncated);
    }
    let symbol_bytes = &buf[at + 1..at + 1 + symbol_len];
    match text_of(symbol_bytes) {
        Some(text) => {
            proof {
                vstd::utf8::encode_utf8_decode_utf8(text@);
            }
            Ok(text.to_owned())
        },
        None => Err(ProtocolError::InvalidSymbol),
    }
}

/// Reads one input message from a payload.
pub fn decode_input(buf: &[u8]) -> (r: Result<InputMessage, ProtocolError>)
    ensures
        input_result_view(r) == parsed_input(buf@),
{
    if buf.len() < 4 {
        return Err(ProtocolError::Truncated);
    }
    let msg_type = buf[0];
    let version = buf[1];
    if version != PROTOCOL_VERSION {
        return Err(ProtocolError::VersionMismatch(version));
    }
    let wire_type = match WireInputType::from_u8(msg_type) {
        Some(wire_type) => wire_type,
        None => {
            return Err(ProtocolError::UnknownMessageType(msg_type));
        },
    };
    match wire_type {
        WireInputType::NewOrder => decode_new_order(buf),
        WireInputType::Cancel => decode_cancel(buf),
        WireInputType::Flush => Ok(InputMessage::Flush),
        WireInputType::QueryTopOfBook => decode_query_tob(buf),
    }
}

/// Appends the payload of one input message to `out`. A message whose
/// symbol may not go on the wire is refused, and `out` left as it was.
pub fn encode_input(msg: &InputMessage, out: &mut Vec<u8>) -> (r: Result<(), ProtocolError>)
    ensures
        match input_payload(msg@) {
            Some(payload) => r is Ok && final(out)@ == old(out)@ + payload,
            None => r == Err::<(), ProtocolError>(ProtocolError::InvalidSymbol) && final(out)@
                == old(out)@,
        },
{
    match msg {
        InputMessage::NewOrder(n) => encode_input_new_order(n, out),
        InputMessage::Cancel(c) => encode_input_cancel(c, out),
        InputMessage::Flush => encode_input_flush(out),
        InputMessage::QueryTopOfBook(q) => encode_input_query_tob(q, out),
    }
}

/// Reads the body of a new order.
fn decode_new_order(buf: &[u8]) -> (r: Result<InputMessage, ProtocolError>)
    ensures
        input_result_view(r) == parsed_new_order(buf@),
{
    if buf.len() < 22 {
        return Err(ProtocolError::Truncated);
    }
    let user_id = read_u32_be(&buf[4..8]);
    let user_order_id = read_u32_be(&buf[8..12]);
    let price = read_u32_be(&buf[12..16]);
    let quantity = read_u32_be(&buf[16..20]);
    let side_raw = buf[20];
    let side = match side_raw {
        0 => Side::Buy,
        1 => Side::Sell,
        _ => {
            return Err(ProtocolError::InvalidField("side"));
        },
    };
    let symbol = match read_symbol(buf, 21, 0) {
        Ok(symbol) => symbol,
        Err(e) => {
            return Err(e);
        },
    };
    if quantity == 0 {
        return Err(ProtocolError::InvalidField("quantity"));
    }
    Ok(InputMessage::NewOrder(NewOrder { user_id, symbol, price, quantity, side, user_order_id }))
}

/// Reads the body of a cancel.
fn decode_cancel(buf: &[u8]) -> (r: Result<InputMessage, ProtocolError>)
    ensures
        input_result_view(r) == parsed_cancel(buf@),
{
    if buf.len() < 12 {
        return Err(ProtocolError::Truncated);
    }
    let user_id = read_u32_be(&buf[4..8]);
    let user_order_id = read_u32_be(&buf[8..12]);
    Ok(InputMessage::Cancel(Cancel { user_id, user_order_id }))
}

/// Reads the body of a query.
fn decode_query_tob(buf: &[u8]) -> (r: Result<InputMessage, ProtocolError>)
    ensures
        input_result_view(r) == parsed_query(buf@),
{
    if buf.len() < 5 {
        return Err(ProtocolError::Truncated);
    }
    let symbol = match read_symbol(buf, 4, 0) {
        Ok(symbol) => symbol,
        Err(e) => {
            return Err(e);
        },
    };
    Ok(InputMessage::QueryTopOfBook(TopOfBookQuery { symbol }))
}

/// Appends the payload of a new order.
fn encode_input_new_order(n: &NewOrder, out: &mut Vec<u8>) -> (r: Result<(), ProtocolError>)
    ensures
        match input_payload(InputMessageView::NewOrder(n@)) {
            Some(payload) => r is Ok && final(out)@ == old(out)@ + payload,
            None => r == Err::<(), ProtocolError>(ProtocolError::InvalidSymbol) && final(out)@
                == old(out)@,
        },
{
    if !symbol_fits(&n.symbol) {
        return Err(ProtocolError::InvalidSymbol);
    }
    write_header(WireInputType::NewOrder.to_u8(), out);
    write_u32_be(n.user_id, out);
    write_u32_be(n.user_order_id, out);
    write_u32_be(n.price, out);
    write_u32_be(n.quantity, out);
    let side_byte = match n.side {
        Side::Buy => 0,
        Side::Sell => 1,
    };
    out.push(side_byte);
    write_symbol(&n.symbol, out);
    proof {
        assert(out@ =~= old(out)@ + input_payload(InputMessageView::NewOrder(n@))->0);
    }
    Ok(())
}

/// Appends the payload of a cancel.
fn encode_input_cancel(c: &Cancel, out: &mut Vec<u8>) -> (r: Result<(), ProtocolError>)
    ensures
        r is Ok,
        final(out)@ == old(out)@ + input_payload(InputMessageView::Cancel(*c))->0,
{
    write_header(WireInputType::Cancel.to_u8(), out);
    write_u32_be(c.user_id, out);
    write_u32_be(c.user_order_id, out);
    proof {
        assert(out@ =~= old(out)@ + input_payload(InputMessageView::Cancel(*c))->0);
    }
    Ok(())
}

/// Appends the payload of a flush.
fn encode_input_flush(out: &mut Vec<u8>) -> (r: Result<(), ProtocolError>)
    ensures
        r is Ok,
        final(out)@ == old(out)@ + input_payload(InputMessageView::Flush)->0,
{
    write_header(WireInputType::Flush.to_u8(), out);
    Ok(())
}

/// Appends the payload of a query.
fn encode_input_query_tob(q: &TopOfBookQuery, out: &mut Vec<u8>) -> (r: Result<(), ProtocolError>)
    ensures
        match input_payload(InputMessageView::QueryTopOfBook(q@)) {
            Some(payload) => r is Ok && final(out)@ == old(out)@ + payload,
            None => r == Err::<(), ProtocolError>(ProtocolError::InvalidSymbol) && final(out)@
                == old(out)@,
        },
{
    if !symbol_fits(&q.symbol) {
        return Err(ProtocolError::InvalidSymbol);
    }
    write_header(WireInputType::QueryTopOfBook.to_u8(), out);
    write_symbol(&q.symbol, out);
    proof {
        assert(out@ =~= old(out)@ + input_payload(InputMessageView::QueryTopOfBook(q@))->0);
    }
    Ok(())
}

/// Appends the payload of one output message to `out`. A message whose
/// symbol may not go on the wire is refused, and `out` left as it was.
pub fn encode_output(msg: &OutputMessage, out: &mut Vec<u8>) -> (r: Result<(), ProtocolError>)
    ensures
        match output_payload(msg@) {
            Some(payload) => r is Ok && final(out)@ == old(out)@ + payload,
            None => r == Err::<(), ProtocolError>(ProtocolError::InvalidSymbol) && final(out)@
                == old(out)@,
        },
{
    match msg {
        OutputMessage::Ack(a) => encode_ack(a, out),
        OutputMessage::CancelAck(c) => encode_cancel_ack(c, out),
        OutputMessage::Trade(t) => encode_trade(t, out),
        OutputMessage::TopOfBook(tob) => encode_top_of_book(tob, out),
    }
}

/// Reads one output message from a payload.
pub fn decode_output(buf: &[u8]) -> (r: Result<OutputMessage, ProtocolError>)
    ensures
        output_result_view(r) == parsed_output(buf@),
{
    if buf.len() < 4 {
        return Err(ProtocolError::Truncated);
    }
    let msg_type = buf[0];
    let version = buf[1];
    if version != PROTOCOL_VERSION {
        return Err(ProtocolError::VersionMismatch(version));
    }
    let wire_type = match WireOutputType::from_u8(msg_type) {
        Some(wire_type) => wire_type,
        None => {
            return Err(ProtocolError::UnknownMessageType(msg_type));
        },
    };
    match wire_type {
        WireOutputType::Ack => decode_ack(buf),
        WireOutputType::CancelAck => decode_cancel_ack(buf),
        WireOutputType::Trade => decode_trade(buf),
        WireOutputType::TopOfBook => decode_top_of_book(buf),
    }
}

/// Appends the payload of an acknowledgement.
fn encode_ack(a: &Ack, out: &mut Vec<u8>) -> (r: Result<(), ProtocolError>)
    ensures
        match output_payload(OutputMessageView::Ack(a@)) {
            Some(payload) => r is Ok && final(out)@ == old(out)@ + payload,
            None => r == Err::<(), ProtocolError>(ProtocolError::InvalidSymbol) && final(out)@
                == old(out)@,
        },
{
    if !symbol_fits(&a.symbol) {
        return Err(ProtocolError::InvalidSymbol);
    }
    write_header(WireOutputType::Ack.to_u8(), out);
    write_u32_be(a.user_id, out);
    write_u32_be(a.user_order_id, out);
    write_symbol(&a.symbol, out);
    proof {
        assert(out@ =~= old(out)@ + output_payload(OutputMessageView::Ack(a@))->0);
    }
    Ok(())
}

/// Appends the payload of the acknowledgement of a cancel.
fn encode_cancel_ack(c: &CancelAck, out: &mut Vec<u8>) -> (r: Result<(), ProtocolError>)
    ensures
        match output_payload(OutputMessageView::CancelAck(c@)) {
            Some(payload) => r is Ok && final(out)@ == old(out)@ + payload,
            None => r == Err::<(), ProtocolError>(ProtocolError::InvalidSymbol) && final(out)@
                == old(out)@,
        },
{
    if !symbol_fits(&c.symbol) {
        return Err(ProtocolError::InvalidSymbol);
    }
    write_header(WireOutputType::CancelAck.to_u8(), out);
    write_u32_be(c.user_id, out);
    write_u32_be(c.user_order_id, out);
    write_symbol(&c.symbol, out);
    proof {
        assert(out@ =~= old(out)@ + output_payload(OutputMessageView::CancelAck(c@))->0);
    }
    Ok(())
}

/// Appends the payload of a trade.
fn encode_trade(t: &Trade, out: &mut Vec<u8>) -> (r: Result<(), ProtocolError>)
    ensures
        match output_payload(OutputMessageView::Trade(t@)) {
            Some(payload) => r is Ok && final(out)@ == old(out)@ + payload,
            None => r == Err::<(), ProtocolError>(ProtocolError::InvalidSymbol) && final(out)@
                == old(out)@,
        },
{
    if !symbol_fits(&t.symbol) {
        return Err(ProtocolError::InvalidSymbol);
    }
    write_header(WireOutputType::Trade.to_u8(), out);
    write_symbol(&t.symbol, out);
    write_u32_be(t.user_id_buy, out);
    write_u32_be(t.user_order_id_buy, out);
    write_u32_be(t.user_id_sell, out);
    write_u32_be(t.user_order_id_sell, out);
    write_u32_be(t.price, out);
    write_u32_be(t.quantity, out);
    proof {
        assert(out@ =~= old(out)@ + output_payload(OutputMessageView::Trade(t@))->0);
    }
    Ok(())
}

/// Appends the payload of a top-of-book report.
fn encode_top_of_book(t: &TopOfBook, out: &mut Vec<u8>) -> (r: Result<(), ProtocolError>)
    ensures
        match output_payload(OutputMessageView::TopOfBook(t@)) {
            Some(payload) => r is Ok && final(out)@ == old(out)@ + payload,
            None => r == Err::<(), ProtocolError>(ProtocolError::InvalidSymbol) && final(out)@
                == old(out)@,
        },
{
    if !symbol_fits(&t.symbol) {
        return Err(ProtocolError::InvalidSymbol);
    }
    write_header(WireOutputType::TopOfBook.to_u8(), out);
    write_symbol(&t.symbol, out);
    let side_byte = match t.side {
        Side::Buy => 0,
        Side::Sell => 1,
    };
    out.push(side_byte);
    out.push(if t.eliminated { 1 } else { 0 });
    write_u32_be(t.price, out);
    write_u32_be(t.total_quantity, out);
    proof {
        assert(out@ =~= old(out)@ + output_payload(OutputMessageView::TopOfBook(t@))->0);
    }
    Ok(())
}

/// Reads the fields that the two acknowledgements share.
fn decode_ack_fields(buf: &[u8]) -> (r: Result<(u32, u32, String), ProtocolError>)
    ensures
        match r {
            Ok((user_id, user_order_id, symbol)) => parsed_ack_fields(buf@) == Ok::<
                (u32, u32, Seq<char>),
                ProtocolErrorView,
            >((user_id, user_order_id, symbol@)),
            Err(e) => parsed_ack_fields(buf@) == Err::<(u32, u32, Seq<char>), ProtocolErrorView>(
                e@,
            ),
        },
{
    if buf.len() < 13 {
        return Err(ProtocolError::Truncated);
    }
    let user_id = read_u32_be(&buf[4..8]);
    let user_order_id = read_u32_be(&buf[8..12]);
    let symbol = match read_symbol(buf, 12, 0) {
        Ok(symbol) => symbol,
        Err(e) => {
            return Err(e);
        },
    };
    Ok((user_id, user_order_id, symbol))
}

/// Reads the body of an acknowledgement.
fn decode_ack(buf: &[u8]) -> (r: Result<OutputMessage, ProtocolError>)
    requires
        buf@.len() >= 4,
        buf@[1] == PROTOCOL_VERSION,
        WireOutputType::of_code(buf@[0]) == Some(WireOutputType::Ack),
    ensures
        output_result_view(r) == parsed_output(buf@),
{
    match decode_ack_fields(buf) {
        Ok((user_id, user_order_id, symbol)) => Ok(
            OutputMessage::Ack(Ack { user_id, user_order_id, symbol }),
        ),
        Err(e) => Err(e),
    }
}

/// Reads the body of the acknowledgement of a cancel.
fn decode_cancel_ack(buf: &[u8]) -> (r: Result<OutputMessage, ProtocolError>)
    requires
        buf@.len() >= 4,
        buf@[1] == PROTOCOL_VERSION,
        WireOutputType::of_code(buf@[0]) == Some(WireOutputType::CancelAck),
    ensures
        output_result_view(r) == parsed_output(buf@),
{
    match decode_ack_fields(buf) {
        Ok((user_id, user_order_id, symbol)) => Ok(
            OutputMessage::CancelAck(CancelAck { user_id, user_order_id, symbol }),
        ),
        Err(e) => Err(e),
    }
}

/// Reads the body of a trade.
fn decode_trade(buf: &[u8]) -> (r: Result<OutputMessage, ProtocolError>)
    ensures
        output_result_view(r) == parsed_trade(buf@),
{
    if buf.len() < 5 {
        return Err(ProtocolError::Truncated);
    }
    let symbol = match read_symbol(buf, 4, 24) {
        Ok(symbol) => symbol,
        Err(e) => {
            return Err(e);
        },
    };
    let mut offset: usize = 5 + buf[4] as usize;
    let user_id_buy = read_u32_be(&buf[offset..offset + 4]);
    offset += 4;
    let user_order_id_buy = read_u32_be(&buf[offset..offset + 4]);
    offset += 4;
    let user_id_sell = read_u32_be(&buf[offset..offset + 4]);
    offset += 4;
    let user_order_id_sell = read_u32_be(&buf[offset..offset + 4]);
    offset += 4;
    let price = read_u32_be(&buf[offset..offset + 4]);
    offset += 4;
    let quantity = read_u32_be(&buf[offset..offset + 4]);
    Ok(
        OutputMessage::Trade(
            Trade {
                symbol,
                user_id_buy,
                user_order_id_buy,
                user_id_sell,
                user_order_id_sell,
                price,
                quantity,
            },
        ),
    )
}

/// Reads the body of a top-of-book report.
fn decode_top_of_book(buf: &[u8]) -> (r: Result<OutputMessage, ProtocolError>)
    ensures
        output_result_view(r) == parsed_top_of_book(buf@),
{
    if buf.len() < 5 {
        return Err(ProtocolError::Truncated);
    }
    let symbol = match read_symbol(buf, 4, 10) {
        Ok(symbol) => symbol,
        Err(e) => {
            return Err(e);
        },
    };
    let mut offset: usize = 5 + buf[4] as usize;
    let side_byte = buf[offset];
    offset += 1;
    let side = match side_byte {
        0 => Side::Buy,
        1 => Side::Sell,
        _ => {
            return Err(ProtocolError::InvalidField("side"));
        },
    };
    let eliminated = buf[offset] != 0;
    offset += 1;
    let price = read_u32_be(&buf[offset..offset + 4]);
    offset += 4;
    let total_quantity = read_u32_be(&buf[offset..offset + 4]);
    Ok(OutputMessage::TopOfBook(TopOfBook { symbol, side, price, total_quantity, eliminated }))
}

/// True for an input message that the protocol can carry: its symbol, if
/// it has one, may go on the wire, and a new order asks for a quantity.
pub open spec fn wire_valid_input(msg: InputMessageView) -> bool {
    match msg {
        InputMessageView::NewOrder(n) => valid_symbol(n.symbol) && n.quantity > 0,
        InputMessageView::Cancel(_) => true,
        InputMessageView::Flush => true,
        InputMessageView::QueryTopOfBook(q) => valid_symbol(q.symbol),
    }
}

/// The four bytes of a number spell that number.
pub proof fn lemma_be_round_trip(v: u32)
    ensures
        be_bytes(v).len() == 4,
        be_value(be_bytes(v)) == v,
{
}

/// A buffer that holds the four bytes of a number at `at` reads as that
/// number there.
proof fn lemma_u32_field(buf: Seq<u8>, at: int, v: u32)
    requires
        0 <= at,
        at + 4 <= buf.len(),
        buf.subrange(at, at + 4) == be_bytes(v),
    ensures
        u32_at(buf, at) == v,
{
    lemma_be_round_trip(v);
}

/// A buffer that holds the field of a valid symbol at `at`, and at least
/// `tail` bytes after it, reads as that symbol there.
proof fn lemma_symbol_field(buf: Seq<u8>, at: int, tail: int, symbol: Seq<char>)
    requires
        valid_symbol(symbol),
        0 <= at,
        0 <= tail,
        at + 1 + encode_utf8(symbol).len() + tail <= buf.len(),
        buf.subrange(at, at + 1 + encode_utf8(symbol).len()) == symbol_field(symbol),
    ensures
        buf[at] == encode_utf8(symbol).len(),
        parsed_symbol(buf, at, tail) == Ok::<Seq<char>, ProtocolErrorView>(symbol),
{
    let n = encode_utf8(symbol).len() as int;
    let field = buf.subrange(at, at + 1 + n);
    assert(buf[at] == field[0]);
    assert(buf.subrange(at + 1, at + 1 + n) =~= field.subrange(1, 1 + n));
    assert(field.subrange(1, 1 + n) =~= encode_utf8(symbol));
    vstd::utf8::encode_utf8_valid_utf8(symbol);
    vstd::utf8::encode_utf8_decode_utf8(symbol);
}

/// Reading what was written gives the message back: every input message
/// that the protocol can carry has a payload, and the payload reads as the
/// message.
pub proof fn lemma_input_round_trip(msg: InputMessageView)
    requires
        wire_valid_input(msg),
    ensures
        input_payload(msg) is Some,
        parsed_input(input_payload(msg)->0) == Ok::<InputMessageView, ProtocolErrorView>(msg),
{
    let buf = input_payload(msg)->0;
    match msg {
        InputMessageView::NewOrder(n) => {
            let len = encode_utf8(n.symbol).len() as int;
            assert(buf.len() == 22 + len);
            assert(buf.subrange(4, 8) =~= be_bytes(n.user_id));
            assert(buf.subrange(8, 12) =~= be_bytes(n.user_order_id));
            assert(buf.subrange(12, 16) =~= be_bytes(n.price));
            assert(buf.subrange(16, 20) =~= be_bytes(n.quantity));
            assert(buf.subrange(21, 22 + len) =~= symbol_field(n.symbol));
            lemma_u32_field(buf, 4, n.user_id);
            lemma_u32_field(buf, 8, n.user_order_id);
            lemma_u32_field(buf, 12, n.price);
            lemma_u32_field(buf, 16, n.quantity);
            lemma_symbol_field(buf, 21, 0, n.symbol);
            assert(buf[20] == side_byte(n.side));
            assert(buf[0] == 0 && buf[1] == PROTOCOL_VERSION);
        },
        InputMessageView::Cancel(c) => {
            assert(buf.len() == 12);
            assert(buf.subrange(4, 8) =~= be_bytes(c.user_id));
            assert(buf.subrange(8, 12) =~= be_bytes(c.user_order_id));
            lemma_u32_field(buf, 4, c.user_id);
            lemma_u32_field(buf, 8, c.user_order_id);
            assert(buf[0] == 1 && buf[1] == PROTOCOL_VERSION);
        },
        InputMessageView::Flush => {
            assert(buf[0] == 2 && buf[1] == PROTOCOL_VERSION);
        },
        InputMessageView::QueryTopOfBook(q) => {
            let len = encode_utf8(q.symbol).len() as int;
            assert(buf.len() == 5 + len);
            assert(buf.subrange(4, 5 + len) =~= symbol_field(q.symbol));
            lemma_symbol_field(buf, 4, 0, q.symbol);
            assert(buf[0] == 3 && buf[1] == PROTOCOL_VERSION);
        },
    }
}

/// The payload of an acknowledgement reads as the acknowledgement.
proof fn lemma_ack_round_trip(a: AckView)
    requires
        valid_symbol(a.symbol),
    ensures
        parsed_output(output_payload(OutputMessageView::Ack(a))->0) == Ok::<
            OutputMessageView,
            ProtocolErrorView,
        >(OutputMessageView::Ack(a)),
{
    let buf = output_payload(OutputMessageView::Ack(a))->0;
    let len = encode_utf8(a.symbol).len() as int;
    assert(buf.len() == 13 + len);
    assert(buf.subrange(4, 8) =~= be_bytes(a.user_id));
    assert(buf.subrange(8, 12) =~= be_bytes(a.user_order_id));
    assert(buf.subrange(12, 13 + len) =~= symbol_field(a.symbol));
    lemma_u32_field(buf, 4, a.user_id);
    lemma_u32_field(buf, 8, a.user_order_id);
    lemma_symbol_field(buf, 12, 0, a.symbol);
    assert(buf[0] == 10 && buf[1] == PROTOCOL_VERSION);
}

/// The payload of the acknowledgement of a cancel reads as that
/// acknowledgement.
proof fn lemma_cancel_ack_round_trip(c: CancelAckView)
    requires
        valid_symbol(c.symbol),
    ensures
        parsed_output(output_payload(OutputMessageView::CancelAck(c))->0) == Ok::<
            OutputMessageView,
            ProtocolErrorView,
        >(OutputMessageView::CancelAck(c)),
{
    let buf = output_payload(OutputMessageView::CancelAck(c))->0;
    let len = encode_utf8(c.symbol).len() as int;
    assert(buf.len() == 13 + len);
    assert(buf.subrange(4, 8) =~= be_bytes(c.user_id));
    assert(buf.subrange(8, 12) =~= be_bytes(c.user_order_id));
    assert(buf.subrange(12, 13 + len) =~= symbol_field(c.symbol));
    lemma_u32_field(buf, 4, c.user_id);
    lemma_u32_field(buf, 8, c.user_order_id);
    lemma_symbol_field(buf, 12, 0, c.symbol);
    assert(buf[0] == 11 && buf[1] == PROTOCOL_VERSION);
}

/// The payload of a trade reads as the trade.
proof fn lemma_trade_round_trip(t: TradeView)
    requires
        valid_symbol(t.symbol),
    ensures
        parsed_output(output_payload(OutputMessageView::Trade(t))->0) == Ok::<
            OutputMessageView,
            ProtocolErrorView,
        >(OutputMessageView::Trade(t)),
{
    let buf = output_payload(OutputMessageView::Trade(t))->0;
    let len = encode_utf8(t.symbol).len() as int;
    let at = 5 + len;
    assert(buf.len() == at + 24);
    assert(buf.subrange(4, 5 + len) =~= symbol_field(t.symbol));
    lemma_symbol_field(buf, 4, 24, t.symbol);
    assert(buf.subrange(at, at + 4) =~= be_bytes(t.user_id_buy));
    assert(buf.subrange(at + 4, at + 8) =~= be_bytes(t.user_order_id_buy));
    assert(buf.subrange(at + 8, at + 12) =~= be_bytes(t.user_id_sell));
    assert(buf.subrange(at + 12, at + 16) =~= be_bytes(t.user_order_id_sell));
    assert(buf.subrange(at + 16, at + 20) =~= be_bytes(t.price));
    assert(buf.subrange(at + 20, at + 24) =~= be_bytes(t.quantity));
    lemma_u32_field(buf, at, t.user_id_buy);
    lemma_u32_field(buf, at + 4, t.user_order_id_buy);
    lemma_u32_field(buf, at + 8, t.user_id_sell);
    lemma_u32_field(buf, at + 12, t.user_order_id_sell);
    lemma_u32_field(buf, at + 16, t.price);
    lemma_u32_field(buf, at + 20, t.quantity);
    assert(buf[0] == 12 && buf[1] == PROTOCOL_VERSION);
    assert(parsed_output(buf) == parsed_trade(buf));
}

/// The payload of a top-of-book report reads as the report.
proof fn lemma_top_of_book_round_trip(t: TopOfBookView)
    requires
        valid_symbol(t.symbol),
    ensures
        parsed_output(output_payload(OutputMessageView::TopOfBook(t))->0) == Ok::<
            OutputMessageView,
            ProtocolErrorView,
        >(OutputMessageView::TopOfBook(t)),
{
    let buf = output_payload(OutputMessageView::TopOfBook(t))->0;
    let len = encode_utf8(t.symbol).len() as int;
    let at = 5 + len;
    assert(buf.len() == at + 10);
    assert(buf.subrange(4, 5 + len) =~= symbol_field(t.symbol));
    lemma_symbol_field(buf, 4, 10, t.symbol);
    assert(buf[at] == side_byte(t.side));
    assert(buf[at + 1] == flag_byte(t.eliminated));
    assert(buf.subrange(at + 2, at + 6) =~= be_bytes(t.price));
    assert(buf.subrange(at + 6, at + 10) =~= be_bytes(t.total_quantity));
    lemma_u32_field(buf, at + 2, t.price);
    lemma_u32_field(buf, at + 6, t.total_quantity);
    assert(buf[0] == 13 && buf[1] == PROTOCOL_VERSION);
    assert(parsed_output(buf) == parsed_top_of_book(buf));
}

/// Reading what was written gives the message back: every output message
/// whose symbol may go on the wire has a payload, and the payload reads as
/// the message.
pub proof fn lemma_output_round_trip(msg: OutputMessageView)
    requires
        valid_symbol(output_symbol(msg)),
    ensures
        output_payload(msg) is Some,
        parsed_output(output_payload(msg)->0) == Ok::<OutputMessageView, ProtocolErrorView>(msg),
{
    match msg {
        OutputMessageView::Ack(a) => lemma_ack_round_trip(a),
        OutputMessageView::CancelAck(c) => lemma_cancel_ack_round_trip(c),
        OutputMessageView::Trade(t) => lemma_trade_round_trip(t),
        OutputMessageView::TopOfBook(t) => lemma_top_of_book_round_trip(t),
    }
}

/// The symbol read at `at` may go on the wire again.
proof fn lemma_parsed_symbol_valid(buf: Seq<u8>, at: int, tail: int)
    requires
        0 <= at,
        0 <= tail,
    ensures
        parsed_symbol(buf, at, tail) matches Ok(symbol) ==> valid_symbol(symbol),
{
    if parsed_symbol(buf, at, tail) is Ok {
        let bytes = buf.subrange(at + 1, at + 1 + buf[at]);
        vstd::utf8::decode_utf8_encode_utf8(bytes);
        assert(bytes.len() == buf[at]);
    }
}

/// Every message read from a payload is one that the protocol can carry.
/// In particular no payload reads as an order of quantity zero: such an
/// order is refused when it is read, and never reaches the engine.
pub proof fn lemma_parsed_input_is_valid(buf: Seq<u8>)
    ensures
        parsed_input(buf) matches Ok(msg) ==> wire_valid_input(msg),
        parsed_input(buf) matches Ok(InputMessageView::NewOrder(n)) ==> n.quantity > 0,
{
    lemma_parsed_symbol_valid(buf, 21, 0);
    lemma_parsed_symbol_valid(buf, 4, 0);
}

/// Every message read from an output payload has a symbol that may go on
/// the wire again.
pub proof fn lemma_parsed_output_is_valid(buf: Seq<u8>)
    ensures
        parsed_output(buf) matches Ok(msg) ==> valid_symbol(output_symbol(msg)),
{
    lemma_parsed_symbol_valid(buf, 12, 0);
    lemma_parsed_symbol_valid(buf, 4, 24);
    lemma_parsed_symbol_valid(buf, 4, 10);
}

/// The longest payload of any message: that of a trade with a symbol of
/// thirty-two bytes.
pub const MAX_PAYLOAD_LEN: usize = 61;

/// Every input payload holds its header and is at most
/// [`MAX_PAYLOAD_LEN`] bytes long.
pub proof fn lemma_input_payload_length(msg: InputMessageView)
    ensures
        input_payload(msg) matches Some(payload) ==> 4 <= payload.len() <= MAX_PAYLOAD_LEN,
{
}

/// Every output payload holds its header and is at most
/// [`MAX_PAYLOAD_LEN`] bytes long.
pub proof fn lemma_output_payload_length(msg: OutputMessageView)
    ensures
        output_payload(msg) matches Some(payload) ==> 4 <= payload.len() <= MAX_PAYLOAD_LEN,
{
}

} // verus!

//! Comma-separated text for tools and replay.
//!
//! Input lines, fields separated by commas and trimmed of white space:
//!
//! - `N, user, symbol, price, quantity, side, order id`: a new order, the
//!   side written `B` or `S`;
//! - `C, user, order id`: a cancel;
//! - `F`: a flush;
//! - `Q, symbol`: a query for the top of a book.
//!
//! A blank line, a line that starts with `#`, and a line that fits none of
//! the forms read as nothing.
//!
//! Output lines come in two forms. The symbol-aware form:
//!
//! - `A, user, order id, symbol`
//! - `C, user, order id, symbol`
//! - `T, symbol, buying user, buying order id, selling user, selling order id, price, quantity`
//! - `B, symbol, side, price, quantity`, or `B, symbol, side, -, -` for an
//!   eliminated side.
//!
//! The compact form is the same without the symbol.

use vstd::prelude::*;
use vstd::string::{StrSliceExecFns, StringExecFns};
use crate::binary_codec::{valid_symbol, wire_valid_input};
use crate::messages::{
    Cancel, InputMessage, InputMessageView, NewOrder, NewOrderView, OutputMessage,
    OutputMessageView, TopOfBookQuery, TopOfBookQueryView,
};
use crate::side::Side;
use crate::text::{
    decimal, fields, lemma_decimal_round_trip, lemma_fields_not_empty, parse_number,
    parsed_number, push_decimal, split, texts_view, tokens_of, trim, trimmed,
};
use crate::wire_types::validate_symbol_len;

verus! {

/// The `u32` that a text spells: one or more decimal digits, after a plus
/// sign perhaps, whose number fits.
pub open spec fn parsed_u32(s: Seq<char>) -> Option<u32> {
    match parsed_number(s, u32::MAX as u64) {
        Some(v) => Some(v as u32),
        None => None,
    }
}

/// The first character of a token, or the null character for an empty
/// token.
pub open spec fn first_char(token: Seq<char>) -> char {
    if token.len() > 0 {
        token[0]
    } else {
        '\0'
    }
}

/// The side that a token names: that of its first character.
pub open spec fn side_of_token(token: Seq<char>) -> Option<Side> {
    if token.len() > 0 {
        Side::of_letter(token[0])
    } else {
        None
    }
}

/// The new order that seven tokens spell: user, symbol, price, quantity,
/// side and order identifier after the type. The numbers must read as
/// `u32`, the quantity may not be zero, and the symbol must be one that
/// the wire protocol carries.
pub open spec fn parsed_new_order_line(tokens: Seq<Seq<char>>) -> Option<InputMessageView> {
    if tokens.len() != 7 {
        None
    } else {
        match (
            parsed_u32(tokens[1]),
            parsed_u32(tokens[3]),
            parsed_u32(tokens[4]),
            side_of_token(tokens[5]),
            parsed_u32(tokens[6]),
        ) {
            (Some(user_id), Some(price), Some(quantity), Some(side), Some(user_order_id)) => {
                if quantity == 0 || !valid_symbol(tokens[2]) {
                    None
                } else {
                    Some(
                        InputMessageView::NewOrder(
                            NewOrderView {
                                user_id,
                                symbol: tokens[2],
                                price,
                                quantity,
                                side,
                                user_order_id,
                            },
                        ),
                    )
                }
            },
            _ => None,
        }
    }
}

/// The cancel that three tokens spell: user and order identifier after the
/// type.
pub open spec fn parsed_cancel_line(tokens: Seq<Seq<char>>) -> Option<InputMessageView> {
    if tokens.len() != 3 {
        None
    } else {
        match (parsed_u32(tokens[1]), parsed_u32(tokens[2])) {
            (Some(user_id), Some(user_order_id)) => Some(
                InputMessageView::Cancel(Cancel { user_id, user_order_id }),
            ),
            _ => None,
        }
    }
}

/// The query that two tokens spell: the symbol after the type, which must
/// be one that the wire protocol carries.
pub open spec fn parsed_query_line(tokens: Seq<Seq<char>>) -> Option<InputMessageView> {
    if tokens.len() != 2 || !valid_symbol(tokens[1]) {
        None
    } else {
        Some(InputMessageView::QueryTopOfBook(TopOfBookQueryView { symbol: tokens[1] }))
    }
}

/// The message that a line spells, if any. The line is trimmed; a blank
/// line and one that starts with `#` spell nothing. The first character of
/// the first token tells the type.
pub open spec fn parsed_line(line: Seq<char>) -> Option<InputMessageView> {
    let text = trimmed(line);
    if text.len() == 0 || text[0] == '#' {
        None
    } else {
        let tokens = tokens_of(text, ',');
        let kind = first_char(tokens[0]);
        if kind == 'N' {
            parsed_new_order_line(tokens)
        } else if kind == 'C' {
            parsed_cancel_line(tokens)
        } else if kind == 'F' {
            if tokens.len() == 1 {
                Some(InputMessageView::Flush)
            } else {
                None
            }
        } else if kind == 'Q' {
            parsed_query_line(tokens)
        } else {
            None
        }
    }
}

/// The value of a message that was read, or of none.
pub open spec fn input_option_view(r: Option<InputMessage>) -> Option<InputMessageView> {
    match r {
        Some(m) => Some(m@),
        None => None,
    }
}

/// The side of a report in a line: its letter.
pub open spec fn side_text(side: Side) -> Seq<char> {
    seq![side.letter()]
}

/// Price and quantity of a report in a line, or two dashes for an
/// eliminated side.
pub open spec fn top_text(price: u32, total_quantity: u32, eliminated: bool) -> Seq<char> {
    if eliminated {
        "-, -"@
    } else {
        decimal(price as nat) + ", "@ + decimal(total_quantity as nat)
    }
}

/// An output message as a line in the symbol-aware form.
pub open spec fn csv_line(msg: OutputMessageView) -> Seq<char> {
    match msg {
        OutputMessageView::Ack(a) => "A, "@ + decimal(a.user_id as nat) + ", "@ + decimal(
            a.user_order_id as nat,
        ) + ", "@ + a.symbol,
        OutputMessageView::CancelAck(c) => "C, "@ + decimal(c.user_id as nat) + ", "@ + decimal(
            c.user_order_id as nat,
        ) + ", "@ + c.symbol,
        OutputMessageView::Trade(t) => "T, "@ + t.symbol + ", "@ + decimal(t.user_id_buy as nat)
            + ", "@ + decimal(t.user_order_id_buy as nat) + ", "@ + decimal(
            t.user_id_sell as nat,
        ) + ", "@ + decimal(t.user_order_id_sell as nat) + ", "@ + decimal(t.price as nat) + ", "@
            + decimal(t.quantity as nat),
        OutputMessageView::TopOfBook(t) => "B, "@ + t.symbol + ", "@ + side_text(t.side) + ", "@
            + top_text(t.price, t.total_quantity, t.eliminated),
    }
}

/// An output message as a line in the compact form, which leaves the
/// symbol out.
pub open spec fn legacy_line(msg: OutputMessageView) -> Seq<char> {
    match msg {
        OutputMessageView::Ack(a) => "A, "@ + decimal(a.user_id as nat) + ", "@ + decimal(
            a.user_order_id as nat,
        ),
        OutputMessageView::CancelAck(c) => "C, "@ + decimal(c.user_id as nat) + ", "@ + decimal(
            c.user_order_id as nat,
        ),
        OutputMessageView::Trade(t) => "T, "@ + decimal(t.user_id_buy as nat) + ", "@ + decimal(
            t.user_order_id_buy as nat,
        ) + ", "@ + decimal(t.user_id_sell as nat) + ", "@ + decimal(t.user_order_id_sell as nat)
            + ", "@ + decimal(t.price as nat) + ", "@ + decimal(t.quantity as nat),
        OutputMessageView::TopOfBook(t) => "B, "@ + side_text(t.side) + ", "@ + top_text(
            t.price,
            t.total_quantity,
            t.eliminated,
        ),
    }
}

/// Splits a text at each `delimiter` and trims each field.
fn split_and_trim(s: &str, delimiter: char) -> (tokens: Vec<String>)
    ensures
        texts_view(tokens@) == tokens_of(s@, delimiter),
{
    let parts = split(s, delimiter);
    let mut tokens: Vec<String> = Vec::new();
    let mut i: usize = 0;
    while i < parts.len()
        invariant
            i <= parts.len(),
            tokens@.len() == i,
            texts_view(parts@) == fields(s@, delimiter),
            forall|k: int| 0 <= k < i ==> (#[trigger] tokens@[k])@ == trimmed(parts@[k]@),
        decreases parts.len() - i,
    {
        tokens.push(trim(parts[i].as_str()).to_owned());
        i += 1;
    }
    proof {
        assert forall|k: int| 0 <= k < tokens@.len() implies texts_view(tokens@)[k] == tokens_of(
            s@,
            delimiter,
        )[k] by {
            assert(texts_view(parts@)[k] == parts@[k]@);
        }
        assert(texts_view(tokens@) =~= tokens_of(s@, delimiter));
    }
    tokens
}

/// Reads a `u32` written in decimal digits, with a plus sign before them
/// perhaps.
fn parse_u32(s: &str) -> (r: Option<u32>)
    ensures
        r == parsed_u32(s@),
{
    match parse_number(s, u32::MAX as u64) {
        Some(v) => Some(v as u32),
        None => None,
    }
}

/// Tells whether a symbol is one that the wire protocol carries.
fn symbol_is_valid(symbol: &str) -> (ok: bool)
    ensures
        ok == valid_symbol(symbol@),
{
    validate_symbol_len(symbol.as_bytes().len())
}

/// Reads one line. A blank line, a comment and a line that fits no form
/// give `None`.
pub fn parse_input_line(line: &str) -> (r: Option<InputMessage>)
    ensures
        input_option_view(r) == parsed_line(line@),
{
    let text = trim(line);
    if text.is_empty() || text.get_char(0) == '#' {
        return None;
    }
    let tokens = split_and_trim(text, ',');
    proof {
        lemma_fields_not_empty(text@, ',');
        assert(tokens@.len() == tokens_of(text@, ',').len());
        assert(tokens@[0]@ == texts_view(tokens@)[0]);
    }
    if tokens.len() == 0 {
        return None;
    }
    let msg_type = if tokens[0].as_str().is_empty() {
        '\0'
    } else {
        tokens[0].as_str().get_char(0)
    };
    match msg_type {
        'N' => parse_new_order(&tokens),
        'C' => parse_cancel(&tokens),
        'F' => {
            if tokens.len() == 1 {
                Some(InputMessage::Flush)
            } else {
                None
            }
        },
        'Q' => parse_query_tob(&tokens),
        _ => None,
    }
}

/// Reads the tokens of a new order.
fn parse_new_order(tokens: &Vec<String>) -> (r: Option<InputMessage>)
    ensures
        input_option_view(r) == parsed_new_order_line(texts_view(tokens@)),
{
    if tokens.len() != 7 {
        return None;
    }
    proof {
        let views = texts_view(tokens@);
        assert(views[1] == tokens@[1]@ && views[2] == tokens@[2]@ && views[3] == tokens@[3]@);
        assert(views[4] == tokens@[4]@ && views[5] == tokens@[5]@ && views[6] == tokens@[6]@);
    }
    let user_id = match parse_u32(tokens[1].as_str()) {
        Some(v) => v,
        None => {
            return None;
        },
    };
    let symbol = tokens[2].clone();
    let price = match parse_u32(tokens[3].as_str()) {
        Some(v) => v,
        None => {
            return None;
        },
    };
    let quantity = match parse_u32(tokens[4].as_str()) {
        Some(v) => v,
        None => {
            return None;
        },
    };
    if quantity == 0 {
        return None;
    }
    if tokens[5].as_str().is_empty() {
        return None;
    }
    let side_char = tokens[5].as_str().get_char(0);
    let side = match side_char {
        'B' => Side::Buy,
        'S' => Side::Sell,
        _ => {
            return None;
        },
    };
    let user_order_id = match parse_u32(tokens[6].as_str()) {
        Some(v) => v,
        None => {
            return None;
        },
    };
    if !symbol_is_valid(symbol.as_str()) {
        return None;
    }
    Some(InputMessage::NewOrder(NewOrder { user_id, symbol, price, quantity, side, user_order_id }))
}

/// Reads the tokens of a cancel.
fn parse_cancel(tokens: &Vec<String>) -> (r: Option<InputMessage>)
    ensures
        input_option_view(r) == parsed_cancel_line(texts_view(tokens@)),
{
    if tokens.len() != 3 {
        return None;
    }
    proof {
        let views = texts_view(tokens@);
        assert(views[1] == tokens@[1]@ && views[2] == tokens@[2]@);
    }
    let user_id = match parse_u32(tokens[1].as_str()) {
        Some(v) => v,
        None => {
            return None;
        },
    };
    let user_order_id = match parse_u32(tokens[2].as_str()) {
        Some(v) => v,
        None => {
            return None;
        },
    };
    Some(InputMessage::Cancel(Cancel { user_id, user_order_id }))
}

/// Reads the tokens of a query.
fn parse_query_tob(tokens: &Vec<String>) -> (r: Option<InputMessage>)
    ensures
        input_option_view(r) == parsed_query_line(texts_view(tokens@)),
{
    if tokens.len() != 2 {
        return None;
    }
    proof {
        assert(texts_view(tokens@)[1] == tokens@[1]@);
    }
    let symbol = tokens[1].clone();
    if !symbol_is_valid(symbol.as_str()) {
        return None;
    }
    Some(InputMessage::QueryTopOfBook(TopOfBookQuery { symbol }))
}

/// Appends the letter of a side.
fn push_side(out: &mut String, side: Side)
    ensures
        final(out)@ == old(out)@ + side_text(side),
{
    proof {
        reveal_strlit("B");
        reveal_strlit("S");
    }
    let letter = match side {
        Side::Buy => "B",
        Side::Sell => "S",
    };
    proof {
        assert(letter@ =~= side_text(side));
    }
    out.append(letter);
}

/// Appends price and quantity of a report, or two dashes for an
/// eliminated side.
fn push_top(out: &mut String, price: u32, total_quantity: u32, eliminated: bool)
    ensures
        final(out)@ == old(out)@ + top_text(price, total_quantity, eliminated),
{
    if eliminated {
        out.append("-, -");
    } else {
        push_decimal(out, price);
        out.append(", ");
        push_decimal(out, total_quantity);
        proof {
            assert(out@ =~= old(out)@ + top_text(price, total_quantity, eliminated));
        }
    }
}

/// Writes an output message as a line in the symbol-aware form.
pub fn format_output_csv(msg: &OutputMessage) -> (line: String)
    ensures
        line@ == csv_line(msg@),
{
    let mut line = String::new();
    match msg {
        OutputMessage::Ack(a) => {
            line.append("A, ");
            push_decimal(&mut line, a.user_id);
            line.append(", ");
            push_decimal(&mut line, a.user_order_id);
            line.append(", ");
            line.append(a.symbol.as_str());
        },
        OutputMessage::CancelAck(c) => {
            line.append("C, ");
            push_decimal(&mut line, c.user_id);
            line.append(", ");
            push_decimal(&mut line, c.user_order_id);
            line.append(", ");
            line.append(c.symbol.as_str());
        },
        OutputMessage::Trade(t) => {
            line.append("T, ");
            line.append(t.symbol.as_str());
            line.append(", ");
            push_decimal(&mut line, t.user_id_buy);
            line.append(", ");
            push_decimal(&mut line, t.user_order_id_buy);
            line.append(", ");
            push_decimal(&mut line, t.user_id_sell);
            line.append(", ");
            push_decimal(&mut line, t.user_order_id_sell);
            line.append(", ");
            push_decimal(&mut line, t.price);
            line.append(", ");
            push_decimal(&mut line, t.quantity);
        },
        OutputMessage::TopOfBook(t) => {
            line.append("B, ");
            line.append(t.symbol.as_str());
            line.append(", ");
            push_side(&mut line, t.side);
            line.append(", ");
            push_top(&mut line, t.price, t.total_quantity, t.eliminated);
        },
    }
    proof {
        assert(line@ =~= csv_line(msg@));
    }
    line
}

/// Writes an output message as a line in the compact form, without the
/// symbol.
pub fn format_output_legacy(msg: &OutputMessage) -> (line: String)
    ensures
        line@ == legacy_line(msg@),
{
    let mut line = String::new();
    match msg {
        OutputMessage::Ack(a) => {
            line.append("A, ");
            push_decimal(&mut line, a.user_id);
            line.append(", ");
            push_decimal(&mut line, a.user_order_id);
        },
        OutputMessage::CancelAck(c) => {
            line.append("C, ");
            push_decimal(&mut line, c.user_id);
            line.append(", ");
            push_decimal(&mut line, c.user_order_id);
        },
        OutputMessage::Trade(t) => {
            line.append("T, ");
            push_decimal(&mut line, t.user_id_buy);
            line.append(", ");
            push_decimal(&mut line, t.user_order_id_buy);
            line.append(", ");
            push_decimal(&mut line, t.user_id_sell);
            line.append(", ");
            push_decimal(&mut line, t.user_order_id_sell);
            line.append(", ");
            push_decimal(&mut line, t.price);
            line.append(", ");
            push_decimal(&mut line, t.quantity);
        },
        OutputMessage::TopOfBook(t) => {
            line.append("B, ");
            push_side(&mut line, t.side);
            line.append(", ");
            push_top(&mut line, t.price, t.total_quantity, t.eliminated);
        },
    }
    proof {
        assert(line@ =~= legacy_line(msg@));
    }
    line
}

/// True for the bytes with which a line of text can start: the capital
/// letters of the four message types, `N`, `C`, `F` and `Q`. No binary
/// payload of a client starts with one of them, since the type codes of the
/// binary protocol are small numbers.
pub open spec fn opens_text_line(first_byte: u8) -> bool {
    first_byte == 78 || first_byte == 67 || first_byte == 70 || first_byte == 81
}

/// Tells from the first byte that a client sends whether it speaks text
/// lines.
pub fn is_text_start(first_byte: u8) -> (text: bool)
    ensures
        text == opens_text_line(first_byte),
{
    // The codes of N, C, F and Q in ASCII.
    first_byte == 78 || first_byte == 67 || first_byte == 70 || first_byte == 81
}

/// The byte that ends a line.
pub const NEWLINE: u8 = 10;

/// Takes the first line, with the newline that ends it, out of the bytes
/// received so far. Without a newline nothing is taken.
pub fn take_line(buffer: &mut Vec<u8>) -> (line: Option<Vec<u8>>)
    ensures
        match line {
            Some(line) => {
                &&& line@.len() > 0
                &&& line@.last() == NEWLINE
                &&& !line@.drop_last().contains(NEWLINE)
                &&& old(buffer)@ == line@ + final(buffer)@
            },
            None => !old(buffer)@.contains(NEWLINE) && final(buffer)@ == old(buffer)@,
        },
{
    let mut i: usize = 0;
    while i < buffer.len()
        invariant
            i <= buffer.len(),
            buffer@ == old(buffer)@,
            forall|k: int| 0 <= k < i ==> buffer@[k] != NEWLINE,
        decreases buffer.len() - i,
    {
        if buffer[i] == NEWLINE {
            let mut rest = buffer.split_off(i + 1);
            std::mem::swap(buffer, &mut rest);
            proof {
                assert(old(buffer)@ =~= rest@ + buffer@);
                assert(rest@.last() == NEWLINE);
                assert forall|k: int| 0 <= k < rest@.drop_last().len() implies rest@.drop_last()[k]
                    != NEWLINE by {
                    assert(rest@.drop_last()[k] == old(buffer)@[k]);
                }
            }
            return Some(rest);
        }
        i += 1;
    }
    None
}

/// Every message read from a line is one that the wire protocol carries.
/// In particular no line reads as an order of quantity zero: such a line
/// reads as nothing, and nothing reaches the engine.
pub proof fn lemma_parsed_line_is_valid(line: Seq<char>)
    ensures
        parsed_line(line) matches Some(msg) ==> wire_valid_input(msg),
        parsed_line(line) matches Some(InputMessageView::NewOrder(n)) ==> n.quantity > 0,
{
}

/// A number written by the formatters is read back by the parser.
pub proof fn lemma_written_number_is_read(v: u32)
    ensures
        parsed_u32(decimal(v as nat)) == Some(v),
{
    lemma_decimal_round_trip(v, u32::MAX as u64);
}

} // verus!

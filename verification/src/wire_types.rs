//! Type codes and limits of the binary protocol.

use vstd::prelude::*;

verus! {

/// The protocol version that every payload carries in its second byte.
pub const PROTOCOL_VERSION: u8 = 1;

/// The longest symbol on the wire, in bytes of UTF-8.
pub const MAX_SYMBOL_LEN: usize = 32;

/// The kinds of message that a client sends.
#[derive(Debug, Copy, Clone, PartialEq, Eq, Structural)]
pub enum WireInputType {
    /// A market or limit order.
    NewOrder,
    /// A cancel by user and order identifier.
    Cancel,
    /// A flush of all books.
    Flush,
    /// A query for the top of one symbol's book.
    QueryTopOfBook,
}

impl WireInputType {
    /// The code of a kind in the first byte of a payload.
    pub open spec fn code(self) -> u8 {
        match self {
            WireInputType::NewOrder => 0,
            WireInputType::Cancel => 1,
            WireInputType::Flush => 2,
            WireInputType::QueryTopOfBook => 3,
        }
    }

    /// The kind that a code stands for, if any.
    pub open spec fn of_code(v: u8) -> Option<WireInputType> {
        if v == 0 {
            Some(WireInputType::NewOrder)
        } else if v == 1 {
            Some(WireInputType::Cancel)
        } else if v == 2 {
            Some(WireInputType::Flush)
        } else if v == 3 {
            Some(WireInputType::QueryTopOfBook)
        } else {
            None
        }
    }

    /// Reads a kind from its code.
    pub fn from_u8(v: u8) -> (r: Option<WireInputType>)
        ensures
            r == WireInputType::of_code(v),
    {
        match v {
            0 => Some(WireInputType::NewOrder),
            1 => Some(WireInputType::Cancel),
            2 => Some(WireInputType::Flush),
            3 => Some(WireInputType::QueryTopOfBook),
            _ => None,
        }
    }

    /// The code of this kind.
    pub fn to_u8(self) -> (v: u8)
        ensures
            v == self.code(),
    {
        match self {
            WireInputType::NewOrder => 0,
            WireInputType::Cancel => 1,
            WireInputType::Flush => 2,
            WireInputType::QueryTopOfBook => 3,
        }
    }

    /// A kind is read back from its code, and no code reads as a kind
    /// with another code.
    pub proof fn lemma_code_round_trip(self, v: u8)
        ensures
            WireInputType::of_code(self.code()) == Some(self),
            WireInputType::of_code(v) == Some(self) ==> v == self.code(),
    {
    }
}

/// The kinds of message that the server sends.
#[derive(Debug, Copy, Clone, PartialEq, Eq, Structural)]
pub enum WireOutputType {
    /// The acknowledgement of a new order.
    Ack,
    /// The acknowledgement of a cancel.
    CancelAck,
    /// A trade between a buyer and a seller.
    Trade,
    /// The top of one side of a book.
    TopOfBook,
}

impl WireOutputType {
    /// The code of a kind in the first byte of a payload.
    pub open spec fn code(self) -> u8 {
        match self {
            WireOutputType::Ack => 10,
            WireOutputType::CancelAck => 11,
            WireOutputType::Trade => 12,
            WireOutputType::TopOfBook => 13,
        }
    }

    /// The kind that a code stands for, if any.
    pub open spec fn of_code(v: u8) -> Option<WireOutputType> {
        if v == 10 {
            Some(WireOutputType::Ack)
        } else if v == 11 {
            Some(WireOutputType::CancelAck)
        } else if v == 12 {
            Some(WireOutputType::Trade)
        } else if v == 13 {
            Some(WireOutputType::TopOfBook)
        } else {
            None
        }
    }

    /// Reads a kind from its code.
    pub fn from_u8(v: u8) -> (r: Option<WireOutputType>)
        ensures
            r == WireOutputType::of_code(v),
    {
        match v {
            10 => Some(WireOutputType::Ack),
            11 => Some(WireOutputType::CancelAck),
            12 => Some(WireOutputType::Trade),
            13 => Some(WireOutputType::TopOfBook),
            _ => None,
        }
    }

    /// The code of this kind.
    pub fn to_u8(self) -> (v: u8)
        ensures
            v == self.code(),
    {
        match self {
            WireOutputType::Ack => 10,
            WireOutputType::CancelAck => 11,
            WireOutputType::Trade => 12,
            WireOutputType::TopOfBook => 13,
        }
    }

    /// A kind is read back from its code, and no code reads as a kind
    /// with another code.
    pub proof fn lemma_code_round_trip(self, v: u8)
        ensures
            WireOutputType::of_code(self.code()) == Some(self),
            WireOutputType::of_code(v) == Some(self) ==> v == self.code(),
    {
    }
}

/// True for the lengths a symbol may have on the wire: one to
/// [`MAX_SYMBOL_LEN`] bytes.
pub open spec fn is_symbol_len(len: int) -> bool {
    0 < len <= MAX_SYMBOL_LEN
}

/// Tells whether a symbol of `len` bytes may go on the wire.
pub fn validate_symbol_len(len: usize) -> (ok: bool)
    ensures
        ok == is_symbol_len(len as int),
{
    len > 0 && len <= MAX_SYMBOL_LEN
}

} // verus!

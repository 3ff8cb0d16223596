//! The side of an order.

use vstd::prelude::*;

verus! {

/// Which side of the market an order, or a top-of-book report, refers to.
#[derive(Debug, Copy, Clone, PartialEq, Eq, Structural)]
pub enum Side {
    Buy,
    Sell,
}

impl Side {
    /// The letter that stands for a side in text: `B` for buy, `S` for sell.
    pub open spec fn letter(self) -> char {
        match self {
            Side::Buy => 'B',
            Side::Sell => 'S',
        }
    }

    /// The side a letter stands for. Only the capitals `B` and `S` name one.
    pub open spec fn of_letter(c: char) -> Option<Side> {
        if c == 'B' {
            Some(Side::Buy)
        } else if c == 'S' {
            Some(Side::Sell)
        } else {
            None
        }
    }

    /// The side that an order of this side trades against.
    pub open spec fn opposite(self) -> Side {
        match self {
            Side::Buy => Side::Sell,
            Side::Sell => Side::Buy,
        }
    }

    /// The letter of this side.
    pub fn as_char(self) -> (c: char)
        ensures
            c == self.letter(),
    {
        match self {
            Side::Buy => 'B',
            Side::Sell => 'S',
        }
    }

    /// Reads a side from its letter; the match is case-sensitive.
    pub fn from_char(c: char) -> (r: Option<Side>)
        ensures
            r == Side::of_letter(c),
    {
        match c {
            'B' => Some(Side::Buy),
            'S' => Some(Side::Sell),
            _ => None,
        }
    }

    /// Reading the letter of a side gives the side back.
    pub proof fn lemma_letter_round_trip(self)
        ensures
            Side::of_letter(self.letter()) == Some(self),
    {
    }
}

} // verus!

use vstd::prelude::*;

verus! {

/// Why a card or a hand could not be read from text.
#[derive(Clone, Copy, Debug, PartialEq, Eq, Structural)]
pub enum ParseError {
    /// The card token is empty.
    NoRankFound,
    /// The first character of a card token is not one of `23456789TJQKA`.
    InvalidRank,
    /// The card token holds a rank and nothing after it.
    NoSuitFound,
    /// The second character of a card token is not one of `CDHS`.
    InvalidSuit,
    /// The hand does not hold exactly five cards.
    WrongLength,
}

impl ParseError {
    /// The human-readable text of the error.
    pub open spec fn spec_message(self) -> Seq<char> {
        match self {
            ParseError::NoRankFound => "No Rank Found"@,
            ParseError::InvalidRank => "Invalid Rank"@,
            ParseError::NoSuitFound => "No Suit Found"@,
            ParseError::InvalidSuit => "Invalid Suit"@,
            ParseError::WrongLength => "Wrong Length!"@,
        }
    }

    pub fn message(&self) -> (m: &'static str)
        ensures
            m@ == self.spec_message(),
    {
        match self {
            ParseError::NoRankFound => "No Rank Found",
            ParseError::InvalidRank => "Invalid Rank",
            ParseError::NoSuitFound => "No Suit Found",
            ParseError::InvalidSuit => "Invalid Suit",
            ParseError::WrongLength => "Wrong Length!",
        }
    }
}

} // verus!

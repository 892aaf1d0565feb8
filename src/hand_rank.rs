use vstd::prelude::*;

verus! {

/// The nine categories of a five-card hand, from weakest to strongest.
#[derive(Clone, Copy, Debug, PartialEq, Eq, Structural, Hash)]
pub enum HandRank {
    HighCard,
    Pair,
    TwoPair,
    ThreeOfAKind,
    Straight,
    Flush,
    FullHouse,
    FourOfAKind,
    StraightFlush,
}

impl HandRank {
    /// Severity of the category: HighCard is 0, ..., StraightFlush is 8.
    pub open spec fn spec_value(self) -> int {
        match self {
            HandRank::HighCard => 0,
            HandRank::Pair => 1,
            HandRank::TwoPair => 2,
            HandRank::ThreeOfAKind => 3,
            HandRank::Straight => 4,
            HandRank::Flush => 5,
            HandRank::FullHouse => 6,
            HandRank::FourOfAKind => 7,
            HandRank::StraightFlush => 8,
        }
    }

    /// The category's display name.
    pub open spec fn spec_name(self) -> Seq<char> {
        match self {
            HandRank::HighCard => "High Card"@,
            HandRank::Pair => "One Pair"@,
            HandRank::TwoPair => "Two Pair"@,
            HandRank::ThreeOfAKind => "Three of a Kind"@,
            HandRank::Straight => "Straight"@,
            HandRank::Flush => "Flush"@,
            HandRank::FullHouse => "Full House"@,
            HandRank::FourOfAKind => "Four of a Kind"@,
            HandRank::StraightFlush => "Straight Flush"@,
        }
    }

    pub fn value(&self) -> (v: i64)
        ensures
            v == self.spec_value(),
            0 <= v <= 8,
    {
        match self {
            HandRank::HighCard => 0,
            HandRank::Pair => 1,
            HandRank::TwoPair => 2,
            HandRank::ThreeOfAKind => 3,
            HandRank::Straight => 4,
            HandRank::Flush => 5,
            HandRank::FullHouse => 6,
            HandRank::FourOfAKind => 7,
            HandRank::StraightFlush => 8,
        }
    }

    pub fn name(&self) -> (s: &'static str)
        ensures
            s@ == self.spec_name(),
    {
        match self {
            HandRank::HighCard => "High Card",
            HandRank::Pair => "One Pair",
            HandRank::TwoPair => "Two Pair",
            HandRank::ThreeOfAKind => "Three of a Kind",
            HandRank::Straight => "Straight",
            HandRank::Flush => "Flush",
            HandRank::FullHouse => "Full House",
            HandRank::FourOfAKind => "Four of a Kind",
            HandRank::StraightFlush => "Straight Flush",
        }
    }
}

} // verus!

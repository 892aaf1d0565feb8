use vstd::prelude::*;

verus! {

/// The four suits. They have no order; only equality matters.
#[derive(Clone, Copy, Debug, PartialEq, Eq, Structural, Hash)]
pub enum Suit {
    Clubs,
    Diamonds,
    Hearts,
    Spades,
}

/// The suit written by a character of `CDHS`, if any.
pub open spec fn suit_of_char(c: char) -> Option<Suit> {
    if c == 'C' {
        Some(Suit::Clubs)
    } else if c == 'D' {
        Some(Suit::Diamonds)
    } else if c == 'H' {
        Some(Suit::Hearts)
    } else if c == 'S' {
        Some(Suit::Spades)
    } else {
        None
    }
}

impl Suit {
    /// The character that writes this suit.
    pub open spec fn spec_symbol(self) -> char {
        match self {
            Suit::Clubs => 'C',
            Suit::Diamonds => 'D',
            Suit::Hearts => 'H',
            Suit::Spades => 'S',
        }
    }

    pub fn symbol(&self) -> (c: char)
        ensures
            c == self.spec_symbol(),
    {
        match self {
            Suit::Clubs => 'C',
            Suit::Diamonds => 'D',
            Suit::Hearts => 'H',
            Suit::Spades => 'S',
        }
    }

    /// The suit's character as text.
    pub fn text(&self) -> (t: &'static str)
        ensures
            t@ == seq![self.spec_symbol()],
    {
        match self {
            Suit::Clubs => {
                proof {
                    reveal_strlit("C");
                }
                "C"
            },
            Suit::Diamonds => {
                proof {
                    reveal_strlit("D");
                }
                "D"
            },
            Suit::Hearts => {
                proof {
                    reveal_strlit("H");
                }
                "H"
            },
            Suit::Spades => {
                proof {
                    reveal_strlit("S");
                }
                "S"
            },
        }
    }

    /// Reads a suit from its character; `None` for any other character.
    pub fn from_char(c: char) -> (r: Option<Suit>)
        ensures
            r == suit_of_char(c),
    {
        match c {
            'C' => Some(Suit::Clubs),
            'D' => Some(Suit::Diamonds),
            'H' => Some(Suit::Hearts),
            'S' => Some(Suit::Spades),
            _ => None,
        }
    }
}

/// Reading a suit's character gives the suit back, and a character that
/// reads as a suit is that suit's character.
pub proof fn lemma_suit_symbol(s: Suit, c: char)
    ensures
        suit_of_char(s.spec_symbol()) == Some(s),
        suit_of_char(c) == Some(s) ==> s.spec_symbol() == c,
{
}

} // verus!

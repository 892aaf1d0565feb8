use vstd::prelude::*;
use vstd::string::*;

use crate::error::ParseError;
use crate::rank::{rank_of_char, Rank};
use crate::suit::{suit_of_char, Suit};

verus! {

/// A playing card: a rank and a suit.
#[derive(Clone, Copy, Debug, PartialEq, Eq, Structural)]
pub struct Card {
    pub rank: Rank,
    pub suit: Suit,
}

/// What reading a card token gives: its first character is the rank, its
/// second the suit, and anything after them is ignored.
pub open spec fn parse_card(s: Seq<char>) -> Result<Card, ParseError> {
    if s.len() == 0 {
        Err(ParseError::NoRankFound)
    } else {
        match rank_of_char(s[0]) {
            None => Err(ParseError::InvalidRank),
            Some(rank) => if s.len() == 1 {
                Err(ParseError::NoSuitFound)
            } else {
                match suit_of_char(s[1]) {
                    None => Err(ParseError::InvalidSuit),
                    Some(suit) => Ok(Card { rank, suit }),
                }
            },
        }
    }
}

impl Card {
    /// The card's text: its rank character followed by its suit character.
    pub open spec fn spec_render(self) -> Seq<char> {
        seq![self.rank.spec_symbol(), self.suit.spec_symbol()]
    }

    /// Reads a card from a token such as `"AS"`.
    pub fn parse(s: &str) -> (r: Result<Card, ParseError>)
        ensures
            r == parse_card(s@),
    {
        let n = s.unicode_len();
        if n == 0 {
            return Err(ParseError::NoRankFound);
        }
        let rank = match Rank::from_char(s.get_char(0)) {
            Some(rank) => rank,
            None => return Err(ParseError::InvalidRank),
        };
        if n == 1 {
            return Err(ParseError::NoSuitFound);
        }
        let suit = match Suit::from_char(s.get_char(1)) {
            Some(suit) => suit,
            None => return Err(ParseError::InvalidSuit),
        };
        Ok(Card { rank, suit })
    }

    /// The card's text, such as `"AS"`.
    pub fn to_string(&self) -> (s: String)
        ensures
            s@ == self.spec_render(),
    {
        let mut s = String::from_str(self.rank.text());
        s.append(self.suit.text());
        s
    }
}

/// A card's text reads back as the same card.
pub proof fn lemma_parse_render(c: Card)
    ensures
        parse_card(c.spec_render()) == Ok::<Card, ParseError>(c),
        !c.spec_render().contains(' '),
{
    crate::rank::lemma_rank_symbol(c.rank, c.rank.spec_symbol());
    crate::suit::lemma_suit_symbol(c.suit, c.suit.spec_symbol());
    let t = c.spec_render();
    assert(t[0] == c.rank.spec_symbol() && t[1] == c.suit.spec_symbol());
    if t.contains(' ') {
        let k = choose|k: int| 0 <= k < t.len() && t[k] == ' ';
        assert(k == 0 || k == 1);
    }
}

/// Any rank character followed by any suit character reads as a card whose
/// text is those two characters again.
pub proof fn lemma_card_round_trip(r: char, s: char)
    requires
        rank_of_char(r) is Some,
        suit_of_char(s) is Some,
    ensures
        parse_card(seq![r, s]) is Ok,
        parse_card(seq![r, s])->Ok_0.spec_render() == seq![r, s],
{
    crate::rank::lemma_rank_symbol(rank_of_char(r)->Some_0, r);
    crate::suit::lemma_suit_symbol(suit_of_char(s)->Some_0, s);
    assert(seq![r, s][0] == r && seq![r, s][1] == s);
}

} // verus!

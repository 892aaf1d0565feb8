use core::cmp::Ordering;
use vstd::prelude::*;

use crate::card::{lemma_parse_render, parse_card, Card};
use crate::error::ParseError;
use crate::hand_rank::HandRank;
use crate::order::{
    compare_keys,
    ints,
    lemma_lex_cmp_antisymmetric,
    lemma_lex_cmp_equal,
    lemma_lex_cmp_transitive,
    lex_cmp,
};
use crate::split::{lemma_split_join, lemma_split_no_sep, split_chars, split_on, views_of};

verus! {

/// Five cards, in the order in which they were given.
#[derive(Clone, Copy, Debug)]
pub struct Hand {
    pub cards: [Card; 5],
}

/// How many of the cards have rank value `v`.
pub open spec fn rank_count(cards: Seq<Card>, v: int) -> nat
    decreases cards.len(),
{
    if cards.len() == 0 {
        0
    } else {
        rank_count(cards.drop_last(), v) + if cards.last().rank.spec_value() == v {
            1nat
        } else {
            0nat
        }
    }
}

/// The rank values below `below` that occur among the cards, ascending.
pub open spec fn ranks_present_below(cards: Seq<Card>, below: int) -> Seq<int>
    decreases below,
{
    if below <= 2 {
        seq![]
    } else {
        ranks_present_below(cards, below - 1) + if rank_count(cards, below - 1) > 0 {
            seq![below - 1]
        } else {
            seq![]
        }
    }
}

/// The distinct rank values of the cards, ascending.
pub open spec fn distinct_ranks(cards: Seq<Card>) -> Seq<int> {
    ranks_present_below(cards, 15)
}

/// The largest number of cards that share a rank value below `below`.
pub open spec fn max_count_below(cards: Seq<Card>, below: int) -> nat
    decreases below,
{
    if below <= 2 {
        0
    } else {
        let m = max_count_below(cards, below - 1);
        let c = rank_count(cards, below - 1);
        if c > m {
            c
        } else {
            m
        }
    }
}

/// The largest number of cards that share one rank.
pub open spec fn max_multiplicity(cards: Seq<Card>) -> nat {
    max_count_below(cards, 15)
}

/// The highest rank value below `below` held by exactly `k` of the cards, or 0
/// if there is none.
pub open spec fn top_with_count(cards: Seq<Card>, k: nat, below: int) -> int
    decreases below,
{
    if below <= 2 {
        0
    } else if rank_count(cards, below - 1) == k {
        below - 1
    } else {
        top_with_count(cards, k, below - 1)
    }
}

/// All cards share one suit.
pub open spec fn spec_is_flush(cards: Seq<Card>) -> bool {
    forall|i: int| 0 <= i < cards.len() ==> #[trigger] cards[i].suit == cards[0].suit
}

/// Five distinct ranks whose highest is four above the lowest.
pub open spec fn spec_is_all_consecutive(cards: Seq<Card>) -> bool {
    let d = distinct_ranks(cards);
    d.len() == 5 && d[4] - d[0] == 4
}

/// The ace-low straight A-2-3-4-5: five distinct ranks, the two highest of
/// which are Five and Ace.
pub open spec fn spec_is_wheel(cards: Seq<Card>) -> bool {
    let d = distinct_ranks(cards);
    d.len() == 5 && d[3] == 5 && d[4] == 14
}

/// Five consecutive ranks, the ace-low straight included.
pub open spec fn spec_is_straight(cards: Seq<Card>) -> bool {
    spec_is_all_consecutive(cards) || spec_is_wheel(cards)
}

/// The category of the cards: the first of these tests, from the strongest
/// down, that holds.
pub open spec fn category(cards: Seq<Card>) -> HandRank {
    let n = distinct_ranks(cards).len();
    let m = max_multiplicity(cards);
    if spec_is_straight(cards) && spec_is_flush(cards) {
        HandRank::StraightFlush
    } else if n == 2 && m == 4 {
        HandRank::FourOfAKind
    } else if n == 2 && m == 3 {
        HandRank::FullHouse
    } else if spec_is_flush(cards) {
        HandRank::Flush
    } else if spec_is_straight(cards) {
        HandRank::Straight
    } else if n == 3 && m == 3 {
        HandRank::ThreeOfAKind
    } else if n == 3 && m == 2 {
        HandRank::TwoPair
    } else if n == 4 {
        HandRank::Pair
    } else {
        HandRank::HighCard
    }
}

/// The within-category tiebreak fields: the rank held four times, the rank
/// held three times, the two paired ranks (higher first), then the five
/// single ranks (highest first), each 0 where absent. The ace-low straight
/// counts as the lowest straight: singles 5, 4, 3, 2, 1 and nothing else.
pub open spec fn tiebreak(cards: Seq<Card>) -> Seq<int> {
    if spec_is_wheel(cards) {
        seq![0, 0, 0, 0, 5, 4, 3, 2, 1]
    } else {
        let pair_high = top_with_count(cards, 2, 15);
        let s5 = top_with_count(cards, 1, 15);
        let s4 = top_with_count(cards, 1, s5);
        let s3 = top_with_count(cards, 1, s4);
        let s2 = top_with_count(cards, 1, s3);
        seq![
            top_with_count(cards, 4, 15),
            top_with_count(cards, 3, 15),
            pair_high,
            top_with_count(cards, 2, pair_high),
            s5,
            s4,
            s3,
            s2,
            top_with_count(cards, 1, s2),
        ]
    }
}

/// The full order key: the category's severity, then the tiebreak fields.
pub open spec fn order_key(cards: Seq<Card>) -> Seq<int> {
    seq![category(cards).spec_value()] + tiebreak(cards)
}

/// Reads the card tokens in order; the first token that is not a card gives
/// its error.
pub open spec fn parse_cards(tokens: Seq<Seq<char>>) -> Result<Seq<Card>, ParseError>
    decreases tokens.len(),
{
    if tokens.len() == 0 {
        Ok(seq![])
    } else {
        match parse_cards(tokens.drop_last()) {
            Err(e) => Err(e),
            Ok(cards) => match parse_card(tokens.last()) {
                Err(e) => Err(e),
                Ok(c) => Ok(cards.push(c)),
            },
        }
    }
}

/// What reading a hand gives: the text is split at each space, every token
/// must read as a card (the first that does not gives its error), and then
/// there must be exactly five cards.
pub open spec fn parse_hand(s: Seq<char>) -> Result<Seq<Card>, ParseError> {
    match parse_cards(split_chars(s, ' ')) {
        Err(e) => Err(e),
        Ok(cards) => if cards.len() == 5 {
            Ok(cards)
        } else {
            Err(ParseError::WrongLength)
        },
    }
}

/// The cards' texts joined by single spaces.
pub open spec fn render_cards(cards: Seq<Card>) -> Seq<char>
    decreases cards.len(),
{
    if cards.len() == 0 {
        seq![]
    } else if cards.len() == 1 {
        cards[0].spec_render()
    } else {
        render_cards(cards.drop_last()) + seq![' '] + cards.last().spec_render()
    }
}

/// The texts of the cards, one token each.
pub open spec fn card_tokens(cards: Seq<Card>) -> Seq<Seq<char>> {
    cards.map_values(|c: Card| c.spec_render())
}

proof fn lemma_parse_cards_err_extends(tokens: Seq<Seq<char>>, i: int, e: ParseError)
    requires
        0 <= i <= tokens.len(),
        parse_cards(tokens.take(i)) == Err::<Seq<Card>, ParseError>(e),
    ensures
        parse_cards(tokens) == Err::<Seq<Card>, ParseError>(e),
    decreases tokens.len() - i,
{
    if i == tokens.len() {
        assert(tokens.take(i) =~= tokens);
    } else {
        assert(tokens.take(i + 1).drop_last() =~= tokens.take(i));
        lemma_parse_cards_err_extends(tokens, i + 1, e);
    }
}

proof fn lemma_split_rendered(cards: Seq<Card>)
    requires
        cards.len() >= 1,
    ensures
        split_chars(render_cards(cards), ' ') == card_tokens(cards),
    decreases cards.len(),
{
    lemma_parse_render(cards.last());
    if cards.len() == 1 {
        lemma_split_no_sep(cards[0].spec_render(), ' ');
        assert(card_tokens(cards) =~= seq![cards[0].spec_render()]);
    } else {
        let init = cards.drop_last();
        lemma_split_rendered(init);
        lemma_split_join(render_cards(init), cards.last().spec_render(), ' ');
        lemma_split_no_sep(cards.last().spec_render(), ' ');
        assert(card_tokens(cards) =~= card_tokens(init) + seq![cards.last().spec_render()]);
    }
}

proof fn lemma_parse_tokens(cards: Seq<Card>)
    ensures
        parse_cards(card_tokens(cards)) == Ok::<Seq<Card>, ParseError>(cards),
    decreases cards.len(),
{
    if cards.len() == 0 {
        assert(card_tokens(cards) =~= Seq::empty());
        assert(cards =~= Seq::empty());
    } else {
        let init = cards.drop_last();
        lemma_parse_tokens(init);
        lemma_parse_render(cards.last());
        assert(card_tokens(cards).drop_last() =~= card_tokens(init));
        assert(card_tokens(cards).last() == cards.last().spec_render());
        assert(init.push(cards.last()) =~= cards);
    }
}

/// Writing out any non-empty sequence of cards and reading the text back
/// gives the same cards, before the count of five is checked.
pub proof fn lemma_render_parse_cards(cards: Seq<Card>)
    requires
        cards.len() >= 1,
    ensures
        parse_cards(split_chars(render_cards(cards), ' ')) == Ok::<Seq<Card>, ParseError>(cards),
{
    lemma_split_rendered(cards);
    lemma_parse_tokens(cards);
}

/// Reading the text of four or six cards fails with `WrongLength`.
pub proof fn lemma_wrong_length(cards: Seq<Card>)
    requires
        cards.len() == 4 || cards.len() == 6,
    ensures
        parse_hand(render_cards(cards)) == Err::<Seq<Card>, ParseError>(ParseError::WrongLength),
{
    lemma_render_parse_cards(cards);
}

/// Reading a hand's text gives back the same cards, and so an equal hand.
pub proof fn lemma_hand_round_trip(h: Hand)
    ensures
        parse_hand(render_cards(h.cards@)) == Ok::<Seq<Card>, ParseError>(h.cards@),
{
    lemma_render_parse_cards(h.cards@);
}

proof fn lemma_rank_count_bound(cards: Seq<Card>, v: int)
    ensures
        rank_count(cards, v) <= cards.len(),
    decreases cards.len(),
{
    if cards.len() > 0 {
        lemma_rank_count_bound(cards.drop_last(), v);
    }
}

proof fn lemma_present_bounds(cards: Seq<Card>, below: int)
    ensures
        forall|i: int|
            0 <= i < ranks_present_below(cards, below).len() ==> 2 <= #[trigger] ranks_present_below(
                cards,
                below,
            )[i] < below,
    decreases below,
{
    if below > 2 {
        lemma_present_bounds(cards, below - 1);
        let prev = ranks_present_below(cards, below - 1);
        let cur = ranks_present_below(cards, below);
        assert forall|i: int| 0 <= i < cur.len() implies 2 <= #[trigger] cur[i] < below by {
            if i < prev.len() {
                assert(cur[i] == prev[i]);
            }
        }
    }
}

impl Hand {
    /// Reads a hand from five space-separated card tokens, such as
    /// `"2C 2D 6C 9H AS"`.
    pub fn parse(s: &str) -> (r: Result<Hand, ParseError>)
        ensures
            match r {
                Ok(h) => parse_hand(s@) == Ok::<Seq<Card>, ParseError>(h.cards@),
                Err(e) => parse_hand(s@) == Err::<Seq<Card>, ParseError>(e),
            },
    {
        let tokens = split_on(s, ' ');
        let ghost toks = views_of(tokens@);
        let mut cards: Vec<Card> = Vec::new();
        let mut i: usize = 0;
        proof {
            assert(toks.take(0) =~= Seq::empty());
        }
        while i < tokens.len()
            invariant
                i <= tokens@.len() == toks.len(),
                toks == views_of(tokens@),
                toks == split_chars(s@, ' '),
                parse_cards(toks.take(i as int)) == Ok::<Seq<Card>, ParseError>(cards@),
            decreases tokens@.len() - i,
        {
            let ghost prefix = toks.take(i as int + 1);
            proof {
                assert(prefix.drop_last() =~= toks.take(i as int));
                assert(prefix.last() == tokens@[i as int]@);
            }
            match Card::parse(tokens[i]) {
                Ok(c) => {
                    cards.push(c);
                },
                Err(e) => {
                    proof {
                        lemma_parse_cards_err_extends(toks, i as int + 1, e);
                    }
                    return Err(e);
                },
            }
            i = i + 1;
        }
        proof {
            assert(toks.take(i as int) =~= toks);
        }
        if cards.len() != 5 {
            return Err(ParseError::WrongLength);
        }
        let h = Hand { cards: [cards[0], cards[1], cards[2], cards[3], cards[4]] };
        proof {
            assert(h.cards@ =~= cards@);
        }
        Ok(h)
    }

    /// The hand's text: the five cards' texts joined by single spaces.
    pub fn to_string(&self) -> (s: String)
        ensures
            s@ == render_cards(self.cards@),
    {
        let mut s = String::new();
        let mut i: usize = 0;
        proof {
            assert(self.cards@.take(0) =~= Seq::empty());
        }
        while i < 5
            invariant
                i <= 5,
                self.cards@.len() == 5,
                s@ == render_cards(self.cards@.take(i as int)),
            decreases 5 - i,
        {
            let t = self.cards[i].to_string();
            proof {
                let p = self.cards@.take(i as int + 1);
                assert(p.drop_last() =~= self.cards@.take(i as int));
                assert(p.last() == self.cards@[i as int]);
                if i == 0 {
                    assert(p[0] == self.cards@[0]);
                }
            }
            if i > 0 {
                proof {
                    reveal_strlit(" ");
                }
                s.append(" ");
            }
            s.append(t.as_str());
            proof {
                if i == 0 {
                    assert(s@ =~= render_cards(self.cards@.take(1)));
                } else {
                    assert(s@ =~= render_cards(self.cards@.take(i as int + 1)));
                }
            }
            i = i + 1;
        }
        proof {
            assert(self.cards@.take(5) =~= self.cards@);
        }
        s
    }

    /// How many cards hold each rank value: entry `v` counts the cards of
    /// rank value `v` (entries 0 and 1 are always 0).
    pub fn rank_sizes(&self) -> (counts: Vec<u8>)
        ensures
            counts@.len() == 15,
            forall|v: int| 0 <= v < 15 ==> counts@[v] == rank_count(self.cards@, v),
    {
        let mut counts: Vec<u8> = Vec::new();
        let mut v: usize = 0;
        while v < 15
            invariant
                v <= 15,
                counts@.len() == v,
                forall|w: int| 0 <= w < v ==> counts@[w] == 0,
            decreases 15 - v,
        {
            counts.push(0);
            v = v + 1;
        }
        let mut i: usize = 0;
        while i < 5
            invariant
                i <= 5,
                self.cards@.len() == 5,
                counts@.len() == 15,
                forall|w: int| 0 <= w < 15 ==> counts@[w] == rank_count(self.cards@.take(i as int), w),
            decreases 5 - i,
        {
            let r = self.cards[i].rank.value();
            proof {
                let t = self.cards@.take(i as int + 1);
                assert(t.drop_last() =~= self.cards@.take(i as int));
                lemma_rank_count_bound(self.cards@.take(i as int), r as int);
            }
            let c = counts[r as usize];
            counts.set(r as usize, c + 1);
            i = i + 1;
        }
        proof {
            assert(self.cards@.take(5) =~= self.cards@);
        }
        counts
    }

    /// The distinct rank values of the hand, ascending.
    pub fn rank_sets(&self) -> (r: Vec<i64>)
        ensures
            ints(r@) == distinct_ranks(self.cards@),
    {
        let counts = self.rank_sizes();
        let mut present: Vec<i64> = Vec::new();
        let mut v: usize = 2;
        proof {
            assert(ints(present@) =~= ranks_present_below(self.cards@, 2));
        }
        while v < 15
            invariant
                2 <= v <= 15,
                counts@.len() == 15,
                forall|w: int| 0 <= w < 15 ==> counts@[w] == rank_count(self.cards@, w),
                ints(present@) == ranks_present_below(self.cards@, v as int),
            decreases 15 - v,
        {
            let ghost before = present@;
            if counts[v] > 0 {
                present.push(v as i64);
            }
            proof {
                assert(ints(present@) =~= ranks_present_below(self.cards@, v as int + 1)) by {
                    assert(ints(before) == ranks_present_below(self.cards@, v as int));
                }
            }
            v = v + 1;
        }
        present
    }

    /// The largest number of cards that share one rank.
    pub fn most_common_rank_size(&self) -> (m: i64)
        ensures
            m == max_multiplicity(self.cards@),
    {
        let counts = self.rank_sizes();
        let mut best: u8 = 0;
        let mut v: usize = 2;
        while v < 15
            invariant
                2 <= v <= 15,
                counts@.len() == 15,
                forall|w: int| 0 <= w < 15 ==> counts@[w] == rank_count(self.cards@, w),
                best == max_count_below(self.cards@, v as int),
            decreases 15 - v,
        {
            if counts[v] > best {
                best = counts[v];
            }
            v = v + 1;
        }
        best as i64
    }

    /// The highest rank value below `below` that exactly `k` cards hold, or 0.
    fn top_with_count(&self, counts: &Vec<u8>, k: u8, below: i64) -> (r: i64)
        requires
            counts@.len() == 15,
            forall|w: int| 0 <= w < 15 ==> counts@[w] == rank_count(self.cards@, w),
            0 <= below <= 15,
        ensures
            r == top_with_count(self.cards@, k as nat, below as int),
            0 <= r < 15,
            r == 0 || r >= 2,
            r < below || r == 0,
    {
        let mut v: i64 = below;
        while v > 2
            invariant
                0 <= v <= below <= 15,
                counts@.len() == 15,
                forall|w: int| 0 <= w < 15 ==> counts@[w] == rank_count(self.cards@, w),
                top_with_count(self.cards@, k as nat, below as int) == top_with_count(
                    self.cards@,
                    k as nat,
                    v as int,
                ),
            decreases v,
        {
            if counts[(v - 1) as usize] == k {
                return v - 1;
            }
            v = v - 1;
        }
        0
    }

    /// Every card has the suit of the first.
    pub fn is_all_same_suit(&self) -> (r: bool)
        ensures
            r == spec_is_flush(self.cards@),
    {
        let first = self.cards[0].suit;
        let mut i: usize = 0;
        while i < 5
            invariant
                i <= 5,
                self.cards@.len() == 5,
                first == self.cards@[0].suit,
                forall|j: int| 0 <= j < i ==> #[trigger] self.cards@[j].suit == first,
            decreases 5 - i,
        {
            if self.cards[i].suit != first {
                return false;
            }
            i = i + 1;
        }
        true
    }

    /// Five distinct ranks, the highest four above the lowest.
    pub fn is_all_consecutive(&self) -> (r: bool)
        ensures
            r == spec_is_all_consecutive(self.cards@),
    {
        let ranks = self.rank_sets();
        proof {
            lemma_present_bounds(self.cards@, 15);
            assert(ranks@.len() == ints(ranks@).len());
        }
        if ranks.len() != 5 {
            return false;
        }
        proof {
            assert(ints(ranks@)[0] == ranks@[0] as int);
            assert(ints(ranks@)[4] == ranks@[4] as int);
        }
        ranks[4] - ranks[0] == 4
    }

    /// The ace-low straight A-2-3-4-5.
    pub fn is_wraparound_straight(&self) -> (r: bool)
        ensures
            r == spec_is_wheel(self.cards@),
    {
        let ranks = self.rank_sets();
        proof {
            assert(ranks@.len() == ints(ranks@).len());
        }
        if ranks.len() != 5 {
            return false;
        }
        proof {
            assert(ints(ranks@)[3] == ranks@[3] as int);
            assert(ints(ranks@)[4] == ranks@[4] as int);
        }
        ranks[3] == 5 && ranks[4] == 14
    }

    /// Five consecutive ranks, the ace-low straight included.
    pub fn is_straight(&self) -> (r: bool)
        ensures
            r == spec_is_straight(self.cards@),
    {
        self.is_all_consecutive() || self.is_wraparound_straight()
    }

    /// All five cards share one suit.
    pub fn is_flush(&self) -> (r: bool)
        ensures
            r == spec_is_flush(self.cards@),
    {
        self.is_all_same_suit()
    }

    /// A straight whose cards all share one suit.
    pub fn is_straight_flush(&self) -> (r: bool)
        ensures
            r == (spec_is_straight(self.cards@) && spec_is_flush(self.cards@)),
    {
        self.is_straight() && self.is_flush()
    }

    /// Two distinct ranks, one of them held by four cards.
    pub fn is_four_of_a_kind(&self) -> (r: bool)
        ensures
            r == (distinct_ranks(self.cards@).len() == 2 && max_multiplicity(self.cards@) == 4),
    {
        self.rank_sets().len() == 2 && self.most_common_rank_size() == 4
    }

    /// Two distinct ranks, one of them held by three cards.
    pub fn is_full_house(&self) -> (r: bool)
        ensures
            r == (distinct_ranks(self.cards@).len() == 2 && max_multiplicity(self.cards@) == 3),
    {
        self.rank_sets().len() == 2 && self.most_common_rank_size() == 3
    }

    /// Three distinct ranks, one of them held by three cards.
    pub fn is_three_of_a_kind(&self) -> (r: bool)
        ensures
            r == (distinct_ranks(self.cards@).len() == 3 && max_multiplicity(self.cards@) == 3),
    {
        self.rank_sets().len() == 3 && self.most_common_rank_size() == 3
    }

    /// Three distinct ranks, two of them held by two cards each.
    pub fn is_two_pair(&self) -> (r: bool)
        ensures
            r == (distinct_ranks(self.cards@).len() == 3 && max_multiplicity(self.cards@) == 2),
    {
        self.rank_sets().len() == 3 && self.most_common_rank_size() == 2
    }

    /// Four distinct ranks: one rank is held by two cards.
    pub fn is_pair(&self) -> (r: bool)
        ensures
            r == (distinct_ranks(self.cards@).len() == 4),
    {
        self.rank_sets().len() == 4
    }

    /// The category of the hand.
    pub fn rank(&self) -> (r: HandRank)
        ensures
            r == category(self.cards@),
    {
        if self.is_straight_flush() {
            HandRank::StraightFlush
        } else if self.is_four_of_a_kind() {
            HandRank::FourOfAKind
        } else if self.is_full_house() {
            HandRank::FullHouse
        } else if self.is_flush() {
            HandRank::Flush
        } else if self.is_straight() {
            HandRank::Straight
        } else if self.is_three_of_a_kind() {
            HandRank::ThreeOfAKind
        } else if self.is_two_pair() {
            HandRank::TwoPair
        } else if self.is_pair() {
            HandRank::Pair
        } else {
            HandRank::HighCard
        }
    }

    /// The tiebreak fields that order hands of one category.
    pub fn value(&self) -> (v: [i64; 9])
        ensures
            ints(v@) == tiebreak(self.cards@),
    {
        if self.is_wraparound_straight() {
            let v = [0, 0, 0, 0, 5, 4, 3, 2, 1];
            proof {
                assert(ints(v@) =~= tiebreak(self.cards@));
            }
            return v;
        }
        let counts = self.rank_sizes();
        let four_rank = self.top_with_count(&counts, 4, 15);
        let three_rank = self.top_with_count(&counts, 3, 15);
        let pair_high = self.top_with_count(&counts, 2, 15);
        let pair_low = self.top_with_count(&counts, 2, pair_high);
        let s5 = self.top_with_count(&counts, 1, 15);
        let s4 = self.top_with_count(&counts, 1, s5);
        let s3 = self.top_with_count(&counts, 1, s4);
        let s2 = self.top_with_count(&counts, 1, s3);
        let s1 = self.top_with_count(&counts, 1, s2);
        let v = [four_rank, three_rank, pair_high, pair_low, s5, s4, s3, s2, s1];
        proof {
            assert(ints(v@) =~= tiebreak(self.cards@));
        }
        v
    }

    /// The hand's order key: category severity, then the tiebreak fields.
    pub open spec fn spec_key(self) -> Seq<int> {
        order_key(self.cards@)
    }

    /// How this hand compares with another in poker strength.
    pub open spec fn spec_cmp(self, other: Hand) -> Ordering {
        lex_cmp(self.spec_key(), other.spec_key())
    }

    /// The order key, as machine integers.
    pub fn key(&self) -> (k: Vec<i64>)
        ensures
            ints(k@) == self.spec_key(),
            k@.len() == 10,
    {
        let mut k: Vec<i64> = Vec::new();
        k.push(self.rank().value());
        let v = self.value();
        let mut i: usize = 0;
        while i < 9
            invariant
                i <= 9,
                ints(v@) == tiebreak(self.cards@),
                ints(k@) == seq![category(self.cards@).spec_value()] + ints(v@).take(i as int),
            decreases 9 - i,
        {
            let ghost before = k@;
            k.push(v[i]);
            proof {
                assert(ints(k@) =~= ints(before).push(v[i as int] as int));
                assert(ints(v@).take(i as int + 1) =~= ints(v@).take(i as int).push(
                    v[i as int] as int,
                ));
            }
            i = i + 1;
            proof {
                assert(ints(k@) =~= seq![category(self.cards@).spec_value()] + ints(v@).take(
                    i as int,
                ));
            }
        }
        proof {
            assert(ints(v@).take(9) =~= ints(v@));
        }
        k
    }

    /// Compares two hands: by category first, then by the tiebreak fields.
    pub fn compare(&self, other: &Hand) -> (r: Ordering)
        ensures
            r == self.spec_cmp(*other),
    {
        let a = self.key();
        let b = other.key();
        compare_keys(&a, &b)
    }
}

/// A hand of a stronger category beats any hand of a weaker one, whatever
/// their tiebreak fields.
pub proof fn lemma_category_dominates(a: Hand, b: Hand)
    requires
        category(a.cards@).spec_value() > category(b.cards@).spec_value(),
    ensures
        a.spec_cmp(b) == Ordering::Greater,
        b.spec_cmp(a) == Ordering::Less,
{
    assert(a.spec_key()[0] == category(a.cards@).spec_value());
    assert(b.spec_key()[0] == category(b.cards@).spec_value());
}

/// Hands with the same category and the same tiebreak fields tie, whatever
/// their suits.
pub proof fn lemma_same_fields_tie(a: Hand, b: Hand)
    requires
        category(a.cards@) == category(b.cards@),
        tiebreak(a.cards@) == tiebreak(b.cards@),
    ensures
        a.spec_cmp(b) == Ordering::Equal,
        a.spec_key() == b.spec_key(),
{
    lemma_lex_cmp_equal(a.spec_key(), b.spec_key());
}

/// Hands are totally ordered by strength: the comparison is reflexive,
/// antisymmetric and transitive.
pub proof fn lemma_cmp_total_order(a: Hand, b: Hand, c: Hand)
    ensures
        a.spec_cmp(a) == Ordering::Equal,
        a.spec_cmp(b) == Ordering::Less <==> b.spec_cmp(a) == Ordering::Greater,
        a.spec_cmp(b) == Ordering::Equal <==> b.spec_cmp(a) == Ordering::Equal,
        a.spec_cmp(b) == Ordering::Equal <==> a.spec_key() == b.spec_key(),
        a.spec_cmp(b) != Ordering::Greater && b.spec_cmp(c) != Ordering::Greater ==> a.spec_cmp(c)
            != Ordering::Greater,
        a.spec_cmp(b) == Ordering::Less && b.spec_cmp(c) != Ordering::Greater ==> a.spec_cmp(c)
            == Ordering::Less,
        a.spec_cmp(b) != Ordering::Greater && b.spec_cmp(c) == Ordering::Less ==> a.spec_cmp(c)
            == Ordering::Less,
{
    lemma_lex_cmp_equal(a.spec_key(), a.spec_key());
    lemma_lex_cmp_equal(a.spec_key(), b.spec_key());
    lemma_lex_cmp_antisymmetric(a.spec_key(), b.spec_key());
    if a.spec_cmp(b) != Ordering::Greater && b.spec_cmp(c) != Ordering::Greater {
        lemma_lex_cmp_transitive(a.spec_key(), b.spec_key(), c.spec_key());
    }
}

impl PartialEq for Hand {
    /// Hands are equal when they tie: same category and same tiebreak fields.
    fn eq(&self, other: &Hand) -> (r: bool) {
        let r = matches!(self.compare(other), Ordering::Equal);
        proof {
            lemma_lex_cmp_equal(self.spec_key(), other.spec_key());
        }
        r
    }
}

impl vstd::std_specs::cmp::PartialEqSpecImpl for Hand {
    open spec fn obeys_eq_spec() -> bool {
        true
    }

    open spec fn eq_spec(&self, other: &Hand) -> bool {
        self.spec_key() == other.spec_key()
    }
}

impl Eq for Hand {}

impl PartialOrd for Hand {
    fn partial_cmp(&self, other: &Hand) -> (r: Option<Ordering>) {
        Some(self.compare(other))
    }
}

impl vstd::std_specs::cmp::PartialOrdSpecImpl for Hand {
    open spec fn obeys_partial_cmp_spec() -> bool {
        true
    }

    open spec fn partial_cmp_spec(&self, other: &Hand) -> Option<Ordering> {
        Some(self.spec_cmp(*other))
    }
}

} // verus!

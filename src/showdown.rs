use core::cmp::Ordering;
use vstd::prelude::*;

use crate::card::Card;
use crate::error::ParseError;
use crate::hand::{lemma_cmp_total_order, parse_hand, Hand};
use crate::split::{split_chars, split_on, views_of};

verus! {

/// Reads hands one after another; the first that cannot be read gives its
/// error.
pub open spec fn parse_hands(texts: Seq<Seq<char>>) -> Result<Seq<Seq<Card>>, ParseError>
    decreases texts.len(),
{
    if texts.len() == 0 {
        Ok(seq![])
    } else {
        match parse_hands(texts.drop_last()) {
            Err(e) => Err(e),
            Ok(hands) => match parse_hand(texts.last()) {
                Err(e) => Err(e),
                Ok(cards) => Ok(hands.push(cards)),
            },
        }
    }
}

/// What reading a line of competing hands gives: the line is split at each
/// `|` and every piece is read as a hand.
pub open spec fn parse_line_spec(line: Seq<char>) -> Result<Seq<Seq<Card>>, ParseError> {
    parse_hands(split_chars(line, '|'))
}

/// Hand `i` is at least as strong as every hand in `hands`.
pub open spec fn is_strongest(hands: Seq<Hand>, i: int) -> bool {
    forall|j: int| 0 <= j < hands.len() ==> #[trigger] hands[j].spec_cmp(hands[i]) != Ordering::Greater
}

proof fn lemma_parse_hands_err_extends(texts: Seq<Seq<char>>, i: int, e: ParseError)
    requires
        0 <= i <= texts.len(),
        parse_hands(texts.take(i)) == Err::<Seq<Seq<Card>>, ParseError>(e),
    ensures
        parse_hands(texts) == Err::<Seq<Seq<Card>>, ParseError>(e),
    decreases texts.len() - i,
{
    if i == texts.len() {
        assert(texts.take(i) =~= texts);
    } else {
        assert(texts.take(i + 1).drop_last() =~= texts.take(i));
        lemma_parse_hands_err_extends(texts, i + 1, e);
    }
}

/// Reads a line of hands separated by `|`, such as
/// `"2C 3C 4C 5C 6C|AS AD AH AC 2D"`.
pub fn parse_line(line: &str) -> (r: Result<Vec<Hand>, ParseError>)
    ensures
        match r {
            Ok(hands) => parse_line_spec(line@) is Ok && hands@.len() == parse_line_spec(
                line@,
            )->Ok_0.len() && forall|i: int|
                0 <= i < hands@.len() ==> #[trigger] hands@[i].cards@ == parse_line_spec(
                    line@,
                )->Ok_0[i],
            Err(e) => parse_line_spec(line@) == Err::<Seq<Seq<Card>>, ParseError>(e),
        },
{
    let pieces = split_on(line, '|');
    let ghost texts = views_of(pieces@);
    let mut hands: Vec<Hand> = Vec::new();
    let ghost mut parsed: Seq<Seq<Card>> = seq![];
    let mut i: usize = 0;
    proof {
        assert(texts.take(0) =~= Seq::empty());
    }
    while i < pieces.len()
        invariant
            i <= pieces@.len() == texts.len(),
            texts == views_of(pieces@),
            texts == split_chars(line@, '|'),
            parse_hands(texts.take(i as int)) == Ok::<Seq<Seq<Card>>, ParseError>(parsed),
            hands@.len() == parsed.len(),
            forall|k: int| 0 <= k < hands@.len() ==> #[trigger] hands@[k].cards@ == parsed[k],
        decreases pieces@.len() - i,
    {
        let ghost prefix = texts.take(i as int + 1);
        proof {
            assert(prefix.drop_last() =~= texts.take(i as int));
            assert(prefix.last() == pieces@[i as int]@);
        }
        match Hand::parse(pieces[i]) {
            Ok(h) => {
                hands.push(h);
                proof {
                    parsed = parsed.push(h.cards@);
                }
            },
            Err(e) => {
                proof {
                    lemma_parse_hands_err_extends(texts, i as int + 1, e);
                }
                return Err(e);
            },
        }
        i = i + 1;
    }
    proof {
        assert(texts.take(i as int) =~= texts);
    }
    Ok(hands)
}

/// The positions, ascending, of every hand that no other hand beats: the
/// winner, or all co-winners on a tie.
pub fn winners(hands: &Vec<Hand>) -> (r: Vec<usize>)
    ensures
        forall|k: int| 0 <= k < r@.len() ==> #[trigger] r@[k] < hands@.len(),
        forall|k: int, l: int| 0 <= k < l < r@.len() ==> r@[k] < r@[l],
        forall|i: int| 0 <= i < hands@.len() ==> (r@.contains(i as usize) <==> is_strongest(hands@, i)),
        hands@.len() > 0 ==> r@.len() > 0,
{
    let n = hands.len();
    let mut r: Vec<usize> = Vec::new();
    if n == 0 {
        return r;
    }
    let mut best: usize = 0;
    let mut i: usize = 1;
    proof {
        lemma_cmp_total_order(hands@[0], hands@[0], hands@[0]);
    }
    while i < n
        invariant
            n == hands@.len(),
            best < i <= n,
            forall|j: int| 0 <= j < i ==> #[trigger] hands@[j].spec_cmp(hands@[best as int]) != Ordering::Greater,
        decreases n - i,
    {
        if matches!(hands[i].compare(&hands[best]), Ordering::Greater) {
            proof {
                assert forall|j: int| 0 <= j < i + 1 implies #[trigger] hands@[j].spec_cmp(
                    hands@[i as int],
                ) != Ordering::Greater by {
                    lemma_cmp_total_order(hands@[j], hands@[best as int], hands@[i as int]);
                    lemma_cmp_total_order(hands@[i as int], hands@[best as int], hands@[j]);
                    lemma_cmp_total_order(hands@[i as int], hands@[i as int], hands@[i as int]);
                }
            }
            best = i;
        }
        i = i + 1;
    }
    let mut i: usize = 0;
    while i < n
        invariant
            n == hands@.len(),
            best < n,
            forall|j: int| 0 <= j < n ==> #[trigger] hands@[j].spec_cmp(hands@[best as int]) != Ordering::Greater,
            i <= n,
            forall|k: int| 0 <= k < r@.len() ==> #[trigger] r@[k] < i,
            forall|k: int, l: int| 0 <= k < l < r@.len() ==> r@[k] < r@[l],
            forall|m: int| 0 <= m < i ==> (r@.contains(m as usize) <==> is_strongest(hands@, m)),
            best < i ==> r@.len() > 0,
        decreases n - i,
    {
        let ghost before = r@;
        let tie = matches!(hands[i].compare(&hands[best]), Ordering::Equal);
        proof {
            if tie {
                assert forall|j: int| 0 <= j < n implies #[trigger] hands@[j].spec_cmp(
                    hands@[i as int],
                ) != Ordering::Greater by {
                    lemma_cmp_total_order(hands@[j], hands@[best as int], hands@[i as int]);
                    lemma_cmp_total_order(hands@[i as int], hands@[best as int], hands@[j]);
                }
            } else {
                lemma_cmp_total_order(hands@[i as int], hands@[best as int], hands@[i as int]);
                assert(hands@[best as int].spec_cmp(hands@[i as int]) == Ordering::Greater);
                assert(!is_strongest(hands@, i as int));
            }
        }
        if tie {
            r.push(i);
        }
        proof {
            assert forall|m: int| 0 <= m < i + 1 implies (r@.contains(m as usize) <==> is_strongest(
                hands@,
                m,
            )) by {
                if m < i {
                    if before.contains(m as usize) {
                        let k = choose|k: int| 0 <= k < before.len() && before[k] == m as usize;
                        assert(r@[k] == m as usize);
                    }
                    if r@.contains(m as usize) {
                        let k = choose|k: int| 0 <= k < r@.len() && r@[k] == m as usize;
                        if k < before.len() {
                            assert(before[k] == m as usize);
                        }
                    }
                } else {
                    if tie {
                        assert(r@[r@.len() - 1] == i);
                    } else {
                        if r@.contains(m as usize) {
                            let k = choose|k: int| 0 <= k < r@.len() && r@[k] == m as usize;
                        }
                    }
                }
            }
        }
        i = i + 1;
    }
    r
}

} // verus!

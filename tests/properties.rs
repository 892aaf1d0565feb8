use poker::showdown::{parse_line, winners};
use poker::split::split_on;
use poker::{Card, Hand, HandRank, ParseError, Rank, Suit};

#[test]
fn every_valid_card_token_round_trips() {
    for r in "23456789TJQKA".chars() {
        for s in "CDHS".chars() {
            let token = format!("{}{}", r, s);
            let card = Card::parse(&token).unwrap();
            assert_eq!(card.to_string(), token);
        }
    }
}

#[test]
fn card_parse_errors_by_variant() {
    assert_eq!(Card::parse(""), Err(ParseError::NoRankFound));
    assert_eq!(Card::parse("8"), Err(ParseError::NoSuitFound));
    assert_eq!(Card::parse("1C"), Err(ParseError::InvalidRank));
    assert_eq!(Card::parse("9P"), Err(ParseError::InvalidSuit));
    assert_eq!(Card::parse("as"), Err(ParseError::InvalidRank));
    assert_eq!(Card::parse("Ac"), Err(ParseError::InvalidSuit));
}

#[test]
fn card_parse_ignores_characters_after_the_second() {
    let card = Card::parse("QDX").unwrap();
    assert_eq!(card, Card { rank: Rank::Queen, suit: Suit::Diamonds });
}

#[test]
fn hand_parse_errors() {
    assert_eq!(Hand::parse("2C 2D 6C 9H").unwrap_err(), ParseError::WrongLength);
    assert_eq!(Hand::parse("2C 2D 6C 9H KS KD").unwrap_err(), ParseError::WrongLength);
    assert_eq!(Hand::parse("").unwrap_err(), ParseError::NoRankFound);
    assert_eq!(Hand::parse("2C 2D  6C 9H AS").unwrap_err(), ParseError::NoRankFound);
    assert_eq!(Hand::parse("2C 2D 6C 9H 1S").unwrap_err(), ParseError::InvalidRank);
    assert_eq!(Hand::parse("2C 2X 6C").unwrap_err(), ParseError::InvalidSuit);
    assert_eq!(Hand::parse("2C 2X 6C 1H AS").unwrap_err(), ParseError::InvalidSuit);
    assert_eq!(Hand::parse("2C 2D 6C 9H AS 4").unwrap_err(), ParseError::NoSuitFound);
}

#[test]
fn hand_render_round_trip() {
    for text in ["2C 2D 6C 9H AS", "TC JC QC KC AC", "AD 2D 3D 4D 5D", "3C 3H 3C KD KS"] {
        let hand = Hand::parse(text).unwrap();
        assert_eq!(hand.to_string(), text);
        let again = Hand::parse(&hand.to_string()).unwrap();
        assert_eq!(again.cards, hand.cards);
        assert!(again == hand);
    }
}

#[test]
fn tiebreak_fields() {
    assert_eq!(Hand::parse("5C 5S KC 5D KS").unwrap().value(), [0, 5, 13, 0, 0, 0, 0, 0, 0]);
    assert_eq!(Hand::parse("5C 5S KC 5D 5H").unwrap().value(), [5, 0, 0, 0, 13, 0, 0, 0, 0]);
    assert_eq!(Hand::parse("2C 5S 9C 5D 9S").unwrap().value(), [0, 0, 9, 5, 2, 0, 0, 0, 0]);
    assert_eq!(Hand::parse("2C 2S 9C 5D 6S").unwrap().value(), [0, 0, 2, 0, 9, 6, 5, 0, 0]);
    assert_eq!(Hand::parse("2C JS 9C 5D 6S").unwrap().value(), [0, 0, 0, 0, 11, 9, 6, 5, 2]);
    assert_eq!(Hand::parse("AC 3C 4C 5D 2S").unwrap().value(), [0, 0, 0, 0, 5, 4, 3, 2, 1]);
    assert_eq!(Hand::parse("6C 3C 4C 5D 2S").unwrap().value(), [0, 0, 0, 0, 6, 5, 4, 3, 2]);
}

#[test]
fn order_key_and_compare() {
    let full_house = Hand::parse("5C 5S KC 5D KS").unwrap();
    assert_eq!(full_house.key(), vec![6, 0, 5, 13, 0, 0, 0, 0, 0, 0]);
    let wheel = Hand::parse("AD 2D 3D 4D 5D").unwrap();
    let six_high = Hand::parse("2H 3H 4H 5H 6H").unwrap();
    assert_eq!(wheel.compare(&six_high), std::cmp::Ordering::Less);
    assert_eq!(six_high.compare(&wheel), std::cmp::Ordering::Greater);
    assert_eq!(wheel.compare(&wheel), std::cmp::Ordering::Equal);
}

#[test]
fn category_dominates_tiebreak() {
    let low_pair = Hand::parse("2C 2S 3C 4D 5S").unwrap();
    let ace_high = Hand::parse("AC KS QC JD 9S").unwrap();
    assert!(low_pair > ace_high);
    let low_flush = Hand::parse("2C 3C 4C 5C 7C").unwrap();
    let ace_straight = Hand::parse("TC JD QC KH AS").unwrap();
    assert!(low_flush > ace_straight);
}

#[test]
fn ordering_scenarios() {
    let ace_high = Hand::parse("TC JC QC KC AC").unwrap();
    let king_high = Hand::parse("KS JS QS 9S TS").unwrap();
    let wheel = Hand::parse("AD 2D 3D 4D 5D").unwrap();
    assert!(ace_high > king_high && king_high > wheel);
    let sixes = Hand::parse("6C 6S 6H 8D 8S").unwrap();
    let threes_kings = Hand::parse("3C 3H 3S KD KS").unwrap();
    let threes_fives = Hand::parse("3C 3H 3S 5D 5S").unwrap();
    assert!(sixes > threes_kings && threes_kings > threes_fives);
}

#[test]
fn ties_ignore_suits() {
    let a = Hand::parse("2C 3C 6C 9C AC").unwrap();
    let b = Hand::parse("KD AS 2C 6D QS").unwrap();
    assert!(a > b);
    assert!(a != b);
    let c = Hand::parse("4H 5C 9D KS JS").unwrap();
    let d = Hand::parse("4D 5S 9C KH JD").unwrap();
    assert!(c == d);
    assert!(!(c < d) && !(c > d));
    let e = Hand::parse("2H 3H 6H 9H AH").unwrap();
    assert!(a == e);
}

#[test]
fn predicates() {
    let wheel = Hand::parse("AC 3C 4C 5D 2S").unwrap();
    assert!(wheel.is_wraparound_straight());
    assert!(!wheel.is_all_consecutive());
    assert!(wheel.is_straight());
    assert!(!wheel.is_flush());
    assert_eq!(wheel.rank_sets(), vec![2, 3, 4, 5, 14]);
    let pair = Hand::parse("2C 2S 9C 5D 6S").unwrap();
    assert_eq!(pair.rank_sets(), vec![2, 5, 6, 9]);
    assert_eq!(pair.most_common_rank_size(), 2);
    assert!(pair.is_pair());
    let sizes = pair.rank_sizes();
    assert_eq!(sizes.len(), 15);
    assert_eq!(sizes[2], 2);
    assert_eq!(sizes[9], 1);
    assert_eq!(sizes[14], 0);
    let quads = Hand::parse("5C 5S KC 5D 5H").unwrap();
    assert_eq!(quads.most_common_rank_size(), 4);
    assert!(quads.is_four_of_a_kind());
    assert!(!quads.is_full_house());
}

#[test]
fn values_and_names() {
    assert_eq!(Rank::Two.value(), 2);
    assert_eq!(Rank::Ten.value(), 10);
    assert_eq!(Rank::Ace.value(), 14);
    assert_eq!(Rank::from_char('J'), Some(Rank::Jack));
    assert_eq!(Rank::from_char('1'), None);
    assert_eq!(Suit::from_char('H'), Some(Suit::Hearts));
    assert_eq!(Suit::from_char('h'), None);
    assert_eq!(Rank::Queen.symbol(), 'Q');
    assert_eq!(Suit::Spades.text(), "S");
    assert_eq!(HandRank::HighCard.value(), 0);
    assert_eq!(HandRank::FullHouse.value(), 6);
    assert_eq!(HandRank::StraightFlush.value(), 8);
    assert_eq!(HandRank::Pair.name(), "One Pair");
    assert_eq!(HandRank::ThreeOfAKind.name(), "Three of a Kind");
    assert_eq!(ParseError::WrongLength.message(), "Wrong Length!");
}

#[test]
fn splitting() {
    let pieces = split_on("a b  c", ' ');
    assert_eq!(pieces, vec!["a", "b", "", "c"]);
    assert_eq!(split_on("", '|'), vec![""]);
    assert_eq!(split_on("x|", '|'), vec!["x", ""]);
}

#[test]
fn line_winners() {
    let hands = parse_line("2C 3C 6C 9C AC|KD AS 2C 6D QS|2H 3H 6H 9H AH").unwrap();
    assert_eq!(hands.len(), 3);
    assert_eq!(winners(&hands), vec![0, 2]);
    let hands = parse_line("4H 5C 9D KS JS|TC TS TH TD 2S").unwrap();
    assert_eq!(winners(&hands), vec![1]);
    assert_eq!(hands[1].rank(), HandRank::FourOfAKind);
    assert_eq!(winners(&Vec::new()), Vec::<usize>::new());
    assert_eq!(parse_line("2C 3C 6C 9C AC|KD AS").unwrap_err(), ParseError::WrongLength);
    assert_eq!(parse_line("2C 3C 6C 9C AC | KD AS 2C 6D QS").unwrap_err(), ParseError::NoRankFound);
}

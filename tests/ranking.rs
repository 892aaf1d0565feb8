use poker::{Hand, HandRank};

#[test]
fn test_high_card() {
    let hand = Hand::parse("2C JS 9C 5D 6S").unwrap();
    assert_eq!(HandRank::HighCard, hand.rank());
}

#[test]
fn test_pair() {
    let hand = Hand::parse("2C 2S 9C 5D 6S").unwrap();
    assert_eq!(HandRank::Pair, hand.rank());
}

#[test]
fn test_two_pair() {
    let hand = Hand::parse("2C 5S 9C 5D 9S").unwrap();
    assert_eq!(HandRank::TwoPair, hand.rank());
}

#[test]
fn test_three_of_a_kind() {
    let hand = Hand::parse("5C 5S KC 5D 9S").unwrap();
    assert_eq!(HandRank::ThreeOfAKind, hand.rank());
}

#[test]
fn straight_when_all_consecutive() {
    let hand = Hand::parse("6C 3C 4C 5D 2S").unwrap();
    assert_eq!(HandRank::Straight, hand.rank());
}

#[test]
fn wraparound_straight() {
    let hand = Hand::parse("AC 3C 4C 5D 2S").unwrap();
    assert_eq!(HandRank::Straight, hand.rank());
}

#[test]
fn flush_when_all_suits_the_same() {
    let hand = Hand::parse("2C 3C 6C 9C AC").unwrap();
    assert_eq!(HandRank::Flush, hand.rank());
}

#[test]
fn test_full_house() {
    let hand = Hand::parse("5C 5S KC 5D KS").unwrap();
    assert_eq!(HandRank::FullHouse, hand.rank());
}

#[test]
fn test_four_of_a_kind() {
    let hand = Hand::parse("5C 5S KC 5D 5H").unwrap();
    assert_eq!(HandRank::FourOfAKind, hand.rank());
}

#[test]
fn test_straight_flush() {
    let hand = Hand::parse("3S 5S 4S 7S 6S").unwrap();
    assert_eq!(HandRank::StraightFlush, hand.rank());
}

#[test]
fn test_wraparound_straight_flush() {
    let hand = Hand::parse("3S 5S 4S AS 2S").unwrap();
    assert_eq!(HandRank::StraightFlush, hand.rank());
}

#[test]
fn test_comparison_of_different_hands() {
    let straight_flush = Hand::parse("3S 5S 4S AS 2S").unwrap();
    let four_of_a_kind = Hand::parse("5C 5S KC 5D 5H").unwrap();
    let full_house = Hand::parse("5C 5S KC 5D KS").unwrap();
    let flush = Hand::parse("2C 3C 6C 9C AC").unwrap();
    let straight = Hand::parse("6C 3C 4C 5D 2S").unwrap();
    let three_of_a_kind = Hand::parse("5C 5S KC 5D 9S").unwrap();
    let two_pair = Hand::parse("2C 5S 9C 5D 9S").unwrap();
    let pair = Hand::parse("2C 2S 9C 5D 6S").unwrap();
    let high_card = Hand::parse("2C JS 9C 5D 6S").unwrap();

    assert!(straight_flush > four_of_a_kind);
    assert!(four_of_a_kind > full_house);
    assert!(full_house > flush);
    assert!(flush > straight);
    assert!(straight > three_of_a_kind);
    assert!(three_of_a_kind > two_pair);
    assert!(two_pair > pair);
    assert!(pair > high_card);
}

#[test]
fn test_comparison_of_different_straight_flushes() {
    let ace_high = Hand::parse("TC JC QC KC AC").unwrap();
    let king_high = Hand::parse("KS JS QS 9S TS").unwrap();
    let five_high = Hand::parse("AD 2D 3D 4D 5D").unwrap();

    assert!(ace_high > king_high);
    assert!(king_high > five_high);
}

#[test]
fn test_comparison_of_different_straights() {
    let ace_high_straight = Hand::parse("TC JC QC KD AS").unwrap();
    let king_high_straight = Hand::parse("KC JC QC 9D TS").unwrap();
    let five_high_straight = Hand::parse("AC 2C 3C 4D 5S").unwrap();

    assert!(ace_high_straight > king_high_straight);
    assert!(king_high_straight > five_high_straight);
}

#[test]
fn test_comparison_of_different_four_of_a_kind() {
    let four_tens = Hand::parse("TC TS TH TD 2S").unwrap();
    let four_nines = Hand::parse("9C 9S 9H 9D AS").unwrap();

    assert!(four_tens > four_nines);
}

#[test]
fn test_comparison_of_different_full_houses() {
    let threes_full_of_kings = Hand::parse("3C 3H 3C KD KS").unwrap();
    let threes_full_of_fives = Hand::parse("3C 3H 3C 5D 5S").unwrap();
    let sixes_full_of_eights = Hand::parse("6C 6S 6H 8D 8S").unwrap();

    assert!(sixes_full_of_eights > threes_full_of_kings);
    assert!(threes_full_of_kings > threes_full_of_fives);
}

#[test]
fn test_comparison_of_high_card() {
    let king_high = Hand::parse("4H 5C 9D KS JS").unwrap();
    let nine_high = Hand::parse("4H 5C 9D 6S 2S").unwrap();

    let h1 = Hand::parse("4D JH KD 2C 7D").unwrap();
    let h2 = Hand::parse("5C 4C KC 2D JC").unwrap();

    assert!(king_high > nine_high);
    assert!(h1 > h2);
}

#[test]
fn test_comparison_of_flush_vs_non_flush() {
    let flush = Hand::parse("2H QH 6H KH AH").unwrap();
    let non_flush = Hand::parse("KD AS 2C 6D QS").unwrap();

    assert!(flush > non_flush);
    assert_ne!(flush, non_flush);
}

use poker::{Card, Hand, Rank, Suit};

#[test]
fn hand_hand_contains_five_cards() {
    let hand = Hand {
        cards: [
            Card::parse("2C").unwrap(),
            Card::parse("2D").unwrap(),
            Card::parse("6C").unwrap(),
            Card::parse("9H").unwrap(),
            Card::parse("AS").unwrap(),
        ],
    };

    assert_eq!(Rank::Two, hand.cards[0].rank);
    assert_eq!(Rank::Two, hand.cards[1].rank);
    assert_eq!(Rank::Six, hand.cards[2].rank);
    assert_eq!(Rank::Nine, hand.cards[3].rank);
    assert_eq!(Rank::Ace, hand.cards[4].rank);

    assert_eq!(Suit::Clubs, hand.cards[0].suit);
    assert_eq!(Suit::Diamonds, hand.cards[1].suit);
    assert_eq!(Suit::Clubs, hand.cards[2].suit);
    assert_eq!(Suit::Hearts, hand.cards[3].suit);
    assert_eq!(Suit::Spades, hand.cards[4].suit);
}

#[test]
fn hand_hand_parses_correctly() {
    let hand = Hand::parse("2C 2D 6C 9H AS").unwrap();

    assert_eq!(Rank::Two, hand.cards[0].rank);
    assert_eq!(Rank::Two, hand.cards[1].rank);
    assert_eq!(Rank::Six, hand.cards[2].rank);
    assert_eq!(Rank::Nine, hand.cards[3].rank);
    assert_eq!(Rank::Ace, hand.cards[4].rank);

    assert_eq!(Suit::Clubs, hand.cards[0].suit);
    assert_eq!(Suit::Diamonds, hand.cards[1].suit);
    assert_eq!(Suit::Clubs, hand.cards[2].suit);
    assert_eq!(Suit::Hearts, hand.cards[3].suit);
    assert_eq!(Suit::Spades, hand.cards[4].suit);
}

#[test]
fn hand_hand_parse_with_4_cards() {
    match Hand::parse("2C 2D 6C 9H") {
        Ok(_) => assert!(false, "4 cards should not succeed"),
        Err(msg) => assert_eq!(msg.message(), "Wrong Length!"),
    }
}

#[test]
fn hand_hand_parse_with_6_cards() {
    match Hand::parse("2C 2D 6C 9H KS KD") {
        Ok(_) => assert!(false, "6 cards should not succeed"),
        Err(msg) => assert_eq!(msg.message(), "Wrong Length!"),
    }
}

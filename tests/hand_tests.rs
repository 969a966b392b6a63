use jimbo::{Card, Hand, HandType, Rank, Suit};

fn c(rank: Rank, suit: Suit) -> Card {
    Card::new(rank, suit)
}

#[test]
fn test_hand_type_values() {
    assert_eq!(HandType::Pair.base_chips(), 10);
    assert_eq!(HandType::Pair.base_mult(), 2);
    assert_eq!(HandType::Flush.base_chips(), 35);
    assert_eq!(HandType::Flush.base_mult(), 4);
}

#[test]
fn test_pair_evaluation() {
    let cards = vec![
        Card::new(Rank::Ace, Suit::Hearts),
        Card::new(Rank::Ace, Suit::Spades),
        Card::new(Rank::King, Suit::Hearts),
    ];
    let hand = Hand::new(cards);
    assert_eq!(hand.evaluate(), HandType::Pair);
}

#[test]
fn test_flush_evaluation() {
    let cards = vec![
        Card::new(Rank::Two, Suit::Hearts),
        Card::new(Rank::Five, Suit::Hearts),
        Card::new(Rank::Seven, Suit::Hearts),
        Card::new(Rank::Nine, Suit::Hearts),
        Card::new(Rank::King, Suit::Hearts),
    ];
    let hand = Hand::new(cards);
    assert_eq!(hand.evaluate(), HandType::Flush);
}

#[test]
fn empty_hand_is_high_card() {
    assert_eq!(Hand::new(vec![]).evaluate(), HandType::HighCard);
}

#[test]
fn flush_and_straight_is_straight_flush() {
    let hand = Hand::new(vec![
        c(Rank::Nine, Suit::Clubs),
        c(Rank::Ten, Suit::Clubs),
        c(Rank::Jack, Suit::Clubs),
        c(Rank::Queen, Suit::Clubs),
        c(Rank::King, Suit::Clubs),
    ]);
    assert_eq!(hand.evaluate(), HandType::StraightFlush);
}

#[test]
fn ace_low_straight() {
    let hand = Hand::new(vec![
        c(Rank::Ace, Suit::Clubs),
        c(Rank::Two, Suit::Hearts),
        c(Rank::Three, Suit::Clubs),
        c(Rank::Four, Suit::Spades),
        c(Rank::Five, Suit::Clubs),
    ]);
    assert_eq!(hand.evaluate(), HandType::Straight);
}

#[test]
fn four_cards_are_never_a_flush_or_straight() {
    let hand = Hand::new(vec![
        c(Rank::Two, Suit::Clubs),
        c(Rank::Three, Suit::Clubs),
        c(Rank::Four, Suit::Clubs),
        c(Rank::Five, Suit::Clubs),
    ]);
    assert_eq!(hand.evaluate(), HandType::HighCard);
}

#[test]
fn counted_hand_types() {
    let two_pair = Hand::new(vec![
        c(Rank::Two, Suit::Clubs),
        c(Rank::Two, Suit::Hearts),
        c(Rank::Nine, Suit::Clubs),
        c(Rank::Nine, Suit::Spades),
    ]);
    assert_eq!(two_pair.evaluate(), HandType::TwoPair);
    let three = Hand::new(vec![
        c(Rank::Two, Suit::Clubs),
        c(Rank::Two, Suit::Hearts),
        c(Rank::Two, Suit::Spades),
    ]);
    assert_eq!(three.evaluate(), HandType::ThreeOfAKind);
    let full = Hand::new(vec![
        c(Rank::Two, Suit::Clubs),
        c(Rank::Two, Suit::Hearts),
        c(Rank::Two, Suit::Spades),
        c(Rank::King, Suit::Spades),
        c(Rank::King, Suit::Hearts),
    ]);
    assert_eq!(full.evaluate(), HandType::FullHouse);
    let four = Hand::new(vec![
        c(Rank::Two, Suit::Clubs),
        c(Rank::Two, Suit::Hearts),
        c(Rank::Two, Suit::Spades),
        c(Rank::Two, Suit::Diamonds),
        c(Rank::King, Suit::Hearts),
    ]);
    assert_eq!(four.evaluate(), HandType::FourOfAKind);
}

#[test]
fn special_hand_types() {
    let five = Hand::new(vec![c(Rank::Seven, Suit::Clubs); 4]
        .into_iter()
        .chain(std::iter::once(c(Rank::Seven, Suit::Hearts)))
        .collect());
    assert_eq!(five.evaluate(), HandType::FiveOfAKind);
    let flush_five = Hand::new(vec![c(Rank::Seven, Suit::Clubs); 5]);
    assert_eq!(flush_five.evaluate(), HandType::FlushFive);
    let flush_house = Hand::new(vec![
        c(Rank::Two, Suit::Clubs),
        c(Rank::Two, Suit::Clubs),
        c(Rank::Two, Suit::Clubs),
        c(Rank::King, Suit::Clubs),
        c(Rank::King, Suit::Clubs),
    ]);
    assert_eq!(flush_house.evaluate(), HandType::FlushHouse);
}

#[test]
fn evaluation_ignores_order() {
    let cards = vec![
        c(Rank::Two, Suit::Clubs),
        c(Rank::King, Suit::Hearts),
        c(Rank::Two, Suit::Spades),
        c(Rank::King, Suit::Spades),
        c(Rank::Two, Suit::Hearts),
    ];
    let mut reversed = cards.clone();
    reversed.reverse();
    assert_eq!(Hand::new(cards).evaluate(), Hand::new(reversed).evaluate());
}

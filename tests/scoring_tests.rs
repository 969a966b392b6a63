use jimbo::{Card, Edition, Enhancement, Hand, HandType, Joker, JokerEdition, JokerKind, Rank, ScoreCalculator, Suit};

#[test]
fn test_basic_scoring() {
    let cards = vec![
        Card::new(Rank::Ace, Suit::Hearts),
        Card::new(Rank::Ace, Suit::Spades),
    ];
    let hand = Hand::new(cards);
    let calculator = ScoreCalculator::new(vec![]);

    let result = calculator.calculate(&hand);

    assert_eq!(result.hand_type, HandType::Pair);
    assert_eq!(result.breakdown.base_chips, 10);
    assert_eq!(result.breakdown.base_mult, 2);
    assert_eq!(result.breakdown.card_chips, 22);
}

#[test]
fn test_scoring_with_joker() {
    let cards = vec![
        Card::new(Rank::King, Suit::Hearts),
        Card::new(Rank::Queen, Suit::Hearts),
    ];
    let hand = Hand::new(cards);
    let jokers = vec![Joker::new(JokerKind::Joker)];
    let calculator = ScoreCalculator::new(jokers);

    let result = calculator.calculate(&hand);

    assert_eq!(result.breakdown.joker_mult, 4);
}

#[test]
fn pair_of_aces_scores_sixty_four() {
    let hand = Hand::new(vec![Card::new(Rank::Ace, Suit::Hearts), Card::new(Rank::Ace, Suit::Spades)]);
    let r = ScoreCalculator::new(vec![]).calculate(&hand);
    assert_eq!(r.hand_type, HandType::Pair);
    assert_eq!(r.chips, 32);
    assert_eq!(r.mult, 2);
    assert_eq!(r.score, 64);
}

#[test]
fn heart_flush_scores_two_hundred_seventy_two() {
    let hand = Hand::new(vec![
        Card::new(Rank::Two, Suit::Hearts),
        Card::new(Rank::Five, Suit::Hearts),
        Card::new(Rank::Seven, Suit::Hearts),
        Card::new(Rank::Nine, Suit::Hearts),
        Card::new(Rank::King, Suit::Hearts),
    ]);
    let r = ScoreCalculator::new(vec![]).calculate(&hand);
    assert_eq!(r.hand_type, HandType::Flush);
    assert_eq!(r.breakdown.card_chips, 33);
    assert_eq!(r.chips, 68);
    assert_eq!(r.mult, 4);
    assert_eq!(r.score, 272);
}

#[test]
fn high_card_with_flat_joker_scores_one_twenty_five() {
    let hand = Hand::new(vec![Card::new(Rank::King, Suit::Hearts), Card::new(Rank::Queen, Suit::Hearts)]);
    let r = ScoreCalculator::new(vec![Joker::new(JokerKind::Joker)]).calculate(&hand);
    assert_eq!(r.hand_type, HandType::HighCard);
    assert_eq!(r.chips, 25);
    assert_eq!(r.mult, 5);
    assert_eq!(r.score, 125);
}

#[test]
fn card_modifiers_add_chips_and_mult() {
    let hand = Hand::new(vec![
        Card::new(Rank::Two, Suit::Hearts).with_enhancement(Enhancement::Bonus),
        Card::new(Rank::Three, Suit::Spades).with_enhancement(Enhancement::Mult),
        Card::new(Rank::Four, Suit::Clubs).with_enhancement(Enhancement::Stone),
        Card::new(Rank::Six, Suit::Clubs).with_edition(Edition::Foil),
        Card::new(Rank::Eight, Suit::Clubs).with_edition(Edition::Holographic),
    ]);
    let r = ScoreCalculator::new(vec![]).calculate(&hand);
    assert_eq!(r.hand_type, HandType::HighCard);
    assert_eq!(r.breakdown.card_chips, 2 + 3 + 4 + 6 + 8 + 30 + 50 + 50);
    assert_eq!(r.breakdown.card_mult, 14);
    assert_eq!(r.chips, 5 + 153);
    assert_eq!(r.mult, 15);
    assert_eq!(r.score, 158 * 15);
}

#[test]
fn joker_editions() {
    let hand = Hand::new(vec![Card::new(Rank::Ace, Suit::Hearts), Card::new(Rank::Ace, Suit::Spades)]);
    let foil = ScoreCalculator::new(vec![Joker::new(JokerKind::GreedyJoker).with_edition(JokerEdition::Foil)]);
    let r = foil.calculate(&hand);
    assert_eq!(r.breakdown.joker_chips, 50);
    assert_eq!(r.chips, 82);
    let holo = ScoreCalculator::new(vec![Joker::new(JokerKind::GreedyJoker).with_edition(JokerEdition::Holographic)]);
    let r = holo.calculate(&hand);
    assert_eq!(r.breakdown.joker_mult, 10);
    assert_eq!(r.mult, 12);
    assert_eq!(r.score, 32 * 12);
}

#[test]
fn polychrome_scales_mult_by_one_and_a_half() {
    let hand = Hand::new(vec![Card::new(Rank::Ace, Suit::Hearts), Card::new(Rank::Ace, Suit::Spades)]);
    let poly = Joker::new(JokerKind::GreedyJoker).with_edition(JokerEdition::Polychrome);
    let one = ScoreCalculator::new(vec![poly]).calculate(&hand);
    assert_eq!(one.breakdown.polychrome_jokers, 1);
    assert_eq!(one.mult, 3);
    assert_eq!(one.score, 96);
    let two = ScoreCalculator::new(vec![poly, poly]).calculate(&hand);
    assert_eq!(two.mult, 4);
    assert_eq!(two.score, 128);
    let three = ScoreCalculator::new(vec![poly, poly, poly]).calculate(&hand);
    assert_eq!(three.mult, 6);
}

#[test]
fn polychrome_mult_saturates() {
    let hand = Hand::new(vec![Card::new(Rank::Ace, Suit::Hearts)]);
    let poly = Joker::new(JokerKind::GreedyJoker).with_edition(JokerEdition::Polychrome);
    let r = ScoreCalculator::new(vec![poly; 200]).calculate(&hand);
    assert_eq!(r.mult, u32::MAX);
    assert_eq!(r.score, r.chips as u64 * u32::MAX as u64);
}

#[test]
fn score_is_chips_times_mult() {
    let hand = Hand::new(vec![Card::new(Rank::Ten, Suit::Hearts), Card::new(Rank::Ten, Suit::Spades), Card::new(Rank::Ten, Suit::Clubs)]);
    let jokers = vec![Joker::new(JokerKind::Joker), Joker::new(JokerKind::Joker).with_edition(JokerEdition::Polychrome)];
    let r = ScoreCalculator::new(jokers).calculate(&hand);
    assert_eq!(r.hand_type, HandType::ThreeOfAKind);
    assert_eq!(r.score, r.chips as u64 * r.mult as u64);
    assert_eq!(r.chips, 60);
    assert_eq!(r.mult, 16);
}

use jimbo::{Card, Edition, Enhancement, Joker, JokerEdition, JokerKind, JokerRarity, Rank, Seal, Suit};

#[test]
fn test_card_creation() {
    let card = Card::new(Rank::Ace, Suit::Hearts);
    assert_eq!(card.rank, Rank::Ace);
    assert_eq!(card.suit, Suit::Hearts);
    assert_eq!(card.enhancement, Enhancement::Base);
}

#[test]
fn test_base_chips() {
    assert_eq!(Card::new(Rank::Ace, Suit::Hearts).base_chips(), 11);
    assert_eq!(Card::new(Rank::King, Suit::Spades).base_chips(), 10);
    assert_eq!(Card::new(Rank::Five, Suit::Diamonds).base_chips(), 5);
}

#[test]
fn card_modifiers_replace_one_slot_each() {
    let card = Card::new(Rank::Two, Suit::Clubs)
        .with_enhancement(Enhancement::Glass)
        .with_edition(Edition::Foil)
        .with_seal(Seal::Red);
    assert_eq!(card.rank, Rank::Two);
    assert_eq!(card.suit, Suit::Clubs);
    assert_eq!(card.enhancement, Enhancement::Glass);
    assert_eq!(card.edition, Edition::Foil);
    assert_eq!(card.seal, Some(Seal::Red));
}

#[test]
fn rank_values_run_from_two_to_fourteen() {
    assert_eq!(Rank::Two.value(), 2);
    assert_eq!(Rank::Ten.value(), 10);
    assert_eq!(Rank::Jack.value(), 11);
    assert_eq!(Rank::Queen.value(), 12);
    assert_eq!(Rank::King.value(), 13);
    assert_eq!(Rank::Ace.value(), 14);
    assert_eq!(Card::new(Rank::Jack, Suit::Hearts).base_chips(), 10);
    assert_eq!(Card::new(Rank::Ten, Suit::Hearts).base_chips(), 10);
}

#[test]
fn test_joker_creation() {
    let joker = Joker::new(JokerKind::Joker);
    assert_eq!(joker.kind, JokerKind::Joker);
    assert_eq!(joker.edition, JokerEdition::Base);
}

#[test]
fn test_base_joker_mult() {
    assert_eq!(JokerKind::Joker.base_mult(), 4);
}

#[test]
fn conditional_jokers_have_no_flat_effect() {
    assert_eq!(JokerKind::GreedyJoker.base_mult(), 0);
    assert_eq!(JokerKind::Baron.base_mult(), 0);
    assert_eq!(JokerKind::Joker.base_chips(), 0);
    let j = Joker::new(JokerKind::Baron)
        .with_edition(JokerEdition::Polychrome)
        .with_rarity(JokerRarity::Rare);
    assert_eq!(j.edition, JokerEdition::Polychrome);
    assert_eq!(j.rarity, JokerRarity::Rare);
}

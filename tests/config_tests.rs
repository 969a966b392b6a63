use jimbo::{BlindConfig, BlindType, CardDefinition, ConfigError, DeckConfig, Edition, Enhancement, GameState, Seal, Suit, Rank};

#[test]
fn test_standard_deck() {
    let deck = DeckConfig::standard();
    assert_eq!(deck.cards.len(), 52);
}

#[test]
fn test_deck_validation() {
    let deck = DeckConfig::standard();
    assert!(deck.validate().is_ok());
}

#[test]
fn test_to_cards() {
    let deck = DeckConfig::standard();
    let cards = deck.to_cards().unwrap();
    assert_eq!(cards.len(), 52);
}

#[test]
fn empty_deck_is_rejected() {
    assert_eq!(DeckConfig::new().validate(), Err(ConfigError::EmptyDeck));
    assert_eq!(DeckConfig::new().to_cards(), Ok(vec![]));
}

#[test]
fn unknown_rank_or_suit_is_reported() {
    let mut deck = DeckConfig::new();
    deck.cards.push(CardDefinition { rank: "A".to_string(), suit: "Spades".to_string() });
    deck.cards.push(CardDefinition { rank: "11".to_string(), suit: "Hearts".to_string() });
    assert_eq!(deck.validate(), Err(ConfigError::UnknownRank("11".to_string())));
    deck.cards[1].rank = "J".to_string();
    deck.cards[1].suit = "hearts".to_string();
    assert_eq!(deck.to_cards(), Err(ConfigError::UnknownSuit("hearts".to_string())));
}

#[test]
fn modifiers_attach_by_card_id() {
    let mut deck = DeckConfig::new();
    deck.cards.push(CardDefinition { rank: "A".to_string(), suit: "H".to_string() });
    deck.cards.push(CardDefinition { rank: "10".to_string(), suit: "Diamonds".to_string() });
    deck.enhancements.push(("AH".to_string(), Enhancement::Bonus));
    deck.editions.push(("10D".to_string(), Edition::Holographic));
    deck.seals.push(("10D".to_string(), Seal::Gold));
    let cards = deck.to_cards().unwrap();
    assert_eq!(cards[0].rank, Rank::Ace);
    assert_eq!(cards[0].suit, Suit::Hearts);
    assert_eq!(cards[0].enhancement, Enhancement::Bonus);
    assert_eq!(cards[0].edition, Edition::Base);
    assert_eq!(cards[0].seal, None);
    assert_eq!(cards[1].enhancement, Enhancement::Base);
    assert_eq!(cards[1].edition, Edition::Holographic);
    assert_eq!(cards[1].seal, Some(Seal::Gold));
    assert_eq!(DeckConfig::make_card_id(Rank::Ten, Suit::Clubs), "10C");
}

#[test]
fn test_game_state_creation() {
    let state = GameState::new();
    assert_eq!(state.ante, 1);
    assert_eq!(state.money, 0);
    assert!(state.jokers.is_empty());
}

#[test]
fn test_blind_creation() {
    let blind = BlindConfig::small(300);
    assert_eq!(blind.blind_type, BlindType::Small);
    assert_eq!(blind.score_required, 300);

    let boss = BlindConfig::boss("The Hook".to_string(), 2000);
    assert_eq!(boss.blind_type, BlindType::Boss);
    assert_eq!(boss.name, Some("The Hook".to_string()));
}

#[test]
fn blinds_and_jokers() {
    let big = BlindConfig::big(800).with_ability("x".to_string());
    assert_eq!(big.blind_type, BlindType::Big);
    assert_eq!(big.ability, Some("x".to_string()));
    assert!(GameState::default().parse_jokers().unwrap().is_empty());
}

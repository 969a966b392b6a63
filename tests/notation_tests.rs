use jimbo::{format_card, format_cards, parse_card, parse_hand, parse_suit, Card, ParseError, Rank, SimulateOutputFormat, SolveOutputFormat, Suit};

#[test]
fn test_parse_card() {
    let card = parse_card("AH").unwrap();
    assert_eq!(card.rank, Rank::Ace);
    assert_eq!(card.suit, Suit::Hearts);

    let card = parse_card("10D").unwrap();
    assert_eq!(card.rank, Rank::Ten);
    assert_eq!(card.suit, Suit::Diamonds);
}

#[test]
fn test_parse_hand() {
    let cards = parse_hand("AH KH QH JH 10H").unwrap();
    assert_eq!(cards.len(), 5);
    assert_eq!(cards[0].rank, Rank::Ace);
    assert_eq!(cards[4].rank, Rank::Ten);
}

#[test]
fn test_invalid_card() {
    assert!(parse_card("XX").is_err());
    assert!(parse_card("1H").is_err());
}

#[test]
fn parse_errors_name_the_offending_part() {
    assert_eq!(parse_card("A"), Err(ParseError::InvalidCard("A".to_string())));
    assert_eq!(parse_card("1H"), Err(ParseError::InvalidRank("1".to_string())));
    assert_eq!(parse_card("AX"), Err(ParseError::InvalidSuit("X".to_string())));
    assert_eq!(parse_card("10"), Err(ParseError::InvalidSuit("".to_string())));
}

#[test]
fn suits_read_in_either_case() {
    assert_eq!(parse_suit("h"), Some(Suit::Hearts));
    assert_eq!(parse_suit("S"), Some(Suit::Spades));
    assert_eq!(parse_suit("x"), None);
    assert_eq!(parse_card("qc"), Err(ParseError::InvalidRank("q".to_string())));
    assert_eq!(parse_card("Qc").unwrap(), Card::new(Rank::Queen, Suit::Clubs));
}

#[test]
fn hands_split_on_any_white_space() {
    let cards = parse_hand("  2S\t3S\n 4S  ").unwrap();
    assert_eq!(cards, vec![Card::new(Rank::Two, Suit::Spades), Card::new(Rank::Three, Suit::Spades), Card::new(Rank::Four, Suit::Spades)]);
    assert!(parse_hand("2S XX").is_err());
    assert!(parse_hand("").unwrap().is_empty());
}

#[test]
fn cards_display_with_suit_symbols() {
    assert_eq!(format_card(&Card::new(Rank::Ten, Suit::Diamonds)), "10\u{2666}");
    let text = format_cards(&[Card::new(Rank::Ace, Suit::Hearts), Card::new(Rank::King, Suit::Spades)]);
    assert_eq!(text, "A\u{2665} K\u{2660}");
    assert_eq!(format_cards(&[]), "");
}

#[test]
fn test_output_format_parsing() {
    assert!(matches!(
        "summary".parse::<SimulateOutputFormat>().unwrap(),
        SimulateOutputFormat::Summary
    ));
    assert!(matches!(
        "detailed".parse::<SimulateOutputFormat>().unwrap(),
        SimulateOutputFormat::Detailed
    ));
    assert!(matches!(
        "csv".parse::<SimulateOutputFormat>().unwrap(),
        SimulateOutputFormat::Csv
    ));
    assert!("invalid".parse::<SimulateOutputFormat>().is_err());
}

#[test]
fn output_formats_ignore_case() {
    assert_eq!(SolveOutputFormat::parse("JSON"), Some(SolveOutputFormat::Json));
    assert_eq!("Compact".parse::<SolveOutputFormat>(), Ok(SolveOutputFormat::Compact));
    assert_eq!(SimulateOutputFormat::parse("CSV"), Some(SimulateOutputFormat::Csv));
    assert_eq!(SolveOutputFormat::parse("fancy"), None);
}

#[test]
fn test_config_type_parsing() {
    assert_eq!("deck", "deck");
    assert_eq!("game-state", "game-state");
}

#[test]
fn hands_split_on_unicode_white_space() {
    let cards = parse_hand("AH\u{3000}KH\u{a0}QH").unwrap();
    assert_eq!(cards.len(), 3);
    assert_eq!(cards[2], Card::new(Rank::Queen, Suit::Hearts));
}

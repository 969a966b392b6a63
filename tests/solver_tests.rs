use jimbo::{Card, HandType, ParseError, ScoreCalculator, Solver, Rank, Suit};

#[test]
fn test_combination_generation() {
    let cards = vec![
        Card::new(Rank::Ace, Suit::Hearts),
        Card::new(Rank::King, Suit::Hearts),
        Card::new(Rank::Queen, Suit::Hearts),
    ];

    let combos = Solver::generate_combinations(&cards, 2);
    assert_eq!(combos.len(), 3);
}

#[test]
fn test_solver_basic() {
    let cards = vec![
        Card::new(Rank::Ace, Suit::Hearts),
        Card::new(Rank::Ace, Suit::Spades),
        Card::new(Rank::King, Suit::Hearts),
    ];

    let calculator = ScoreCalculator::new(vec![]);
    let solver = Solver::new(calculator);
    let result = solver.solve(&cards);

    assert!(result.best_score.is_some());
    assert!(!result.best_hand.cards.is_empty());
}

#[test]
fn combinations_come_in_lexicographic_order() {
    let a = Card::new(Rank::Ace, Suit::Hearts);
    let k = Card::new(Rank::King, Suit::Hearts);
    let q = Card::new(Rank::Queen, Suit::Hearts);
    let combos = Solver::generate_combinations(&[a, k, q], 2);
    assert_eq!(combos, vec![vec![a, k], vec![a, q], vec![k, q]]);
    assert_eq!(Solver::generate_combinations(&[a, k, q], 0), vec![Vec::<Card>::new()]);
    assert!(Solver::generate_combinations(&[a, k], 3).is_empty());
}

#[test]
fn solving_no_cards_gives_no_play() {
    let solver = Solver::new(ScoreCalculator::new(vec![]));
    let result = solver.solve(&[]);
    assert!(result.best_score.is_none());
    assert!(result.alternatives.is_empty());
    assert!(result.best_hand.cards.is_empty());
}

#[test]
fn best_play_and_alternatives_in_score_order() {
    let cards = vec![
        Card::new(Rank::Ace, Suit::Hearts),
        Card::new(Rank::Ace, Suit::Spades),
        Card::new(Rank::King, Suit::Hearts),
        Card::new(Rank::Two, Suit::Clubs),
    ];
    let result = Solver::new(ScoreCalculator::new(vec![])).solve(&cards);
    let best = result.best_score.unwrap();
    assert_eq!(best.hand_type, HandType::Pair);
    assert_eq!(result.alternatives.len(), 3);
    for (_, alt) in &result.alternatives {
        assert!(best.score >= alt.score);
    }
    for w in result.alternatives.windows(2) {
        assert!(w[0].1.score >= w[1].1.score);
    }
}

#[test]
fn ties_keep_enumeration_order() {
    let two_h = Card::new(Rank::Two, Suit::Hearts);
    let two_d = Card::new(Rank::Two, Suit::Diamonds);
    let result = Solver::new(ScoreCalculator::new(vec![])).solve(&[two_h, two_d]);
    assert_eq!(result.best_hand.cards, vec![two_h, two_d]);
    assert_eq!(result.best_score.unwrap().score, 28);
    assert_eq!(result.alternatives.len(), 2);
    assert_eq!(result.alternatives[0].0.cards, vec![two_h]);
    assert_eq!(result.alternatives[1].0.cards, vec![two_d]);
    assert_eq!(result.alternatives[0].1.score, 7);
}

#[test]
fn single_card_has_no_alternatives() {
    let result = Solver::new(ScoreCalculator::new(vec![])).solve(&[Card::new(Rank::Ace, Suit::Clubs)]);
    assert_eq!(result.best_score.unwrap().score, 16);
    assert!(result.alternatives.is_empty());
}

#[test]
fn solving_written_hands() {
    let solver = Solver::new(ScoreCalculator::new(vec![]));
    let r = solver.solve_hand_text("AH AS").unwrap();
    assert_eq!(r.best_score.unwrap().score, 64);
    assert_eq!(r.best_hand.cards, vec![Card::new(Rank::Ace, Suit::Hearts), Card::new(Rank::Ace, Suit::Spades)]);
    assert_eq!(solver.solve_hand_text("   ").unwrap_err(), ParseError::EmptyHand);
    assert_eq!(solver.solve_hand_text("AH XX").unwrap_err(), ParseError::InvalidRank("X".to_string()));
    assert_eq!(ParseError::EmptyHand.message(), "Hand cannot be empty");
}

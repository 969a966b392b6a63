use jimbo::{create_standard_deck, Card, Rank, ScoreCalculator, SimulationConfig, Simulator, Solver, Suit};

fn simulator() -> Simulator {
    Simulator::new(Solver::new(ScoreCalculator::new(vec![])))
}

#[test]
fn test_standard_deck_creation() {
    let deck = create_standard_deck();
    assert_eq!(deck.len(), 52);
}

#[test]
fn test_simulation_with_seed() {
    let deck = create_standard_deck();
    let calculator = ScoreCalculator::new(vec![]);
    let solver = Solver::new(calculator);
    let simulator = Simulator::new(solver);

    let config = SimulationConfig {
        deck,
        hand_size: 5,
        num_runs: 10,
        seed: Some(42),
    };

    let result = simulator.simulate(config).unwrap();
    assert_eq!(result.num_runs, 10);
    assert!(result.total_score as f64 / result.num_runs as f64 > 0.0);
}

#[test]
fn standard_deck_goes_suit_by_suit() {
    let deck = create_standard_deck();
    assert_eq!(deck[0], Card::new(Rank::Two, Suit::Hearts));
    assert_eq!(deck[12], Card::new(Rank::Ace, Suit::Hearts));
    assert_eq!(deck[13], Card::new(Rank::Two, Suit::Diamonds));
    assert_eq!(deck[51], Card::new(Rank::Ace, Suit::Spades));
}

#[test]
fn same_seed_same_result() {
    let config = || SimulationConfig { deck: create_standard_deck(), hand_size: 5, num_runs: 10, seed: Some(42) };
    let a = simulator().simulate(config()).unwrap();
    let b = simulator().simulate(config()).unwrap();
    assert_eq!(a, b);
    assert!(a.min_score <= a.percentile_25);
    assert!(a.percentile_25 <= a.median_score);
    assert!(a.median_score <= a.percentile_75);
    assert!(a.percentile_75 <= a.percentile_95);
    assert!(a.percentile_95 <= a.max_score);
}

#[test]
fn shuffled_hands_differ() {
    let config = SimulationConfig { deck: create_standard_deck(), hand_size: 5, num_runs: 30, seed: Some(7) };
    let r = simulator().simulate(config).unwrap();
    assert!(r.min_score < r.max_score);
}

#[test]
fn unseeded_runs_complete() {
    let config = SimulationConfig { deck: create_standard_deck(), hand_size: 3, num_runs: 4, seed: None };
    let r = simulator().simulate(config).unwrap();
    assert_eq!(r.num_runs, 4);
    assert!(r.min_score > 0);
}

#[test]
fn no_runs_give_zero_statistics() {
    let config = SimulationConfig { deck: create_standard_deck(), hand_size: 5, num_runs: 0, seed: Some(1) };
    let r = simulator().simulate(config).unwrap();
    assert_eq!(r.num_runs, 0);
    assert_eq!(r.total_score, 0);
    assert_eq!(r.min_score, 0);
    assert_eq!(r.max_score, 0);
    assert_eq!(r.median_score, 0);
}

#[test]
fn empty_deck_scores_zero() {
    let config = SimulationConfig { deck: vec![], hand_size: 5, num_runs: 3, seed: Some(1) };
    let r = simulator().simulate(config).unwrap();
    assert_eq!(r.total_score, 0);
    assert_eq!(r.max_score, 0);
}

#[test]
fn statistics_of_unsorted_scores() {
    let r = Simulator::calculate_statistics(vec![5, 1, 3, 2, 4], 5);
    assert_eq!(r.num_runs, 5);
    assert_eq!(r.total_score, 15);
    assert_eq!(r.min_score, 1);
    assert_eq!(r.max_score, 5);
    assert_eq!(r.median_score, 3);
    assert_eq!(r.percentile_25, 2);
    assert_eq!(r.percentile_75, 4);
    assert_eq!(r.percentile_95, 4);
}

#[test]
fn percentile_index_formula() {
    let s = [10, 20, 30, 40, 50, 60, 70, 80, 90, 100, 110];
    assert_eq!(Simulator::percentile(&s, 0, 100), 10);
    assert_eq!(Simulator::percentile(&s, 100, 100), 110);
    assert_eq!(Simulator::percentile(&s, 95, 100), 100);
    assert_eq!(Simulator::percentile(&s, 25, 100), 30);
    assert_eq!(Simulator::percentile(&[], 50, 100), 0);
}

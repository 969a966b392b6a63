//! Hand analysis for a poker-scoring roguelike card game.
//!
//! The library classifies sets of cards into poker hand types, scores them
//! against a set of jokers, searches every playable sub-selection of a hand
//! for the best one, and summarises batches of random hands.

pub mod app_state;
pub mod card;
pub mod deck;
pub mod joker;
pub mod notation;
pub mod game_state;
pub mod hand;
pub mod scoring;
pub mod simulator;
pub mod solver;

pub use crate::app_state::{App, KeyInput, SelectedTab};
pub use crate::card::{Card, Edition, Enhancement, Rank, Seal, Suit};
pub use crate::deck::{CardDefinition, ConfigError, DeckConfig};
pub use crate::game_state::{default_ante, BlindConfig, BlindType, GameState};
pub use crate::hand::{Hand, HandType};
pub use crate::joker::{Joker, JokerEdition, JokerKind, JokerRarity};
pub use crate::notation::{
    format_card, format_cards, parse_card, parse_hand, parse_rank, parse_suit, ParseError,
    SimulateOutputFormat, SolveOutputFormat,
};
pub use crate::scoring::{ScoreBreakdown, ScoreCalculator, ScoreResult};
pub use crate::simulator::{create_standard_deck, SimulationConfig, SimulationResult, Simulator};
pub use crate::solver::{Solver, SolverResult};

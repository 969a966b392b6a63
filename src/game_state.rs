//! Game state: the deck in use, the jokers, consumables and vouchers held,
//! the blind to beat and the progress of the run.

use vstd::prelude::*;
use crate::deck::ConfigError;
use crate::joker::Joker;

verus! {

/// The kind of a blind.
#[derive(Debug, Clone, Copy, PartialEq, Eq, Structural)]
pub enum BlindType {
    Small,
    Big,
    Boss,
}

/// A blind: its kind, its name and ability for a boss, and the score it
/// requires.
#[derive(Debug, Clone, PartialEq, Eq)]
pub struct BlindConfig {
    pub blind_type: BlindType,
    pub name: Option<String>,
    pub score_required: u64,
    pub ability: Option<String>,
}

/// The state of a run.
#[derive(Debug, Clone, PartialEq, Eq)]
pub struct GameState {
    pub deck_path: Option<String>,
    pub jokers: Vec<String>,
    pub consumables: Vec<String>,
    pub vouchers: Vec<String>,
    pub blind: Option<BlindConfig>,
    pub seed: Option<u64>,
    pub money: u32,
    pub ante: u32,
}

/// The ante a run starts at.
pub fn default_ante() -> (a: u32)
    ensures
        a == 1,
{
    1
}

impl GameState {
    /// A fresh run: no deck file, nothing held, no blind, no seed, no
    /// money, ante 1.
    pub fn new() -> (g: GameState)
        ensures
            g.deck_path is None,
            g.jokers@.len() == 0,
            g.consumables@.len() == 0,
            g.vouchers@.len() == 0,
            g.blind is None,
            g.seed is None,
            g.money == 0,
            g.ante == 1,
    {
        GameState {
            deck_path: None,
            jokers: Vec::new(),
            consumables: Vec::new(),
            vouchers: Vec::new(),
            blind: None,
            seed: None,
            money: 0,
            ante: default_ante(),
        }
    }

    /// The jokers named in the state. Joker names are not read yet, so
    /// the list is empty.
    pub fn parse_jokers(&self) -> (r: Result<Vec<Joker>, ConfigError>)
        ensures
            r is Ok && r->Ok_0@.len() == 0,
    {
        Ok(Vec::new())
    }
}

impl Default for GameState {
    fn default() -> (g: GameState)
        ensures
            g.deck_path is None,
            g.jokers@.len() == 0,
            g.consumables@.len() == 0,
            g.vouchers@.len() == 0,
            g.blind is None,
            g.seed is None,
            g.money == 0,
            g.ante == 1,
    {
        GameState::new()
    }
}

impl BlindConfig {
    /// A blind of the given kind and requirement, without name or ability.
    pub fn new(blind_type: BlindType, score_required: u64) -> (b: BlindConfig)
        ensures
            b.blind_type == blind_type,
            b.name is None,
            b.score_required == score_required,
            b.ability is None,
    {
        BlindConfig { blind_type, name: None, score_required, ability: None }
    }

    /// A small blind.
    pub fn small(score_required: u64) -> (b: BlindConfig)
        ensures
            b.blind_type == BlindType::Small,
            b.name is None,
            b.score_required == score_required,
            b.ability is None,
    {
        Self::new(BlindType::Small, score_required)
    }

    /// A big blind.
    pub fn big(score_required: u64) -> (b: BlindConfig)
        ensures
            b.blind_type == BlindType::Big,
            b.name is None,
            b.score_required == score_required,
            b.ability is None,
    {
        Self::new(BlindType::Big, score_required)
    }

    /// A boss blind with the given name.
    pub fn boss(name: String, score_required: u64) -> (b: BlindConfig)
        ensures
            b.blind_type == BlindType::Boss,
            b.name == Some(name),
            b.score_required == score_required,
            b.ability is None,
    {
        BlindConfig { blind_type: BlindType::Boss, name: Some(name), score_required, ability: None }
    }

    /// This blind with the given ability description.
    pub fn with_ability(self, ability: String) -> (b: BlindConfig)
        ensures
            b.blind_type == self.blind_type,
            b.name == self.name,
            b.score_required == self.score_required,
            b.ability == Some(ability),
    {
        BlindConfig { ability: Some(ability), ..self }
    }
}

} // verus!

//! Jokers: standalone modifiers that add chips or mult to every hand.

use vstd::prelude::*;

verus! {

/// A joker: its kind, edition and rarity.
#[derive(Debug, Clone, Copy, PartialEq, Eq, Structural)]
pub struct Joker {
    pub kind: JokerKind,
    pub edition: JokerEdition,
    pub rarity: JokerRarity,
}

/// The kind of a joker. Only `Joker` has a flat effect (+4 mult); the
/// conditional kinds are catalogued but contribute nothing yet.
#[derive(Debug, Clone, Copy, PartialEq, Eq, Structural)]
pub enum JokerKind {
    Joker,
    GreedyJoker,
    LustyJoker,
    WrathfulJoker,
    GluttonousJoker,
    JollyJoker,
    ZanyJoker,
    MadJoker,
    CrazyJoker,
    DrollJoker,
    Baron,
}

/// The edition of a joker: `Foil` gives +50 chips, `Holographic` +10 mult,
/// `Polychrome` multiplies the mult by 1.5.
#[derive(Debug, Clone, Copy, PartialEq, Eq, Structural)]
pub enum JokerEdition {
    Base,
    Foil,
    Holographic,
    Polychrome,
    Negative,
}

/// The rarity of a joker.
#[derive(Debug, Clone, Copy, PartialEq, Eq, Structural)]
pub enum JokerRarity {
    Common,
    Uncommon,
    Rare,
    Legendary,
}

/// The flat chip bonus of a joker kind.
pub open spec fn kind_chips(k: JokerKind) -> int {
    0
}

/// The flat mult bonus of a joker kind.
pub open spec fn kind_mult(k: JokerKind) -> int {
    match k {
        JokerKind::Joker => 4,
        _ => 0,
    }
}

impl Joker {
    /// A common joker of the given kind, without edition.
    pub fn new(kind: JokerKind) -> (j: Joker)
        ensures
            j == (Joker { kind, edition: JokerEdition::Base, rarity: JokerRarity::Common }),
    {
        Joker { kind, edition: JokerEdition::Base, rarity: JokerRarity::Common }
    }

    /// This joker with its edition replaced.
    pub fn with_edition(self, edition: JokerEdition) -> (j: Joker)
        ensures
            j == (Joker { edition, ..self }),
    {
        Joker { edition, ..self }
    }

    /// This joker with its rarity replaced.
    pub fn with_rarity(self, rarity: JokerRarity) -> (j: Joker)
        ensures
            j == (Joker { rarity, ..self }),
    {
        Joker { rarity, ..self }
    }
}

impl JokerKind {
    /// The flat chip bonus of this kind.
    pub fn base_chips(&self) -> (c: i32)
        ensures
            c == kind_chips(*self),
    {
        0
    }

    /// The flat mult bonus of this kind.
    pub fn base_mult(&self) -> (m: i32)
        ensures
            m == kind_mult(*self),
    {
        match self {
            JokerKind::Joker => 4,
            _ => 0,
        }
    }
}

} // verus!

//! Playing cards: rank, suit and the three modifier slots.

use vstd::prelude::*;

verus! {

/// The rank of a playing card, from Two up to Ace.
#[derive(Debug, Clone, Copy, PartialEq, Eq, Hash, Structural)]
pub enum Rank {
    Two,
    Three,
    Four,
    Five,
    Six,
    Seven,
    Eight,
    Nine,
    Ten,
    Jack,
    Queen,
    King,
    Ace,
}

/// The suit of a playing card.
#[derive(Debug, Clone, Copy, PartialEq, Eq, Hash, Structural)]
pub enum Suit {
    Hearts,
    Diamonds,
    Clubs,
    Spades,
}

/// A card enhancement. `Bonus` gives +30 chips, `Mult` +4 mult and `Stone`
/// +50 chips; the others carry no scoring effect here.
#[derive(Debug, Clone, Copy, PartialEq, Eq, Structural)]
pub enum Enhancement {
    Base,
    Bonus,
    Mult,
    Wild,
    Glass,
    Steel,
    Stone,
    Gold,
    Lucky,
}

/// A card edition. `Foil` gives +50 chips and `Holographic` +10 mult; the
/// others carry no scoring effect here.
#[derive(Debug, Clone, Copy, PartialEq, Eq, Structural)]
pub enum Edition {
    Base,
    Foil,
    Holographic,
    Polychrome,
    Negative,
}

/// A card seal. Seals act outside of scoring.
#[derive(Debug, Clone, Copy, PartialEq, Eq, Structural)]
pub enum Seal {
    Gold,
    Red,
    Blue,
    Purple,
}

/// A playing card: its identity (rank and suit) and its modifiers.
#[derive(Debug, Clone, Copy, PartialEq, Eq, Structural)]
pub struct Card {
    pub rank: Rank,
    pub suit: Suit,
    pub enhancement: Enhancement,
    pub edition: Edition,
    pub seal: Option<Seal>,
}

/// The numeric value of a rank, as used for straights: 2 to 10 by face,
/// Jack 11, Queen 12, King 13, Ace 14.
pub open spec fn rank_value(r: Rank) -> int {
    match r {
        Rank::Two => 2,
        Rank::Three => 3,
        Rank::Four => 4,
        Rank::Five => 5,
        Rank::Six => 6,
        Rank::Seven => 7,
        Rank::Eight => 8,
        Rank::Nine => 9,
        Rank::Ten => 10,
        Rank::Jack => 11,
        Rank::Queen => 12,
        Rank::King => 13,
        Rank::Ace => 14,
    }
}

/// The chips a card of this rank scores: its face value, 10 for the
/// court cards and 11 for an Ace.
pub open spec fn rank_chips(r: Rank) -> int {
    match r {
        Rank::Jack | Rank::Queen | Rank::King => 10,
        Rank::Ace => 11,
        _ => rank_value(r),
    }
}

/// The card of the given rank and suit without any modifier.
pub open spec fn plain_card(rank: Rank, suit: Suit) -> Card {
    Card { rank, suit, enhancement: Enhancement::Base, edition: Edition::Base, seal: None }
}

impl Card {
    /// A card of the given rank and suit, without modifiers.
    pub fn new(rank: Rank, suit: Suit) -> (c: Card)
        ensures
            c == plain_card(rank, suit),
    {
        Card { rank, suit, enhancement: Enhancement::Base, edition: Edition::Base, seal: None }
    }

    /// This card with its enhancement replaced.
    pub fn with_enhancement(self, enhancement: Enhancement) -> (c: Card)
        ensures
            c == (Card { enhancement, ..self }),
    {
        Card { enhancement, ..self }
    }

    /// This card with its edition replaced.
    pub fn with_edition(self, edition: Edition) -> (c: Card)
        ensures
            c == (Card { edition, ..self }),
    {
        Card { edition, ..self }
    }

    /// This card with a seal attached.
    pub fn with_seal(self, seal: Seal) -> (c: Card)
        ensures
            c == (Card { seal: Some(seal), ..self }),
    {
        Card { seal: Some(seal), ..self }
    }

    /// The chips the card scores by its rank alone.
    pub fn base_chips(&self) -> (chips: u32)
        ensures
            chips == rank_chips(self.rank),
    {
        match self.rank {
            Rank::Two => 2,
            Rank::Three => 3,
            Rank::Four => 4,
            Rank::Five => 5,
            Rank::Six => 6,
            Rank::Seven => 7,
            Rank::Eight => 8,
            Rank::Nine => 9,
            Rank::Ten | Rank::Jack | Rank::Queen | Rank::King => 10,
            Rank::Ace => 11,
        }
    }
}

impl Rank {
    /// The numeric value of the rank (2 to 14), used for straights.
    pub fn value(&self) -> (v: u8)
        ensures
            v == rank_value(*self),
    {
        match self {
            Rank::Two => 2,
            Rank::Three => 3,
            Rank::Four => 4,
            Rank::Five => 5,
            Rank::Six => 6,
            Rank::Seven => 7,
            Rank::Eight => 8,
            Rank::Nine => 9,
            Rank::Ten => 10,
            Rank::Jack => 11,
            Rank::Queen => 12,
            Rank::King => 13,
            Rank::Ace => 14,
        }
    }
}

/// The `i`-th suit of a standard deck: Hearts, Diamonds, Clubs, Spades.
pub open spec fn suit_at(i: int) -> Suit {
    if i == 0 {
        Suit::Hearts
    } else if i == 1 {
        Suit::Diamonds
    } else if i == 2 {
        Suit::Clubs
    } else {
        Suit::Spades
    }
}

/// The `i`-th rank in ascending order, from Two.
pub open spec fn rank_at(i: int) -> Rank {
    if i == 0 {
        Rank::Two
    } else if i == 1 {
        Rank::Three
    } else if i == 2 {
        Rank::Four
    } else if i == 3 {
        Rank::Five
    } else if i == 4 {
        Rank::Six
    } else if i == 5 {
        Rank::Seven
    } else if i == 6 {
        Rank::Eight
    } else if i == 7 {
        Rank::Nine
    } else if i == 8 {
        Rank::Ten
    } else if i == 9 {
        Rank::Jack
    } else if i == 10 {
        Rank::Queen
    } else if i == 11 {
        Rank::King
    } else {
        Rank::Ace
    }
}

/// The `i`-th rank in ascending order.
pub fn rank_at_index(i: usize) -> (r: Rank)
    ensures
        r == rank_at(i as int),
{
    match i {
        0 => Rank::Two,
        1 => Rank::Three,
        2 => Rank::Four,
        3 => Rank::Five,
        4 => Rank::Six,
        5 => Rank::Seven,
        6 => Rank::Eight,
        7 => Rank::Nine,
        8 => Rank::Ten,
        9 => Rank::Jack,
        10 => Rank::Queen,
        11 => Rank::King,
        _ => Rank::Ace,
    }
}

/// The `i`-th suit of a standard deck.
pub fn suit_at_index(i: usize) -> (s: Suit)
    ensures
        s == suit_at(i as int),
{
    match i {
        0 => Suit::Hearts,
        1 => Suit::Diamonds,
        2 => Suit::Clubs,
        _ => Suit::Spades,
    }
}

} // verus!

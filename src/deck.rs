//! Deck configurations: card definitions written as text, with modifiers
//! attached by card id ("AH" for the Ace of Hearts).

use vstd::prelude::*;
use crate::card::{Card, Edition, Enhancement, Rank, Seal, Suit, plain_card, rank_at, rank_at_index, suit_at};
use crate::notation::{rank_of_text, rank_text, text_is};

verus! {

/// A card written as text: a rank ("2" to "10", "J", "Q", "K", "A") and a
/// suit ("Hearts" or "H", and so on).
#[derive(Debug, Clone, PartialEq, Eq)]
pub struct CardDefinition {
    pub rank: String,
    pub suit: String,
}

/// A deck: its cards, and the modifiers attached to card ids. In a
/// well-formed deck each list holds a key at most once (see
/// `well_formed`); a lookup takes the first entry of a key.
#[derive(Debug, Clone, PartialEq, Eq)]
pub struct DeckConfig {
    pub cards: Vec<CardDefinition>,
    pub enhancements: Vec<(String, Enhancement)>,
    pub editions: Vec<(String, Edition)>,
    pub seals: Vec<(String, Seal)>,
}

/// Why a deck configuration was rejected.
#[derive(Debug, Clone, PartialEq, Eq)]
pub enum ConfigError {
    EmptyDeck,
    UnknownRank(String),
    UnknownSuit(String),
}

impl ConfigError {
    /// A one-line description of the error.
    pub fn message(&self) -> (m: String)
        ensures
            m@ == match self {
                ConfigError::EmptyDeck => "Deck must contain at least one card"@,
                ConfigError::UnknownRank(t) => "Unknown rank: "@ + t@,
                ConfigError::UnknownSuit(t) => "Unknown suit: "@ + t@,
            },
    {
        match self {
            ConfigError::EmptyDeck => "Deck must contain at least one card".to_owned(),
            ConfigError::UnknownRank(t) => "Unknown rank: ".to_owned().concat(t.as_str()),
            ConfigError::UnknownSuit(t) => "Unknown suit: ".to_owned().concat(t.as_str()),
        }
    }
}

/// The suit named `s`: its name or its initial, in capitals as written.
pub open spec fn suit_of_name(s: Seq<char>) -> Option<Suit> {
    if s == "Hearts"@ || s == "H"@ {
        Some(Suit::Hearts)
    } else if s == "Diamonds"@ || s == "D"@ {
        Some(Suit::Diamonds)
    } else if s == "Clubs"@ || s == "C"@ {
        Some(Suit::Clubs)
    } else if s == "Spades"@ || s == "S"@ {
        Some(Suit::Spades)
    } else {
        None
    }
}

/// The full name of a suit.
pub open spec fn suit_name(s: Suit) -> Seq<char> {
    match s {
        Suit::Hearts => "Hearts"@,
        Suit::Diamonds => "Diamonds"@,
        Suit::Clubs => "Clubs"@,
        Suit::Spades => "Spades"@,
    }
}

/// The initial of a suit.
pub open spec fn suit_letter(s: Suit) -> Seq<char> {
    match s {
        Suit::Hearts => "H"@,
        Suit::Diamonds => "D"@,
        Suit::Clubs => "C"@,
        Suit::Spades => "S"@,
    }
}

/// The id of a card: its rank's text then its suit's initial.
pub open spec fn card_id(r: Rank, s: Suit) -> Seq<char> {
    rank_text(r) + suit_letter(s)
}

/// `d` is the `i`-th definition of the standard deck: suit by suit,
/// ranks ascending.
pub open spec fn standard_definition(d: CardDefinition, i: int) -> bool {
    d.rank@ == rank_text(rank_at(i % 13)) && d.suit@ == suit_name(suit_at(i / 13))
}

/// No two entries of `entries` have the same key.
pub open spec fn keys_unique<V>(entries: Seq<(String, V)>) -> bool {
    forall|i: int, j: int|
        0 <= i < j < entries.len() ==> #[trigger] entries[i].0@ != #[trigger] entries[j].0@
}

/// The value of the first entry of `entries` whose key is `key`.
pub open spec fn lookup<V>(entries: Seq<(String, V)>, key: Seq<char>) -> Option<V>
    decreases entries.len(),
{
    if entries.len() == 0 {
        None
    } else if entries[0].0@ == key {
        Some(entries[0].1)
    } else {
        lookup(entries.drop_first(), key)
    }
}

/// The definition names a rank and a suit.
pub open spec fn definition_valid(d: CardDefinition) -> bool {
    rank_of_text(d.rank@) is Some && suit_of_name(d.suit@) is Some
}

/// `e` is the error that reports the invalid definition `d`: its rank
/// when that is unknown, else its suit.
pub open spec fn reports(e: ConfigError, d: CardDefinition) -> bool {
    if rank_of_text(d.rank@) is None {
        e matches ConfigError::UnknownRank(t) && t@ == d.rank@
    } else {
        e matches ConfigError::UnknownSuit(t) && t@ == d.suit@
    }
}

/// `e` reports the first invalid definition of `defs`.
pub open spec fn reports_first_invalid(e: ConfigError, defs: Seq<CardDefinition>) -> bool {
    exists|i: int|
        0 <= i < defs.len() && !definition_valid(#[trigger] defs[i]) && reports(e, defs[i])
            && forall|k: int| 0 <= k < i ==> definition_valid(#[trigger] defs[k])
}

/// The card that the valid definition `d` stands for in deck `c`, with
/// the modifiers attached to its id.
pub open spec fn configured_card(c: DeckConfig, d: CardDefinition) -> Card {
    let rank = rank_of_text(d.rank@).unwrap();
    let suit = suit_of_name(d.suit@).unwrap();
    let id = card_id(rank, suit);
    Card {
        enhancement: match lookup(c.enhancements@, id) {
            Some(e) => e,
            None => Enhancement::Base,
        },
        edition: match lookup(c.editions@, id) {
            Some(e) => e,
            None => Edition::Base,
        },
        seal: lookup(c.seals@, id),
        ..plain_card(rank, suit)
    }
}

/// The value of the first entry whose key is `key`.
fn lookup_entry<V: Copy>(entries: &Vec<(String, V)>, key: &str) -> (r: Option<V>)
    ensures
        r == lookup(entries@, key@),
        keys_unique(entries@) ==> forall|j: int|
            0 <= j < entries@.len() && #[trigger] entries@[j].0@ == key@ ==> r == Some(
                entries@[j].1,
            ),
{
    let mut i: usize = 0;
    assert(entries@.skip(0) =~= entries@);
    while i < entries.len()
        invariant
            i <= entries@.len(),
            lookup(entries@, key@) == lookup(entries@.skip(i as int), key@),
            forall|k: int| 0 <= k < i ==> #[trigger] entries@[k].0@ != key@,
        decreases entries@.len() - i,
    {
        let ghost rest = entries@.skip(i as int);
        assert(rest.drop_first() =~= entries@.skip(i + 1));
        if text_is(entries[i].0.as_str(), key) {
            return Some(entries[i].1);
        }
        i += 1;
    }
    None
}

/// The text of a rank.
fn rank_str(r: Rank) -> (t: &'static str)
    ensures
        t@ == rank_text(r),
{
    match r {
        Rank::Two => "2",
        Rank::Three => "3",
        Rank::Four => "4",
        Rank::Five => "5",
        Rank::Six => "6",
        Rank::Seven => "7",
        Rank::Eight => "8",
        Rank::Nine => "9",
        Rank::Ten => "10",
        Rank::Jack => "J",
        Rank::Queen => "Q",
        Rank::King => "K",
        Rank::Ace => "A",
    }
}

impl DeckConfig {
    /// Each modifier list holds a key at most once.
    pub open spec fn well_formed(&self) -> bool {
        keys_unique(self.enhancements@) && keys_unique(self.editions@) && keys_unique(
            self.seals@,
        )
    }

    /// A deck with no cards and no modifiers.
    pub fn new() -> (d: DeckConfig)
        ensures
            d.well_formed(),
            d.cards@.len() == 0,
            d.enhancements@.len() == 0,
            d.editions@.len() == 0,
            d.seals@.len() == 0,
    {
        DeckConfig {
            cards: Vec::new(),
            enhancements: Vec::new(),
            editions: Vec::new(),
            seals: Vec::new(),
        }
    }

    /// The standard 52-card deck, suit by suit (Hearts, Diamonds, Clubs,
    /// Spades), ranks ascending, without modifiers.
    pub fn standard() -> (d: DeckConfig)
        ensures
            d.well_formed(),
            d.cards@.len() == 52,
            forall|i: int| 0 <= i < 52 ==> standard_definition(#[trigger] d.cards@[i], i),
            d.enhancements@.len() == 0,
            d.editions@.len() == 0,
            d.seals@.len() == 0,
    {
        let mut cards: Vec<CardDefinition> = Vec::new();
        let mut s: usize = 0;
        while s < 4
            invariant
                s <= 4,
                cards@.len() == s * 13,
                forall|k: int| 0 <= k < cards@.len() ==> standard_definition(#[trigger] cards@[k], k),
            decreases 4 - s,
        {
            let suit: &str = match s {
                0 => "Hearts",
                1 => "Diamonds",
                2 => "Clubs",
                _ => "Spades",
            };
            let mut r: usize = 0;
            while r < 13
                invariant
                    s < 4,
                    r <= 13,
                    suit@ == suit_name(suit_at(s as int)),
                    cards@.len() == s * 13 + r,
                    forall|k: int| 0 <= k < cards@.len() ==> standard_definition(#[trigger] cards@[k], k),
                decreases 13 - r,
            {
                let k = s * 13 + r;
                assert(k / 13 == s as int && k % 13 == r as int) by (nonlinear_arith)
                    requires
                        k == s * 13 + r,
                        0 <= r < 13,
                        0 <= s,
                ;
                let rank = rank_at_index(r);
                assert(rank == rank_at(r as int));
                cards.push(CardDefinition { rank: rank_str(rank).to_owned(), suit: suit.to_owned() });
                r += 1;
            }
            s += 1;
        }
        DeckConfig { cards, enhancements: Vec::new(), editions: Vec::new(), seals: Vec::new() }
    }

    /// Checks that the deck has a card and that every definition names a
    /// rank and a suit; reports the first that does not.
    pub fn validate(&self) -> (r: Result<(), ConfigError>)
        ensures
            self.cards@.len() == 0 ==> r matches Err(ConfigError::EmptyDeck),
            self.cards@.len() > 0 ==> (r is Ok <==> forall|i: int|
                0 <= i < self.cards@.len() ==> definition_valid(#[trigger] self.cards@[i])),
            self.cards@.len() > 0 && r is Err ==> reports_first_invalid(
                r->Err_0,
                self.cards@,
            ),
    {
        if self.cards.len() == 0 {
            return Err(ConfigError::EmptyDeck);
        }
        let mut i: usize = 0;
        while i < self.cards.len()
            invariant
                i <= self.cards@.len(),
                forall|k: int| 0 <= k < i ==> definition_valid(#[trigger] self.cards@[k]),
            decreases self.cards@.len() - i,
        {
            let def = &self.cards[i];
            if Self::parse_rank(def.rank.as_str()).is_none() {
                let e = ConfigError::UnknownRank(def.rank.clone());
                assert(reports(e, self.cards@[i as int]));
                return Err(e);
            }
            if Self::parse_suit(def.suit.as_str()).is_none() {
                let e = ConfigError::UnknownSuit(def.suit.clone());
                assert(reports(e, self.cards@[i as int]));
                return Err(e);
            }
            i += 1;
        }
        Ok(())
    }

    /// The cards of the deck with their modifiers, or the error for the
    /// first definition that names no rank or no suit.
    pub fn to_cards(&self) -> (r: Result<Vec<Card>, ConfigError>)
        ensures
            r is Ok <==> forall|i: int|
                0 <= i < self.cards@.len() ==> definition_valid(#[trigger] self.cards@[i]),
            r is Ok ==> r->Ok_0@.len() == self.cards@.len() && forall|i: int|
                0 <= i < self.cards@.len() ==> #[trigger] r->Ok_0@[i] == configured_card(
                    *self,
                    self.cards@[i],
                ),
            r is Err ==> reports_first_invalid(r->Err_0, self.cards@),
    {
        let mut cards: Vec<Card> = Vec::new();
        let mut i: usize = 0;
        while i < self.cards.len()
            invariant
                i <= self.cards@.len(),
                cards@.len() == i,
                forall|k: int| 0 <= k < i ==> definition_valid(#[trigger] self.cards@[k]),
                forall|k: int|
                    0 <= k < i ==> #[trigger] cards@[k] == configured_card(*self, self.cards@[k]),
            decreases self.cards@.len() - i,
        {
            let def = &self.cards[i];
            let rank = match Self::parse_rank(def.rank.as_str()) {
                Some(rank) => rank,
                None => {
                    let e = ConfigError::UnknownRank(def.rank.clone());
                    assert(reports(e, self.cards@[i as int]));
                    return Err(e);
                },
            };
            let suit = match Self::parse_suit(def.suit.as_str()) {
                Some(suit) => suit,
                None => {
                    let e = ConfigError::UnknownSuit(def.suit.clone());
                    assert(reports(e, self.cards@[i as int]));
                    return Err(e);
                },
            };
            let card_id = Self::make_card_id(rank, suit);
            let mut card = Card::new(rank, suit);
            if let Some(enhancement) = lookup_entry(&self.enhancements, card_id.as_str()) {
                card = card.with_enhancement(enhancement);
            }
            if let Some(edition) = lookup_entry(&self.editions, card_id.as_str()) {
                card = card.with_edition(edition);
            }
            if let Some(seal) = lookup_entry(&self.seals, card_id.as_str()) {
                card = card.with_seal(seal);
            }
            cards.push(card);
            i += 1;
        }
        Ok(cards)
    }

    /// The rank written as `s`, if any.
    fn parse_rank(s: &str) -> (r: Option<Rank>)
        ensures
            r == rank_of_text(s@),
    {
        crate::notation::parse_rank(s)
    }

    /// The suit named `s`, if any.
    fn parse_suit(s: &str) -> (r: Option<Suit>)
        ensures
            r == suit_of_name(s@),
    {
        if text_is(s, "Hearts") || text_is(s, "H") {
            Some(Suit::Hearts)
        } else if text_is(s, "Diamonds") || text_is(s, "D") {
            Some(Suit::Diamonds)
        } else if text_is(s, "Clubs") || text_is(s, "C") {
            Some(Suit::Clubs)
        } else if text_is(s, "Spades") || text_is(s, "S") {
            Some(Suit::Spades)
        } else {
            None
        }
    }

    /// The id of a card, such as "AH" or "10D".
    pub fn make_card_id(rank: Rank, suit: Suit) -> (id: String)
        ensures
            id@ == card_id(rank, suit),
    {
        let suit_str: &str = match suit {
            Suit::Hearts => "H",
            Suit::Diamonds => "D",
            Suit::Clubs => "C",
            Suit::Spades => "S",
        };
        rank_str(rank).to_owned().concat(suit_str)
    }
}

impl Default for DeckConfig {
    fn default() -> (d: DeckConfig)
        ensures
            d.well_formed(),
            d.cards@.len() == 0,
            d.enhancements@.len() == 0,
            d.editions@.len() == 0,
            d.seals@.len() == 0,
    {
        DeckConfig::new()
    }
}

} // verus!

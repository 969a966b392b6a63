//! The short text notation of cards ("AH", "10D"), hands of such cards,
//! and the names of the output formats.

use vstd::prelude::*;
use crate::card::{Card, Rank, Suit, plain_card};

verus! {

/// What `str::to_uppercase` makes of a text.
pub uninterp spec fn upper_of(s: Seq<char>) -> Seq<char>;

/// What `str::to_lowercase` makes of a text.
pub uninterp spec fn lower_of(s: Seq<char>) -> Seq<char>;

/// The characters with the Unicode White_Space property.
pub open spec fn is_white_space(c: char) -> bool {
    let u = c as u32;
    (0x9 <= u <= 0xd) || u == 0x20 || u == 0x85 || u == 0xa0 || u == 0x1680 || (0x2000 <= u
        <= 0x200a) || u == 0x2028 || u == 0x2029 || u == 0x202f || u == 0x205f || u == 0x3000
}

/// The words of `s` after the partial word `cur`: the maximal runs of
/// characters that are not white space, in order.
pub open spec fn words_from(s: Seq<char>, cur: Seq<char>) -> Seq<Seq<char>>
    decreases s.len(),
{
    let done: Seq<Seq<char>> = if cur.len() > 0 {
        seq![cur]
    } else {
        Seq::empty()
    };
    if s.len() == 0 {
        done
    } else if is_white_space(s[0]) {
        done + words_from(s.drop_first(), Seq::empty())
    } else {
        words_from(s.drop_first(), cur.push(s[0]))
    }
}

/// The words of a text: its maximal runs of characters that are not
/// white space, in order.
pub open spec fn words_of(s: Seq<char>) -> Seq<Seq<char>> {
    words_from(s, Seq::empty())
}

/// Relies on `str::to_uppercase` of std: the result depends on the text
/// alone.
#[verifier::external_body]
fn to_upper(s: &str) -> (r: String)
    ensures
        r@ == upper_of(s@),
{
    s.to_uppercase()
}

/// Relies on `str::to_lowercase` of std: the result depends on the text
/// alone.
#[verifier::external_body]
fn to_lower(s: &str) -> (r: String)
    ensures
        r@ == lower_of(s@),
{
    s.to_lowercase()
}

/// Relies on `str::split_whitespace` of std: the substrings separated by
/// any amount of Unicode White_Space, without empty ones, in order.
#[verifier::external_body]
fn split_words(s: &str) -> (r: Vec<String>)
    ensures
        r@.len() == words_of(s@).len(),
        forall|i: int| 0 <= i < r@.len() ==> #[trigger] r@[i]@ == words_of(s@)[i],
{
    s.split_whitespace().map(|w| w.to_owned()).collect()
}

/// Why a piece of notation was rejected, with the offending text.
#[derive(Debug, Clone, PartialEq, Eq)]
pub enum ParseError {
    InvalidCard(String),
    InvalidRank(String),
    InvalidSuit(String),
    InvalidFormat(String),
    EmptyHand,
}

impl ParseError {
    /// A one-line description of the error.
    pub fn message(&self) -> (m: String)
        ensures
            m@ == match self {
                ParseError::InvalidCard(t) => "Invalid card format: "@ + t@,
                ParseError::InvalidRank(t) => "Invalid rank: "@ + t@,
                ParseError::InvalidSuit(t) => "Invalid suit: "@ + t@,
                ParseError::InvalidFormat(t) => "Invalid output format: "@ + t@,
                ParseError::EmptyHand => "Hand cannot be empty"@,
            },
    {
        let (head, text) = match self {
            ParseError::InvalidCard(t) => ("Invalid card format: ", t),
            ParseError::InvalidRank(t) => ("Invalid rank: ", t),
            ParseError::InvalidSuit(t) => ("Invalid suit: ", t),
            ParseError::InvalidFormat(t) => ("Invalid output format: ", t),
            ParseError::EmptyHand => return "Hand cannot be empty".to_owned(),
        };
        head.to_owned().concat(text.as_str())
    }
}

/// Whether the text `s` is exactly `lit`.
pub fn text_is(s: &str, lit: &str) -> (b: bool)
    ensures
        b == (s@ == lit@),
{
    let n = s.unicode_len();
    if n != lit.unicode_len() {
        return false;
    }
    let mut i: usize = 0;
    while i < n
        invariant
            i <= n,
            n == s@.len(),
            n == lit@.len(),
            forall|k: int| 0 <= k < i ==> s@[k] == lit@[k],
        decreases n - i,
    {
        if s.get_char(i) != lit.get_char(i) {
            return false;
        }
        i += 1;
    }
    assert(s@ =~= lit@);
    true
}

/// The rank written as `s`: 2 to 10, J, Q, K or A.
pub open spec fn rank_of_text(s: Seq<char>) -> Option<Rank> {
    if s == "2"@ {
        Some(Rank::Two)
    } else if s == "3"@ {
        Some(Rank::Three)
    } else if s == "4"@ {
        Some(Rank::Four)
    } else if s == "5"@ {
        Some(Rank::Five)
    } else if s == "6"@ {
        Some(Rank::Six)
    } else if s == "7"@ {
        Some(Rank::Seven)
    } else if s == "8"@ {
        Some(Rank::Eight)
    } else if s == "9"@ {
        Some(Rank::Nine)
    } else if s == "10"@ {
        Some(Rank::Ten)
    } else if s == "J"@ {
        Some(Rank::Jack)
    } else if s == "Q"@ {
        Some(Rank::Queen)
    } else if s == "K"@ {
        Some(Rank::King)
    } else if s == "A"@ {
        Some(Rank::Ace)
    } else {
        None
    }
}

/// The suit whose upper-case letter is `s`: H, D, C or S.
pub open spec fn suit_of_letter(s: Seq<char>) -> Option<Suit> {
    if s == "H"@ {
        Some(Suit::Hearts)
    } else if s == "D"@ {
        Some(Suit::Diamonds)
    } else if s == "C"@ {
        Some(Suit::Clubs)
    } else if s == "S"@ {
        Some(Suit::Spades)
    } else {
        None
    }
}

/// The rank written as `s`, if any.
pub fn parse_rank(s: &str) -> (r: Option<Rank>)
    ensures
        r == rank_of_text(s@),
{
    if text_is(s, "2") {
        Some(Rank::Two)
    } else if text_is(s, "3") {
        Some(Rank::Three)
    } else if text_is(s, "4") {
        Some(Rank::Four)
    } else if text_is(s, "5") {
        Some(Rank::Five)
    } else if text_is(s, "6") {
        Some(Rank::Six)
    } else if text_is(s, "7") {
        Some(Rank::Seven)
    } else if text_is(s, "8") {
        Some(Rank::Eight)
    } else if text_is(s, "9") {
        Some(Rank::Nine)
    } else if text_is(s, "10") {
        Some(Rank::Ten)
    } else if text_is(s, "J") {
        Some(Rank::Jack)
    } else if text_is(s, "Q") {
        Some(Rank::Queen)
    } else if text_is(s, "K") {
        Some(Rank::King)
    } else if text_is(s, "A") {
        Some(Rank::Ace)
    } else {
        None
    }
}

/// The suit whose letter, already upper-cased, is `u`.
pub fn suit_from_upper(u: &str) -> (r: Option<Suit>)
    ensures
        r == suit_of_letter(u@),
{
    if text_is(u, "H") {
        Some(Suit::Hearts)
    } else if text_is(u, "D") {
        Some(Suit::Diamonds)
    } else if text_is(u, "C") {
        Some(Suit::Clubs)
    } else if text_is(u, "S") {
        Some(Suit::Spades)
    } else {
        None
    }
}

/// The suit whose letter is `s`, in either case.
pub fn parse_suit(s: &str) -> (r: Option<Suit>)
    ensures
        r == suit_of_letter(upper_of(s@)),
{
    let upper = to_upper(s);
    suit_from_upper(upper.as_str())
}

/// The rank part and the suit part of a card's notation of at least two
/// characters: "10" and the rest when it starts with "10", else all but
/// the last character and the last character.
pub open spec fn split_card_text(s: Seq<char>) -> (Seq<char>, Seq<char>) {
    if s.len() >= 2 && s.take(2) == "10"@ {
        ("10"@, s.skip(2))
    } else {
        (s.take(s.len() - 1), s.skip(s.len() - 1))
    }
}

/// `e` is the error for the invalid card notation `s`: the whole text
/// when it is shorter than two characters, else its rank part when that
/// names no rank, else its suit part.
pub open spec fn card_error(s: Seq<char>, e: ParseError) -> bool {
    let (rs, ss) = split_card_text(s);
    if s.len() < 2 {
        e matches ParseError::InvalidCard(t) && t@ == s
    } else if rank_of_text(rs) is None {
        e matches ParseError::InvalidRank(t) && t@ == rs
    } else {
        e matches ParseError::InvalidSuit(t) && t@ == ss
    }
}

/// Reads a card such as "AH", "10D" or "Ks".
pub fn parse_card(card_str: &str) -> (r: Result<Card, ParseError>)
    ensures
        r is Ok <==> card_text_valid(card_str@),
        r is Ok ==> parse_card_ok(card_str@, r->Ok_0),
        r is Err ==> card_error(card_str@, r->Err_0),
{
    let n = card_str.unicode_len();
    if n < 2 {
        return Err(ParseError::InvalidCard(card_str.to_owned()));
    }
    let head = card_str.substring_char(0, 2);
    let (rank_str, suit_str) = if text_is(head, "10") {
        ("10", card_str.substring_char(2, n))
    } else {
        (card_str.substring_char(0, n - 1), card_str.substring_char(n - 1, n))
    };
    proof {
        assert(card_str@.subrange(0, 2) =~= card_str@.take(2));
        assert(card_str@.subrange(2, n as int) =~= card_str@.skip(2));
        assert(card_str@.subrange(0, n - 1) =~= card_str@.take(n - 1));
        assert(card_str@.subrange(n - 1, n as int) =~= card_str@.skip(n - 1));
    }
    let rank = match parse_rank(rank_str) {
        Some(rank) => rank,
        None => return Err(ParseError::InvalidRank(rank_str.to_owned())),
    };
    let suit = match parse_suit(suit_str) {
        Some(suit) => suit,
        None => return Err(ParseError::InvalidSuit(suit_str.to_owned())),
    };
    Ok(Card::new(rank, suit))
}

/// `e` is the error for the first word of `words` that is not a card.
pub open spec fn first_card_error(words: Seq<Seq<char>>, e: ParseError) -> bool {
    exists|i: int|
        0 <= i < words.len() && !card_text_valid(#[trigger] words[i]) && card_error(words[i], e)
            && forall|k: int| 0 <= k < i ==> card_text_valid(#[trigger] words[k])
}

/// Reads the words of `tokens` as cards, in order, stopping at the first
/// that is not a card.
pub fn parse_tokens(tokens: &Vec<String>) -> (r: Result<Vec<Card>, ParseError>)
    ensures
        r is Ok <==> forall|i: int| 0 <= i < tokens@.len() ==> card_text_valid(#[trigger] tokens@[i]@),
        r is Ok ==> r->Ok_0@.len() == tokens@.len() && forall|i: int|
            0 <= i < tokens@.len() ==> #[trigger] parse_card_ok(tokens@[i]@, r->Ok_0@[i]),
        r is Err ==> first_card_error(tokens@.map_values(|t: String| t@), r->Err_0),
{
    let mut cards: Vec<Card> = Vec::new();
    let mut i: usize = 0;
    while i < tokens.len()
        invariant
            i <= tokens@.len(),
            cards@.len() == i,
            forall|k: int| 0 <= k < i ==> #[trigger] parse_card_ok(tokens@[k]@, cards@[k]),
            forall|k: int| 0 <= k < i ==> card_text_valid(#[trigger] tokens@[k]@),
        decreases tokens@.len() - i,
    {
        let card = parse_card(tokens[i].as_str());
        match card {
            Ok(c) => {
                cards.push(c);
            },
            Err(e) => {
                proof {
                    let words = tokens@.map_values(|t: String| t@);
                    assert(words[i as int] == tokens@[i as int]@);
                    assert forall|k: int| 0 <= k < i implies card_text_valid(#[trigger] words[k]) by {
                        assert(words[k] == tokens@[k]@);
                    }
                }
                return Err(e);
            },
        }
        i += 1;
    }
    Ok(cards)
}

/// `s` is the notation of a card.
pub open spec fn card_text_valid(s: Seq<char>) -> bool {
    let (rs, ss) = split_card_text(s);
    s.len() >= 2 && rank_of_text(rs) is Some && suit_of_letter(upper_of(ss)) is Some
}

/// `c` is the card written as `s`.
pub open spec fn parse_card_ok(s: Seq<char>, c: Card) -> bool {
    let (rs, ss) = split_card_text(s);
    card_text_valid(s) && c == plain_card(
        rank_of_text(rs).unwrap(),
        suit_of_letter(upper_of(ss)).unwrap(),
    )
}

/// Reads a hand written as cards separated by white space, such as
/// "AH KH QH JH 10H".
pub fn parse_hand(hand_str: &str) -> (r: Result<Vec<Card>, ParseError>)
    ensures
        r is Ok <==> forall|i: int|
            0 <= i < words_of(hand_str@).len() ==> card_text_valid(#[trigger] words_of(hand_str@)[i]),
        r is Ok ==> r->Ok_0@.len() == words_of(hand_str@).len() && forall|i: int|
            0 <= i < words_of(hand_str@).len() ==> #[trigger] parse_card_ok(
                words_of(hand_str@)[i],
                r->Ok_0@[i],
            ),
        r is Err ==> first_card_error(words_of(hand_str@), r->Err_0),
{
    let tokens = split_words(hand_str);
    let r = parse_tokens(&tokens);
    proof {
        let words = tokens@.map_values(|t: String| t@);
        assert(words =~= words_of(hand_str@));
        if r is Ok {
            assert forall|i: int| 0 <= i < words_of(hand_str@).len() implies #[trigger] parse_card_ok(
                words_of(hand_str@)[i],
                r->Ok_0@[i],
            ) by {
                assert(tokens@[i]@ == words_of(hand_str@)[i]);
                assert(parse_card_ok(tokens@[i]@, r->Ok_0@[i]));
            }
        } else {
            assert(!forall|i: int| 0 <= i < tokens@.len() ==> card_text_valid(#[trigger] tokens@[i]@));
            let i = choose|i: int| 0 <= i < tokens@.len() && !card_text_valid(#[trigger] tokens@[i]@);
            assert(tokens@[i]@ == words_of(hand_str@)[i]);
        }
    }
    r
}

/// How a rank is written in card notation.
pub open spec fn rank_text(r: Rank) -> Seq<char> {
    match r {
        Rank::Two => "2"@,
        Rank::Three => "3"@,
        Rank::Four => "4"@,
        Rank::Five => "5"@,
        Rank::Six => "6"@,
        Rank::Seven => "7"@,
        Rank::Eight => "8"@,
        Rank::Nine => "9"@,
        Rank::Ten => "10"@,
        Rank::Jack => "J"@,
        Rank::Queen => "Q"@,
        Rank::King => "K"@,
        Rank::Ace => "A"@,
    }
}

/// The symbol of a suit.
pub open spec fn suit_symbol(s: Suit) -> Seq<char> {
    match s {
        Suit::Hearts => "\u{2665}"@,
        Suit::Diamonds => "\u{2666}"@,
        Suit::Clubs => "\u{2663}"@,
        Suit::Spades => "\u{2660}"@,
    }
}

/// How a card is displayed: its rank and its suit symbol.
pub open spec fn card_display(c: Card) -> Seq<char> {
    rank_text(c.rank) + suit_symbol(c.suit)
}

/// How a list of cards is displayed: the cards separated by spaces.
pub open spec fn cards_display(s: Seq<Card>) -> Seq<char>
    decreases s.len(),
{
    if s.len() == 0 {
        Seq::empty()
    } else if s.len() == 1 {
        card_display(s[0])
    } else {
        cards_display(s.drop_last()) + " "@ + card_display(s.last())
    }
}

/// The rank and suit symbol of a card, such as "10♦".
pub fn format_card(card: &Card) -> (t: String)
    ensures
        t@ == card_display(*card),
{
    let rank: &str = match card.rank {
        Rank::Two => "2",
        Rank::Three => "3",
        Rank::Four => "4",
        Rank::Five => "5",
        Rank::Six => "6",
        Rank::Seven => "7",
        Rank::Eight => "8",
        Rank::Nine => "9",
        Rank::Ten => "10",
        Rank::Jack => "J",
        Rank::Queen => "Q",
        Rank::King => "K",
        Rank::Ace => "A",
    };
    let suit: &str = match card.suit {
        Suit::Hearts => "\u{2665}",
        Suit::Diamonds => "\u{2666}",
        Suit::Clubs => "\u{2663}",
        Suit::Spades => "\u{2660}",
    };
    rank.to_owned().concat(suit)
}

/// The cards displayed one after another, separated by spaces.
pub fn format_cards(cards: &[Card]) -> (t: String)
    ensures
        t@ == cards_display(cards@),
{
    let mut out = String::new();
    let mut i: usize = 0;
    while i < cards.len()
        invariant
            i <= cards@.len(),
            out@ == cards_display(cards@.take(i as int)),
        decreases cards@.len() - i,
    {
        let text = format_card(&cards[i]);
        proof {
            assert(cards@.take(i + 1).drop_last() =~= cards@.take(i as int));
        }
        if i > 0 {
            out.append(" ");
        }
        out.append(text.as_str());
        i += 1;
    }
    assert(cards@.take(i as int) =~= cards@);
    out
}

/// How the solver's results are shown.
#[derive(Debug, Clone, Copy, PartialEq, Eq, Structural)]
pub enum SolveOutputFormat {
    Pretty,
    Json,
    Compact,
}

/// How the simulator's results are shown.
#[derive(Debug, Clone, Copy, PartialEq, Eq, Structural)]
pub enum SimulateOutputFormat {
    Summary,
    Detailed,
    Csv,
}

/// The solver format named by the lower-cased text `l`.
pub open spec fn solve_format_of(l: Seq<char>) -> Option<SolveOutputFormat> {
    if l == "pretty"@ {
        Some(SolveOutputFormat::Pretty)
    } else if l == "json"@ {
        Some(SolveOutputFormat::Json)
    } else if l == "compact"@ {
        Some(SolveOutputFormat::Compact)
    } else {
        None
    }
}

/// The simulator format named by the lower-cased text `l`.
pub open spec fn simulate_format_of(l: Seq<char>) -> Option<SimulateOutputFormat> {
    if l == "summary"@ {
        Some(SimulateOutputFormat::Summary)
    } else if l == "detailed"@ {
        Some(SimulateOutputFormat::Detailed)
    } else if l == "csv"@ {
        Some(SimulateOutputFormat::Csv)
    } else {
        None
    }
}

impl SolveOutputFormat {
    /// The format named by the already lower-cased text `l`.
    pub fn from_lower(l: &str) -> (r: Option<SolveOutputFormat>)
        ensures
            r == solve_format_of(l@),
    {
        if text_is(l, "pretty") {
            Some(SolveOutputFormat::Pretty)
        } else if text_is(l, "json") {
            Some(SolveOutputFormat::Json)
        } else if text_is(l, "compact") {
            Some(SolveOutputFormat::Compact)
        } else {
            None
        }
    }

    /// The format named by `s`, in any case.
    pub fn parse(s: &str) -> (r: Option<SolveOutputFormat>)
        ensures
            r == solve_format_of(lower_of(s@)),
    {
        let lower = to_lower(s);
        Self::from_lower(lower.as_str())
    }
}

impl SimulateOutputFormat {
    /// The format named by the already lower-cased text `l`.
    pub fn from_lower(l: &str) -> (r: Option<SimulateOutputFormat>)
        ensures
            r == simulate_format_of(l@),
    {
        if text_is(l, "summary") {
            Some(SimulateOutputFormat::Summary)
        } else if text_is(l, "detailed") {
            Some(SimulateOutputFormat::Detailed)
        } else if text_is(l, "csv") {
            Some(SimulateOutputFormat::Csv)
        } else {
            None
        }
    }

    /// The format named by `s`, in any case.
    pub fn parse(s: &str) -> (r: Option<SimulateOutputFormat>)
        ensures
            r == simulate_format_of(lower_of(s@)),
    {
        let lower = to_lower(s);
        Self::from_lower(lower.as_str())
    }
}

impl std::str::FromStr for SolveOutputFormat {
    type Err = ParseError;

    fn from_str(s: &str) -> Result<SolveOutputFormat, ParseError> {
        match SolveOutputFormat::parse(s) {
            Some(f) => Ok(f),
            None => Err(ParseError::InvalidFormat(s.to_owned())),
        }
    }
}

impl std::str::FromStr for SimulateOutputFormat {
    type Err = ParseError;

    fn from_str(s: &str) -> Result<SimulateOutputFormat, ParseError> {
        match SimulateOutputFormat::parse(s) {
            Some(f) => Ok(f),
            None => Err(ParseError::InvalidFormat(s.to_owned())),
        }
    }
}

} // verus!

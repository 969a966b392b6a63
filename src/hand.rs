//! Hand types and the classification of a set of cards into one of them.

use vstd::prelude::*;
use crate::card::{Card, Suit, rank_value};

verus! {

/// The poker hand types, from weakest to strongest.
#[derive(Debug, Clone, Copy, PartialEq, Eq, PartialOrd, Ord, Hash, Structural)]
pub enum HandType {
    HighCard,
    Pair,
    TwoPair,
    ThreeOfAKind,
    Straight,
    Flush,
    FullHouse,
    FourOfAKind,
    StraightFlush,
    FiveOfAKind,
    FlushHouse,
    FlushFive,
}

/// The base chips of each hand type.
pub open spec fn type_chips(t: HandType) -> int {
    match t {
        HandType::HighCard => 5,
        HandType::Pair => 10,
        HandType::TwoPair => 20,
        HandType::ThreeOfAKind => 30,
        HandType::Straight => 30,
        HandType::Flush => 35,
        HandType::FullHouse => 40,
        HandType::FourOfAKind => 60,
        HandType::StraightFlush => 100,
        HandType::FiveOfAKind => 120,
        HandType::FlushHouse => 140,
        HandType::FlushFive => 160,
    }
}

/// The base mult of each hand type.
pub open spec fn type_mult(t: HandType) -> int {
    match t {
        HandType::HighCard => 1,
        HandType::Pair => 2,
        HandType::TwoPair => 2,
        HandType::ThreeOfAKind => 3,
        HandType::Straight => 4,
        HandType::Flush => 4,
        HandType::FullHouse => 4,
        HandType::FourOfAKind => 7,
        HandType::StraightFlush => 8,
        HandType::FiveOfAKind => 12,
        HandType::FlushHouse => 14,
        HandType::FlushFive => 16,
    }
}

impl HandType {
    /// The base chips of this hand type.
    pub fn base_chips(&self) -> (c: u32)
        ensures
            c == type_chips(*self),
    {
        match self {
            HandType::HighCard => 5,
            HandType::Pair => 10,
            HandType::TwoPair => 20,
            HandType::ThreeOfAKind => 30,
            HandType::Straight => 30,
            HandType::Flush => 35,
            HandType::FullHouse => 40,
            HandType::FourOfAKind => 60,
            HandType::StraightFlush => 100,
            HandType::FiveOfAKind => 120,
            HandType::FlushHouse => 140,
            HandType::FlushFive => 160,
        }
    }

    /// The base mult of this hand type.
    pub fn base_mult(&self) -> (m: u32)
        ensures
            m == type_mult(*self),
    {
        match self {
            HandType::HighCard => 1,
            HandType::Pair => 2,
            HandType::TwoPair => 2,
            HandType::ThreeOfAKind => 3,
            HandType::Straight => 4,
            HandType::Flush => 4,
            HandType::FullHouse => 4,
            HandType::FourOfAKind => 7,
            HandType::StraightFlush => 8,
            HandType::FiveOfAKind => 12,
            HandType::FlushHouse => 14,
            HandType::FlushFive => 16,
        }
    }
}

/// The number of cards of `s` that satisfy `p`.
pub open spec fn count_where(s: Seq<Card>, p: spec_fn(Card) -> bool) -> nat
    decreases s.len(),
{
    if s.len() == 0 {
        0
    } else {
        count_where(s.drop_last(), p) + if p(s.last()) {
            1nat
        } else {
            0nat
        }
    }
}

/// The number of cards of `s` whose rank has value `v`.
pub open spec fn value_count(s: Seq<Card>, v: int) -> nat {
    count_where(s, |c: Card| rank_value(c.rank) == v)
}

/// The number of cards of `s` of suit `su`.
pub open spec fn suit_count(s: Seq<Card>, su: Suit) -> nat {
    count_where(s, |c: Card| c.suit == su)
}

/// At least five cards, all of one suit.
pub open spec fn is_flush(s: Seq<Card>) -> bool {
    s.len() >= 5 && exists|su: Suit| #[trigger] suit_count(s, su) == s.len()
}

/// Some card of `s` has a rank of value `v`.
pub open spec fn has_value(s: Seq<Card>, v: int) -> bool {
    value_count(s, v) > 0
}

/// The five consecutive rank values starting at `lo` all occur in `s`.
pub open spec fn has_run_from(s: Seq<Card>, lo: int) -> bool {
    has_value(s, lo) && has_value(s, lo + 1) && has_value(s, lo + 2) && has_value(s, lo + 3)
        && has_value(s, lo + 4)
}

/// Ace, Two, Three, Four and Five all occur in `s`.
pub open spec fn has_ace_low_run(s: Seq<Card>) -> bool {
    has_value(s, 14) && has_value(s, 2) && has_value(s, 3) && has_value(s, 4) && has_value(s, 5)
}

/// At least five cards, among which five consecutive rank values occur,
/// the Ace counting high or low.
pub open spec fn is_straight(s: Seq<Card>) -> bool {
    s.len() >= 5 && ((exists|lo: int| 2 <= lo <= 10 && #[trigger] has_run_from(s, lo))
        || has_ace_low_run(s))
}

/// Some rank occurs exactly `n` times in `s`.
pub open spec fn has_count(s: Seq<Card>, n: nat) -> bool {
    exists|v: int| 2 <= v <= 14 && #[trigger] value_count(s, v) == n
}

/// Some rank occurs at least `n` times in `s`.
pub open spec fn has_count_at_least(s: Seq<Card>, n: nat) -> bool {
    exists|v: int| 2 <= v <= 14 && #[trigger] value_count(s, v) >= n
}

/// The largest number of cards of `s` that share a rank is `n`.
pub open spec fn max_count_is(s: Seq<Card>, n: nat) -> bool {
    has_count(s, n) && forall|v: int| 2 <= v <= 14 ==> #[trigger] value_count(s, v) <= n
}

/// Two different ranks each occur exactly twice in `s`.
pub open spec fn has_two_pairs(s: Seq<Card>) -> bool {
    exists|v: int, w: int|
        2 <= v <= 14 && 2 <= w <= 14 && v != w && #[trigger] value_count(s, v) == 2
            && #[trigger] value_count(s, w) == 2
}

/// A rank occurs exactly three times and another exactly twice.
pub open spec fn has_full_house(s: Seq<Card>) -> bool {
    has_count(s, 3) && has_count(s, 2)
}

/// The hand type of a set of cards: the first type, in order of
/// precedence, whose condition the cards meet.
pub open spec fn hand_type_of(s: Seq<Card>) -> HandType {
    let flush = is_flush(s);
    let straight = is_straight(s);
    if has_count_at_least(s, 5) && flush {
        HandType::FlushFive
    } else if flush && has_full_house(s) {
        HandType::FlushHouse
    } else if has_count_at_least(s, 5) {
        HandType::FiveOfAKind
    } else if straight && flush {
        HandType::StraightFlush
    } else if max_count_is(s, 4) {
        HandType::FourOfAKind
    } else if has_full_house(s) {
        HandType::FullHouse
    } else if flush {
        HandType::Flush
    } else if straight {
        HandType::Straight
    } else if max_count_is(s, 3) {
        HandType::ThreeOfAKind
    } else if has_two_pairs(s) {
        HandType::TwoPair
    } else if max_count_is(s, 2) {
        HandType::Pair
    } else {
        HandType::HighCard
    }
}

/// A count never exceeds the number of cards.
pub proof fn lemma_count_le_len(s: Seq<Card>, p: spec_fn(Card) -> bool)
    ensures
        count_where(s, p) <= s.len(),
    decreases s.len(),
{
    if s.len() > 0 {
        lemma_count_le_len(s.drop_last(), p);
    }
}

/// A card that fails `p` keeps the count below the number of cards.
proof fn lemma_count_lt_len(s: Seq<Card>, p: spec_fn(Card) -> bool, i: int)
    requires
        0 <= i < s.len(),
        !p(s[i]),
    ensures
        count_where(s, p) < s.len(),
    decreases s.len(),
{
    if i == s.len() - 1 {
        lemma_count_le_len(s.drop_last(), p);
    } else {
        lemma_count_lt_len(s.drop_last(), p, i);
    }
}

/// Counting over one more card of a prefix.
proof fn lemma_count_take_step(s: Seq<Card>, p: spec_fn(Card) -> bool, i: int)
    requires
        0 <= i < s.len(),
    ensures
        count_where(s.take(i + 1), p) == count_where(s.take(i), p) + if p(s[i]) {
            1nat
        } else {
            0nat
        },
{
    assert(s.take(i + 1).drop_last() =~= s.take(i));
}

/// The count over a concatenation is the sum of the counts.
proof fn lemma_count_concat(a: Seq<Card>, b: Seq<Card>, p: spec_fn(Card) -> bool)
    ensures
        count_where(a + b, p) == count_where(a, p) + count_where(b, p),
    decreases b.len(),
{
    if b.len() == 0 {
        assert(a + b =~= a);
    } else {
        assert((a + b).drop_last() =~= a + b.drop_last());
        lemma_count_concat(a, b.drop_last(), p);
    }
}

/// Counts do not depend on the order of the cards.
pub proof fn lemma_count_permutation(a: Seq<Card>, b: Seq<Card>, p: spec_fn(Card) -> bool)
    requires
        a.to_multiset() == b.to_multiset(),
    ensures
        count_where(a, p) == count_where(b, p),
    decreases a.len(),
{
    broadcast use vstd::seq_lib::group_to_multiset_ensures;

    if a.len() == 0 {
        assert(b.to_multiset().len() == 0);
        assert(b.len() == 0);
    } else {
        let x = a.last();
        assert(a =~= a.drop_last().push(x));
        assert(a.to_multiset().count(x) > 0);
        assert(b.contains(x));
        let j = choose|j: int| 0 <= j < b.len() && b[j] == x;
        let b2 = b.remove(j);
        assert(b2.to_multiset() == b.to_multiset().remove(x));
        assert(a.drop_last().to_multiset() =~= a.to_multiset().remove(x));
        lemma_count_permutation(a.drop_last(), b2, p);
        assert(b =~= b.take(j) + seq![x] + b.skip(j + 1));
        assert(b2 =~= b.take(j) + b.skip(j + 1));
        lemma_count_concat(b.take(j) + seq![x], b.skip(j + 1), p);
        lemma_count_concat(b.take(j), seq![x], p);
        lemma_count_concat(b.take(j), b.skip(j + 1), p);
        assert(seq![x].drop_last() =~= Seq::<Card>::empty());
        assert(count_where(Seq::<Card>::empty(), p) == 0);
        assert(count_where(seq![x], p) == if p(x) {
            1nat
        } else {
            0nat
        });
    }
}

/// The hand type depends only on which cards are given, not on their
/// order: two sequences holding the same multiset of cards get the same
/// type.
pub proof fn lemma_hand_type_permutation(a: Seq<Card>, b: Seq<Card>)
    requires
        a.to_multiset() == b.to_multiset(),
    ensures
        hand_type_of(a) == hand_type_of(b),
{
    broadcast use vstd::seq_lib::group_to_multiset_ensures;

    assert(a.len() == a.to_multiset().len());
    assert(b.len() == b.to_multiset().len());
    assert forall|v: int|
        #![trigger value_count(a, v)]
        #![trigger value_count(b, v)]
        value_count(a, v) == value_count(b, v) by {
        lemma_count_permutation(a, b, |c: Card| rank_value(c.rank) == v);
    }
    assert forall|su: Suit|
        #![trigger suit_count(a, su)]
        #![trigger suit_count(b, su)]
        suit_count(a, su) == suit_count(b, su) by {
        lemma_count_permutation(a, b, |c: Card| c.suit == su);
    }
    assert(is_flush(a) == is_flush(b));
    assert forall|lo: int|
        #![trigger has_run_from(a, lo)]
        #![trigger has_run_from(b, lo)]
        has_run_from(a, lo) == has_run_from(b, lo) by {
        assert(value_count(a, lo) == value_count(b, lo));
        assert(value_count(a, lo + 1) == value_count(b, lo + 1));
        assert(value_count(a, lo + 2) == value_count(b, lo + 2));
        assert(value_count(a, lo + 3) == value_count(b, lo + 3));
        assert(value_count(a, lo + 4) == value_count(b, lo + 4));
    }
    assert(has_ace_low_run(a) == has_ace_low_run(b)) by {
        assert(value_count(a, 14) == value_count(b, 14));
        assert(value_count(a, 2) == value_count(b, 2));
        assert(value_count(a, 3) == value_count(b, 3));
        assert(value_count(a, 4) == value_count(b, 4));
        assert(value_count(a, 5) == value_count(b, 5));
    }
    assert(is_straight(a) == is_straight(b));
    assert(has_count_at_least(a, 5) == has_count_at_least(b, 5));
    assert(has_count(a, 4) == has_count(b, 4));
    assert(has_count(a, 3) == has_count(b, 3));
    assert(has_count(a, 2) == has_count(b, 2));
    assert(max_count_is(a, 4) == max_count_is(b, 4));
    assert(max_count_is(a, 3) == max_count_is(b, 3));
    assert(max_count_is(a, 2) == max_count_is(b, 2));
    assert(has_two_pairs(a) == has_two_pairs(b));
}

/// The total number of cards of `s` whose rank value is listed in `vs`,
/// counted once per entry of `vs`.
pub open spec fn values_count(s: Seq<Card>, vs: Seq<int>) -> nat
    decreases vs.len(),
{
    if vs.len() == 0 {
        0
    } else {
        values_count(s, vs.drop_last()) + value_count(s, vs.last())
    }
}

/// Counting the cards that meet one of two exclusive conditions.
proof fn lemma_count_disjoint(
    s: Seq<Card>,
    p: spec_fn(Card) -> bool,
    q: spec_fn(Card) -> bool,
    r: spec_fn(Card) -> bool,
)
    requires
        forall|c: Card| #[trigger] r(c) == (p(c) || q(c)),
        forall|c: Card| !(#[trigger] p(c) && q(c)),
    ensures
        count_where(s, r) == count_where(s, p) + count_where(s, q),
    decreases s.len(),
{
    if s.len() > 0 {
        lemma_count_disjoint(s.drop_last(), p, q, r);
    }
}

/// Counting over distinct rank values never exceeds the number of cards.
proof fn lemma_values_count_le(s: Seq<Card>, vs: Seq<int>)
    requires
        vs.no_duplicates(),
    ensures
        values_count(s, vs) == count_where(s, |c: Card| vs.contains(rank_value(c.rank))),
        values_count(s, vs) <= s.len(),
    decreases vs.len(),
{
    let in_vs = |c: Card| vs.contains(rank_value(c.rank));
    if vs.len() == 0 {
        assert(count_where(s, in_vs) == 0) by {
            lemma_count_none(s, in_vs);
        }
    } else {
        let init = vs.drop_last();
        assert(init.no_duplicates());
        lemma_values_count_le(s, init);
        let in_init = |c: Card| init.contains(rank_value(c.rank));
        let is_last = |c: Card| rank_value(c.rank) == vs.last();
        assert forall|c: Card| #[trigger] in_vs(c) == (in_init(c) || is_last(c)) by {
            if in_vs(c) {
                let k = choose|k: int| 0 <= k < vs.len() && vs[k] == rank_value(c.rank);
                if k < vs.len() - 1 {
                    assert(init[k] == vs[k]);
                }
            }
            if in_init(c) {
                let k = choose|k: int| 0 <= k < init.len() && init[k] == rank_value(c.rank);
                assert(vs[k] == init[k]);
            }
            if is_last(c) {
                assert(vs[vs.len() - 1] == rank_value(c.rank));
            }
        }
        assert forall|c: Card| !(#[trigger] in_init(c) && is_last(c)) by {
            if in_init(c) && is_last(c) {
                let k = choose|k: int| 0 <= k < init.len() && init[k] == rank_value(c.rank);
                assert(vs[k] == vs[vs.len() - 1]);
            }
        }
        lemma_count_disjoint(s, in_init, is_last, in_vs);
    }
    lemma_count_le_len(s, in_vs);
}

/// No card satisfies a condition that holds of no card.
proof fn lemma_count_none(s: Seq<Card>, p: spec_fn(Card) -> bool)
    requires
        forall|c: Card| !#[trigger] p(c),
    ensures
        count_where(s, p) == 0,
    decreases s.len(),
{
    if s.len() > 0 {
        lemma_count_none(s.drop_last(), p);
    }
}

/// Five cards holding five distinct rank values hold each value once.
proof fn lemma_run_counts_at_most_one(s: Seq<Card>, run: Seq<int>)
    requires
        s.len() == 5,
        run.len() == 5,
        run.no_duplicates(),
        forall|k: int| 0 <= k < 5 ==> value_count(s, #[trigger] run[k]) > 0,
    ensures
        forall|v: int| #[trigger] value_count(s, v) <= 1,
{
    reveal_with_fuel(values_count, 7);
    assert forall|v: int| #[trigger] value_count(s, v) <= 1 by {
        if value_count(s, v) > 1 {
            if run.contains(v) {
                let k = choose|k: int| 0 <= k < 5 && run[k] == v;
                lemma_values_count_le(s, run);
                assert(run =~= seq![run[0], run[1], run[2], run[3], run[4]]);
                assert(values_count(s, run) == value_count(s, run[0]) + value_count(s, run[1])
                    + value_count(s, run[2]) + value_count(s, run[3]) + value_count(s, run[4]));
                assert(value_count(s, run[k]) > 1);
                assert(value_count(s, run[0]) > 0);
                assert(value_count(s, run[1]) > 0);
                assert(value_count(s, run[2]) > 0);
                assert(value_count(s, run[3]) > 0);
                assert(value_count(s, run[4]) > 0);
            } else {
                let vs = run.push(v);
                assert(vs.no_duplicates()) by {
                    assert forall|i: int, j: int|
                        0 <= i < vs.len() && 0 <= j < vs.len() && i != j implies vs[i] != vs[j] by {
                        if i < 5 && j < 5 {
                            assert(vs[i] == run[i] && vs[j] == run[j]);
                        } else if i == 5 {
                            assert(vs[j] == run[j]);
                        } else {
                            assert(vs[i] == run[i]);
                        }
                    }
                }
                lemma_values_count_le(s, vs);
                assert(vs.drop_last() =~= run);
                assert(run =~= seq![run[0], run[1], run[2], run[3], run[4]]);
                assert(values_count(s, run) == value_count(s, run[0]) + value_count(s, run[1])
                    + value_count(s, run[2]) + value_count(s, run[3]) + value_count(s, run[4]));
                assert(value_count(s, run[0]) > 0);
                assert(value_count(s, run[1]) > 0);
                assert(value_count(s, run[2]) > 0);
                assert(value_count(s, run[3]) > 0);
                assert(value_count(s, run[4]) > 0);
            }
        }
    }
}

/// A five-card hand that is both a flush and a straight is always a
/// straight flush, never a plain flush or straight.
pub proof fn lemma_straight_flush_precedence(s: Seq<Card>)
    requires
        s.len() == 5,
        is_flush(s),
        is_straight(s),
    ensures
        hand_type_of(s) == HandType::StraightFlush,
{
    if has_ace_low_run(s) {
        lemma_run_counts_at_most_one(s, seq![14, 2, 3, 4, 5]);
    } else {
        let lo = choose|lo: int| 2 <= lo <= 10 && #[trigger] has_run_from(s, lo);
        lemma_run_counts_at_most_one(s, seq![lo, lo + 1, lo + 2, lo + 3, lo + 4]);
    }
    assert(!has_count_at_least(s, 5));
    assert(!has_count(s, 3));
}

/// A hand: the cards that are played together.
#[derive(Debug, Clone, PartialEq, Eq)]
pub struct Hand {
    pub cards: Vec<Card>,
}

impl View for Hand {
    type V = Seq<Card>;

    open spec fn view(&self) -> Seq<Card> {
        self.cards@
    }
}

/// `counts` holds, at each rank value below 15, how many cards of `s`
/// have a rank of that value.
pub open spec fn counts_of(s: Seq<Card>, counts: Seq<usize>) -> bool {
    counts.len() == 15 && forall|v: int|
        #![trigger counts[v]]
        #![trigger value_count(s, v)]
        0 <= v < 15 ==> counts[v] == value_count(s, v)
}

impl Hand {
    /// A hand of the given cards.
    pub fn new(cards: Vec<Card>) -> (h: Hand)
        ensures
            h@ == cards@,
    {
        Hand { cards }
    }

    /// The type of this hand.
    pub fn evaluate(&self) -> (t: HandType)
        ensures
            t == hand_type_of(self@),
    {
        let is_flush = self.is_flush();
        let counts = self.rank_counts();
        let is_straight = self.is_straight(&counts);
        proof {
            let s = self@;
            assert(Self::at_least(counts@, 5) == has_count_at_least(s, 5));
            assert(Self::exactly(counts@, 4) == has_count(s, 4));
            assert(Self::exactly(counts@, 3) == has_count(s, 3));
            assert(Self::exactly(counts@, 2) == has_count(s, 2));
            assert(Self::two_pairs(counts@) == has_two_pairs(s));
        }
        match Self::check_special_hands(&counts, is_flush, is_straight) {
            Some(t) => t,
            None => Self::check_standard_hands(&counts, is_flush, is_straight),
        }
    }

    /// The hand types that only special decks reach: five of a kind and
    /// the flush variants of five of a kind and full house.
    fn check_special_hands(counts: &Vec<usize>, is_flush: bool, _is_straight: bool) -> (r:
        Option<HandType>)
        requires
            counts@.len() == 15,
        ensures
            r == (if Self::at_least(counts@, 5) && is_flush {
                Some(HandType::FlushFive)
            } else if is_flush && Self::exactly(counts@, 3) && Self::exactly(counts@, 2) {
                Some(HandType::FlushHouse)
            } else if Self::at_least(counts@, 5) {
                Some(HandType::FiveOfAKind)
            } else {
                None
            }),
    {
        let max_count = Self::max_count(counts);
        if max_count >= 5 && is_flush {
            return Some(HandType::FlushFive);
        }
        if is_flush && Self::is_full_house(counts) {
            return Some(HandType::FlushHouse);
        }
        if max_count >= 5 {
            return Some(HandType::FiveOfAKind);
        }
        None
    }

    /// The standard poker hand types, in order of precedence.
    fn check_standard_hands(counts: &Vec<usize>, is_flush: bool, is_straight: bool) -> (t:
        HandType)
        requires
            counts@.len() == 15,
        ensures
            t == (if is_straight && is_flush {
                HandType::StraightFlush
            } else if Self::max_is(counts@, 4) {
                HandType::FourOfAKind
            } else if Self::exactly(counts@, 3) && Self::exactly(counts@, 2) {
                HandType::FullHouse
            } else if is_flush {
                HandType::Flush
            } else if is_straight {
                HandType::Straight
            } else if Self::max_is(counts@, 3) {
                HandType::ThreeOfAKind
            } else if Self::two_pairs(counts@) {
                HandType::TwoPair
            } else if Self::max_is(counts@, 2) {
                HandType::Pair
            } else {
                HandType::HighCard
            }),
    {
        let max_count = Self::max_count(counts);
        let has_two_pairs = Self::has_two_pairs(counts);
        if is_straight && is_flush {
            return HandType::StraightFlush;
        }
        if max_count == 4 {
            return HandType::FourOfAKind;
        }
        if Self::is_full_house(counts) {
            return HandType::FullHouse;
        }
        if is_flush {
            return HandType::Flush;
        }
        if is_straight {
            return HandType::Straight;
        }
        if max_count == 3 {
            return HandType::ThreeOfAKind;
        }
        if has_two_pairs {
            return HandType::TwoPair;
        }
        if max_count == 2 {
            return HandType::Pair;
        }
        HandType::HighCard
    }

    /// Some rank value holds exactly `n` cards in the count table.
    pub open spec fn exactly(counts: Seq<usize>, n: int) -> bool {
        exists|v: int| 2 <= v <= 14 && #[trigger] counts[v] == n
    }

    /// The largest count in the table is `n`.
    pub open spec fn max_is(counts: Seq<usize>, n: int) -> bool {
        Self::exactly(counts, n) && forall|v: int| 2 <= v <= 14 ==> #[trigger] counts[v] <= n
    }

    /// Some rank value holds at least `n` cards in the count table.
    pub open spec fn at_least(counts: Seq<usize>, n: int) -> bool {
        exists|v: int| 2 <= v <= 14 && #[trigger] counts[v] >= n
    }

    /// Two different rank values hold exactly two cards each.
    pub open spec fn two_pairs(counts: Seq<usize>) -> bool {
        exists|v: int, w: int|
            2 <= v <= 14 && 2 <= w <= 14 && v != w && #[trigger] counts[v] == 2 && #[trigger] counts[w]
                == 2
    }

    /// The largest count in the table.
    fn max_count(counts: &Vec<usize>) -> (m: usize)
        requires
            counts@.len() == 15,
        ensures
            forall|v: int| 2 <= v <= 14 ==> #[trigger] counts@[v] <= m,
            m == 0 || Self::exactly(counts@, m as int),
            m >= 5 <==> Self::at_least(counts@, 5),
    {
        let mut m: usize = 0;
        let mut v: usize = 2;
        while v < 15
            invariant
                2 <= v <= 15,
                counts@.len() == 15,
                forall|w: int| 2 <= w < v ==> #[trigger] counts@[w] <= m,
                m == 0 || exists|w: int| 2 <= w < v && #[trigger] counts@[w] == m,
            decreases 15 - v,
        {
            if counts[v] > m {
                m = counts[v];
            }
            v += 1;
        }
        m
    }

    /// Whether two different rank values hold exactly two cards each.
    fn has_two_pairs(counts: &Vec<usize>) -> (b: bool)
        requires
            counts@.len() == 15,
        ensures
            b == Self::two_pairs(counts@),
    {
        let mut seen_one = false;
        let mut seen_two = false;
        let mut v: usize = 2;
        while v < 15
            invariant
                2 <= v <= 15,
                counts@.len() == 15,
                seen_one == exists|w: int| 2 <= w < v && #[trigger] counts@[w] == 2,
                seen_two == exists|w: int, x: int|
                    2 <= w < v && 2 <= x < v && w != x && #[trigger] counts@[w] == 2
                        && #[trigger] counts@[x] == 2,
            decreases 15 - v,
        {
            if counts[v] == 2 {
                if seen_one {
                    seen_two = true;
                }
                seen_one = true;
            }
            v += 1;
        }
        seen_two
    }

    /// Whether some count is exactly `n`.
    fn any_count(counts: &Vec<usize>, n: usize) -> (b: bool)
        requires
            counts@.len() == 15,
        ensures
            b == Self::exactly(counts@, n as int),
    {
        let mut v: usize = 2;
        while v < 15
            invariant
                2 <= v <= 15,
                counts@.len() == 15,
                forall|w: int| 2 <= w < v ==> #[trigger] counts@[w] != n,
            decreases 15 - v,
        {
            if counts[v] == n {
                return true;
            }
            v += 1;
        }
        false
    }

    /// Whether the table shows a three-count and a two-count.
    fn is_full_house(counts: &Vec<usize>) -> (b: bool)
        requires
            counts@.len() == 15,
        ensures
            b == (Self::exactly(counts@, 3) && Self::exactly(counts@, 2)),
    {
        let has_three = Self::any_count(counts, 3);
        let has_pair = Self::any_count(counts, 2);
        has_three && has_pair
    }

    /// Whether the hand has at least five cards, all of one suit.
    fn is_flush(&self) -> (b: bool)
        ensures
            b == is_flush(self@),
    {
        let n = self.cards.len();
        if n < 5 {
            return false;
        }
        let first_suit = self.cards[0].suit;
        let ghost s = self@;
        let ghost p = |c: Card| c.suit == first_suit;
        let mut i: usize = 0;
        while i < n
            invariant
                i <= n,
                n == s.len(),
                s == self@,
                n >= 5,
                first_suit == s[0].suit,
                p == (|c: Card| c.suit == first_suit),
                forall|k: int| 0 <= k < i ==> #[trigger] s[k].suit == first_suit,
                count_where(s.take(i as int), p) == i,
            decreases n - i,
        {
            if self.cards[i].suit != first_suit {
                proof {
                    assert forall|su: Suit| #[trigger] suit_count(s, su) != s.len() by {
                        if su == first_suit {
                            lemma_count_lt_len(s, |c: Card| c.suit == su, i as int);
                        } else {
                            lemma_count_lt_len(s, |c: Card| c.suit == su, 0);
                        }
                    }
                }
                return false;
            }
            proof {
                lemma_count_take_step(s, p, i as int);
            }
            i += 1;
        }
        proof {
            assert(s.take(n as int) =~= s);
            assert(suit_count(s, first_suit) == s.len());
        }
        true
    }

    /// Whether the cards hold five consecutive rank values (the Ace high or
    /// low), given the count table of the hand.
    fn is_straight(&self, counts: &Vec<usize>) -> (b: bool)
        requires
            counts_of(self@, counts@),
        ensures
            b == is_straight(self@),
    {
        if self.cards.len() < 5 {
            return false;
        }
        let ghost s = self@;
        let mut lo: usize = 2;
        while lo <= 10
            invariant
                2 <= lo <= 11,
                s == self@,
                s.len() >= 5,
                counts_of(s, counts@),
                forall|l: int| 2 <= l < lo ==> !#[trigger] has_run_from(s, l),
            decreases 11 - lo,
        {
            if counts[lo] > 0 && counts[lo + 1] > 0 && counts[lo + 2] > 0 && counts[lo + 3] > 0
                && counts[lo + 4] > 0 {
                assert(has_run_from(s, lo as int));
                assert(is_straight(s));
                return true;
            }
            lo += 1;
        }
        counts[14] > 0 && counts[2] > 0 && counts[3] > 0 && counts[4] > 0 && counts[5] > 0
    }

    /// How many cards share each rank value, indexed by value.
    fn rank_counts(&self) -> (counts: Vec<usize>)
        ensures
            counts_of(self@, counts@),
    {
        let ghost s = self@;
        let mut counts: Vec<usize> = Vec::new();
        let mut v: usize = 0;
        while v < 15
            invariant
                v <= 15,
                counts@.len() == v,
                forall|w: int| 0 <= w < v ==> #[trigger] counts@[w] == 0,
            decreases 15 - v,
        {
            counts.push(0);
            v += 1;
        }
        let n = self.cards.len();
        let mut i: usize = 0;
        while i < n
            invariant
                i <= n,
                n == s.len(),
                s == self@,
                counts_of(s.take(i as int), counts@),
            decreases n - i,
        {
            let v = self.cards[i].rank.value() as usize;
            proof {
                assert forall|w: int| 0 <= w < 15 implies #[trigger] counts@[w] <= i by {
                    lemma_count_le_len(s.take(i as int), |c: Card| rank_value(c.rank) == w);
                }
                assert forall|w: int| 0 <= w < 15 implies value_count(s.take(i + 1), w)
                    == value_count(s.take(i as int), w) + if rank_value(s[i as int].rank) == w {
                    1nat
                } else {
                    0nat
                } by {
                    lemma_count_take_step(s, |c: Card| rank_value(c.rank) == w, i as int);
                }
            }
            let c = counts[v];
            counts.set(v, c + 1);
            i += 1;
        }
        proof {
            assert(s.take(n as int) =~= s);
        }
        counts
    }
}

} // verus!

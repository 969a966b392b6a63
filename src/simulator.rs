//! Monte Carlo batches: draw random hands from a deck, solve each, and
//! summarise the best scores.

use vstd::prelude::*;
use rand::seq::SliceRandom;
use rand::rngs::OsRng;
use rand::SeedableRng;
use rand_chacha::ChaCha8Rng;
use crate::card::{Card, plain_card, rank_at, rank_at_index, suit_at, suit_at_index};
use crate::joker::Joker;
use crate::solver::{Solver, ranking};

verus! {

#[verifier::external_type_specification]
#[verifier::external_body]
pub struct ExChaCha8Rng(ChaCha8Rng);

/// Relies on `SeedableRng::seed_from_u64` of rand_core, as implemented
/// for `ChaCha8Rng`: a generator whose stream is fixed by the seed.
#[verifier::external_body]
fn rng_from_seed(seed: u64) -> (r: ChaCha8Rng) {
    ChaCha8Rng::seed_from_u64(seed)
}

/// Relies on `SeedableRng::from_rng` of rand_core with rand's `OsRng`: a
/// generator seeded from the operating system, or `None` when the system
/// gives no randomness.
#[verifier::external_body]
fn rng_from_os() -> (r: Option<ChaCha8Rng>) {
    ChaCha8Rng::from_rng(OsRng).ok()
}

/// The order in which `SliceRandom::shuffle` leaves a list of `len` items
/// when it draws from the ChaCha8 stream seeded with `seed`, after lists of
/// the lengths `earlier` were shuffled with the same stream: position `i`
/// receives the item from position `order[i]`.
pub uninterp spec fn shuffle_order(seed: u64, earlier: Seq<nat>, len: nat) -> Seq<int>;

/// `deck` rearranged so that position `i` holds the card at `order[i]`.
pub open spec fn rearranged(deck: Seq<Card>, order: Seq<int>) -> Seq<Card> {
    Seq::new(deck.len(), |i: int| deck[order[i]])
}

/// `k` entries, each `len`.
pub open spec fn repeated(len: nat, k: nat) -> Seq<nat> {
    Seq::new(k, |i: int| len)
}

/// A ChaCha8 generator used only to shuffle, with a record of its seed
/// (none when it was seeded by the system) and of the lengths of the
/// lists shuffled with it so far.
pub struct Shuffler {
    rng: ChaCha8Rng,
    seed: Ghost<Option<u64>>,
    shuffled: Ghost<Seq<nat>>,
}

impl Shuffler {
    /// The seed the generator was made from, if any.
    pub closed spec fn seed(&self) -> Option<u64> {
        self.seed@
    }

    /// The lengths of the lists shuffled so far, in order.
    pub closed spec fn shuffled(&self) -> Seq<nat> {
        self.shuffled@
    }

    /// A generator whose stream is fixed by `seed`.
    pub fn from_seed(seed: u64) -> (r: Shuffler)
        ensures
            r.seed() == Some(seed),
            r.shuffled() == Seq::<nat>::empty(),
    {
        Shuffler { rng: rng_from_seed(seed), seed: Ghost(Some(seed)), shuffled: Ghost(Seq::empty()) }
    }

    /// A generator seeded by the operating system, if it gives randomness.
    pub fn from_os() -> (r: Option<Shuffler>)
        ensures
            r matches Some(g) ==> g.seed() is None && g.shuffled() == Seq::<nat>::empty(),
    {
        match rng_from_os() {
            Some(rng) => Some(Shuffler { rng, seed: Ghost(None), shuffled: Ghost(Seq::empty()) }),
            None => None,
        }
    }
}

/// Relies on `SliceRandom::shuffle` of rand 0.8, which permutes the slice
/// in place by swaps (Fisher-Yates) at positions drawn from the generator.
/// The positions depend only on the generator's state and the length, so
/// for a seeded generator used for nothing but shuffles they depend only
/// on the seed, the lengths shuffled before, and this length.
#[verifier::external_body]
fn shuffle_cards(deck: &mut Vec<Card>, rng: &mut Shuffler)
    ensures
        final(deck)@.len() == old(deck)@.len(),
        final(deck)@.to_multiset() == old(deck)@.to_multiset(),
        final(rng).seed() == old(rng).seed(),
        final(rng).shuffled() == old(rng).shuffled().push(old(deck)@.len()),
        old(rng).seed() matches Some(s) ==> final(deck)@ == rearranged(
            old(deck)@,
            shuffle_order(s, old(rng).shuffled(), old(deck)@.len()),
        ),
{
    deck.shuffle(&mut rng.rng);
}

/// Relies on `slice::sort_unstable` of std: the same values, in
/// ascending order.
#[verifier::external_body]
fn sort_scores(scores: &mut Vec<u64>)
    ensures
        final(scores)@.len() == old(scores)@.len(),
        final(scores)@.to_multiset() == old(scores)@.to_multiset(),
        sorted_asc(final(scores)@),
{
    scores.sort_unstable();
}

/// What a batch of simulated hands is run with.
pub struct SimulationConfig {
    pub deck: Vec<Card>,
    pub hand_size: usize,
    pub num_runs: usize,
    pub seed: Option<u64>,
}

/// Statistics of the best scores over a batch of hands. The mean score is
/// `total_score / num_runs`.
#[derive(Debug, Clone, Copy, PartialEq, Eq, Structural)]
pub struct SimulationResult {
    pub num_runs: usize,
    pub total_score: u128,
    pub median_score: u64,
    pub min_score: u64,
    pub max_score: u64,
    pub percentile_25: u64,
    pub percentile_75: u64,
    pub percentile_95: u64,
}

/// `s` is in ascending order.
pub open spec fn sorted_asc(s: Seq<u64>) -> bool {
    forall|i: int, j: int| 0 <= i < j < s.len() ==> #[trigger] s[i] <= #[trigger] s[j]
}

/// `t` holds the values of `s` in ascending order.
pub open spec fn is_sorted_version(t: Seq<u64>, s: Seq<u64>) -> bool {
    sorted_asc(t) && t.to_multiset() == s.to_multiset()
}

/// The values of `s` in ascending order.
pub open spec fn sorted_version(s: Seq<u64>) -> Seq<u64> {
    choose|t: Seq<u64>| is_sorted_version(t, s)
}

/// The sum of the values of `s`.
pub open spec fn sum_of(s: Seq<u64>) -> int
    decreases s.len(),
{
    if s.len() == 0 {
        0
    } else {
        sum_of(s.drop_last()) + s.last()
    }
}

/// The entry of the sorted list `s` at index `floor((n - 1) * num / den)`,
/// or 0 for an empty list.
pub open spec fn percentile_of(s: Seq<u64>, num: nat, den: nat) -> u64 {
    if s.len() == 0 {
        0
    } else {
        s[((s.len() - 1) * num) as int / den as int]
    }
}

/// The statistics of the sorted scores `s` of `num_runs` runs.
pub open spec fn statistics_of(s: Seq<u64>, num_runs: usize) -> SimulationResult {
    SimulationResult {
        num_runs,
        total_score: sum_of(s) as u128,
        median_score: percentile_of(s, 50, 100),
        min_score: if s.len() == 0 {
            0
        } else {
            s[0]
        },
        max_score: if s.len() == 0 {
            0
        } else {
            s.last()
        },
        percentile_25: percentile_of(s, 25, 100),
        percentile_75: percentile_of(s, 75, 100),
        percentile_95: percentile_of(s, 95, 100),
    }
}

/// `hand` is the first `size` cards (or all of them) of some ordering of
/// `deck`.
pub open spec fn is_drawn(hand: Seq<Card>, deck: Seq<Card>, size: nat) -> bool {
    exists|p: Seq<Card>|
        #[trigger] p.to_multiset() == deck.to_multiset() && p.len() == deck.len() && hand == p.take(
            if size < deck.len() {
                size as int
            } else {
                deck.len() as int
            },
        )
}

/// The best score the solver finds for `hand`, or 0 when there is no play.
pub open spec fn best_score_of(jokers: Seq<Joker>, hand: Seq<Card>) -> u64 {
    if hand.len() == 0 {
        0
    } else {
        ranking(jokers, hand)[0].1.score
    }
}

/// How many cards a hand of `size` drawn from `len` cards holds.
pub open spec fn drawn_size(size: nat, len: nat) -> int {
    if size < len {
        size as int
    } else {
        len as int
    }
}

/// The hand of run `k` of a simulation seeded with `seed`: the first
/// cards of the deck in the order of the `k`-th shuffle of the stream.
pub open spec fn seeded_hand(seed: u64, deck: Seq<Card>, size: nat, k: nat) -> Seq<Card> {
    rearranged(deck, shuffle_order(seed, repeated(deck.len(), k), deck.len())).take(
        drawn_size(size, deck.len()),
    )
}

/// The best scores of the `runs` hands of a simulation seeded with `seed`.
pub open spec fn seeded_scores(
    jokers: Seq<Joker>,
    seed: u64,
    deck: Seq<Card>,
    size: nat,
    runs: nat,
) -> Seq<u64> {
    Seq::new(runs, |k: int| best_score_of(jokers, seeded_hand(seed, deck, size, k as nat)))
}

/// Two ascending orderings of the same values are the same sequence.
pub proof fn lemma_sorted_unique(a: Seq<u64>, b: Seq<u64>)
    requires
        sorted_asc(a),
        sorted_asc(b),
        a.to_multiset() == b.to_multiset(),
    ensures
        a == b,
    decreases a.len(),
{
    broadcast use vstd::seq_lib::group_to_multiset_ensures;

    assert(a.len() == a.to_multiset().len());
    assert(b.len() == b.to_multiset().len());
    if a.len() > 0 {
        assert(a.to_multiset().count(a[0]) > 0);
        assert(b.contains(a[0]));
        let k = choose|k: int| 0 <= k < b.len() && b[k] == a[0];
        assert(b[0] <= b[k]);
        assert(a.to_multiset().count(b[0]) > 0);
        assert(a.contains(b[0]));
        let j = choose|j: int| 0 <= j < a.len() && a[j] == b[0];
        assert(a[0] <= a[j]);
        assert(a[0] == b[0]);
        let a2 = a.remove(0);
        let b2 = b.remove(0);
        assert(a2.to_multiset() == b2.to_multiset());
        assert(sorted_asc(a2)) by {
            assert forall|i: int, j: int| 0 <= i < j < a2.len() implies #[trigger] a2[i]
                <= #[trigger] a2[j] by {
                assert(a2[i] == a[i + 1] && a2[j] == a[j + 1]);
            }
        }
        assert(sorted_asc(b2)) by {
            assert forall|i: int, j: int| 0 <= i < j < b2.len() implies #[trigger] b2[i]
                <= #[trigger] b2[j] by {
                assert(b2[i] == b[i + 1] && b2[j] == b[j + 1]);
            }
        }
        lemma_sorted_unique(a2, b2);
        assert(a =~= b) by {
            assert forall|i: int| 0 <= i < a.len() implies a[i] == b[i] by {
                if i > 0 {
                    assert(a[i] == a2[i - 1] && b[i] == b2[i - 1]);
                }
            }
        }
    }
}

/// The lowest percentile is the smallest score and the highest is the
/// largest: on sorted scores, index `floor((n - 1) * 0)` holds the minimum
/// and index `floor((n - 1) * 1)` the maximum.
pub proof fn lemma_percentile_extremes(s: Seq<u64>, den: nat)
    requires
        sorted_asc(s),
        s.len() > 0,
        den > 0,
    ensures
        percentile_of(s, 0, den) == s[0],
        percentile_of(s, den, den) == s[s.len() - 1],
        forall|i: int| 0 <= i < s.len() ==> s[0] <= #[trigger] s[i] <= s[s.len() - 1],
{
    let n = s.len() - 1;
    assert((n * 0) as int / den as int == 0);
    assert((n * den) as int / den as int == n) by (nonlinear_arith)
        requires
            den > 0,
            n >= 0,
    ;
    assert forall|i: int| 0 <= i < s.len() implies s[0] <= #[trigger] s[i] <= s[s.len() - 1] by {
        if i > 0 {
            assert(s[0] <= s[i]);
        }
        if i < s.len() - 1 {
            assert(s[i] <= s[s.len() - 1]);
        }
    }
}

/// A sum of `n` values of `u64` stays below `n * 2^64`.
proof fn lemma_sum_bound(s: Seq<u64>)
    ensures
        0 <= sum_of(s) <= s.len() * 0xffff_ffff_ffff_ffff,
    decreases s.len(),
{
    if s.len() > 0 {
        lemma_sum_bound(s.drop_last());
    }
}

/// The standard deck: for each suit in turn, the thirteen ranks ascending.
pub open spec fn standard_deck() -> Seq<Card> {
    Seq::new(52, |i: int| plain_card(rank_at(i % 13), suit_at(i / 13)))
}

/// The standard 52-card deck without modifiers, suit by suit.
pub fn create_standard_deck() -> (deck: Vec<Card>)
    ensures
        deck@ == standard_deck(),
{
    let mut deck: Vec<Card> = Vec::with_capacity(52);
    let mut s: usize = 0;
    while s < 4
        invariant
            s <= 4,
            deck@.len() == s * 13,
            forall|k: int| 0 <= k < deck@.len() ==> #[trigger] deck@[k] == standard_deck()[k],
        decreases 4 - s,
    {
        let mut r: usize = 0;
        while r < 13
            invariant
                s < 4,
                r <= 13,
                deck@.len() == s * 13 + r,
                forall|k: int| 0 <= k < deck@.len() ==> #[trigger] deck@[k] == standard_deck()[k],
            decreases 13 - r,
        {
            let k = s * 13 + r;
            assert(k / 13 == s as int && k % 13 == r as int) by (nonlinear_arith)
                requires
                    k == s * 13 + r,
                    0 <= r < 13,
                    0 <= s,
            ;
            deck.push(Card::new(rank_at_index(r), suit_at_index(s)));
            r += 1;
        }
        s += 1;
    }
    assert(deck@ =~= standard_deck());
    deck
}

/// Runs batches of random hands through a solver.
pub struct Simulator {
    solver: Solver,
}

impl View for Simulator {
    type V = Seq<Joker>;

    closed spec fn view(&self) -> Seq<Joker> {
        self.solver@
    }
}

impl Simulator {
    /// A simulator that solves each hand with the given solver.
    pub fn new(solver: Solver) -> (s: Simulator)
        ensures
            s@ == solver@,
    {
        Simulator { solver }
    }

    /// Draws `num_runs` hands of `hand_size` cards from shuffled copies of
    /// the deck, solves each, and summarises the best scores (0 for a hand
    /// with no play). With a seed the result is fixed by the seed, the
    /// deck, the hand size, the number of runs and the jokers. Without one
    /// the system seeds the generator; `None` when it gives no randomness.
    pub fn simulate(&self, config: SimulationConfig) -> (r: Option<SimulationResult>)
        ensures
            config.seed is Some ==> r is Some,
            config.seed matches Some(s) ==> r == Some(
                statistics_of(
                    sorted_version(
                        seeded_scores(
                            self@,
                            s,
                            config.deck@,
                            config.hand_size as nat,
                            config.num_runs as nat,
                        ),
                    ),
                    config.num_runs,
                ),
            ),
            r matches Some(res) ==> exists|hands: Seq<Seq<Card>>, scores: Seq<u64>|
                {
                    &&& hands.len() == config.num_runs
                    &&& scores.len() == config.num_runs
                    &&& forall|i: int|
                        0 <= i < hands.len() ==> is_drawn(
                            #[trigger] hands[i],
                            config.deck@,
                            config.hand_size as nat,
                        ) && scores[i] == best_score_of(self@, hands[i])
                    &&& res == statistics_of(sorted_version(scores), config.num_runs)
                },
    {
        let mut rng = match self.create_rng(config.seed) {
            Some(rng) => rng,
            None => return None,
        };
        let ghost deck = config.deck@;
        let ghost size = config.hand_size as nat;
        let mut scores: Vec<u64> = Vec::with_capacity(config.num_runs);
        let ghost mut hands: Seq<Seq<Card>> = Seq::empty();
        let mut run: usize = 0;
        while run < config.num_runs
            invariant
                run <= config.num_runs,
                deck == config.deck@,
                size == config.hand_size as nat,
                hands.len() == run,
                scores@.len() == run,
                rng.seed() == config.seed,
                rng.shuffled() == repeated(deck.len(), run as nat),
                forall|i: int|
                    0 <= i < run ==> is_drawn(#[trigger] hands[i], deck, size) && scores@[i]
                        == best_score_of(self@, hands[i]),
                config.seed matches Some(s) ==> forall|i: int|
                    0 <= i < run ==> #[trigger] hands[i] == seeded_hand(s, deck, size, i as nat),
            decreases config.num_runs - run,
        {
            let hand = self.draw_random_hand(config.deck.as_slice(), config.hand_size, &mut rng);
            let result = self.solver.solve(hand.as_slice());
            let score = match result.best_score {
                Some(score_result) => score_result.score,
                None => 0,
            };
            proof {
                assert(repeated(deck.len(), run as nat).push(deck.len()) =~= repeated(
                    deck.len(),
                    (run + 1) as nat,
                ));
                hands = hands.push(hand@);
            }
            scores.push(score);
            run += 1;
        }
        proof {
            if config.seed is Some {
                let s = config.seed.unwrap();
                let want = seeded_scores(self@, s, deck, size, config.num_runs as nat);
                assert forall|i: int| 0 <= i < scores@.len() implies scores@[i] == want[i] by {
                    assert(hands[i] == seeded_hand(s, deck, size, i as nat));
                    assert(scores@[i] == best_score_of(self@, hands[i]));
                }
                assert(scores@ =~= want);
            }
        }
        Some(Self::calculate_statistics(scores, config.num_runs))
    }

    /// A generator seeded from `seed`, or by the system when there is none.
    fn create_rng(&self, seed: Option<u64>) -> (r: Option<Shuffler>)
        ensures
            seed is Some ==> r is Some,
            r matches Some(g) ==> g.seed() == seed && g.shuffled() == Seq::<nat>::empty(),
    {
        match seed {
            Some(s) => Some(Shuffler::from_seed(s)),
            None => Shuffler::from_os(),
        }
    }

    /// The first `hand_size` cards of a shuffled copy of the deck.
    fn draw_random_hand(&self, deck: &[Card], hand_size: usize, rng: &mut Shuffler) -> (hand:
        Vec<Card>)
        ensures
            is_drawn(hand@, deck@, hand_size as nat),
            final(rng).seed() == old(rng).seed(),
            final(rng).shuffled() == old(rng).shuffled().push(deck@.len()),
            old(rng).seed() matches Some(s) ==> hand@ == rearranged(
                deck@,
                shuffle_order(s, old(rng).shuffled(), deck@.len()),
            ).take(drawn_size(hand_size as nat, deck@.len())),
    {
        let mut deck_copy: Vec<Card> = Vec::new();
        let mut i: usize = 0;
        while i < deck.len()
            invariant
                i <= deck@.len(),
                deck_copy@ == deck@.take(i as int),
            decreases deck@.len() - i,
        {
            deck_copy.push(deck[i]);
            i += 1;
            assert(deck_copy@ =~= deck@.take(i as int));
        }
        assert(deck@.take(i as int) =~= deck@);
        shuffle_cards(&mut deck_copy, rng);
        let ghost p = deck_copy@;
        deck_copy.truncate(hand_size);
        assert(deck_copy@ =~= p.take(drawn_size(hand_size as nat, deck@.len())));
        deck_copy
    }

    /// Sorts the scores of a batch and computes its statistics.
    pub fn calculate_statistics(scores: Vec<u64>, num_runs: usize) -> (r: SimulationResult)
        ensures
            r == statistics_of(sorted_version(scores@), num_runs),
            is_sorted_version(sorted_version(scores@), scores@),
    {
        let mut scores = scores;
        let ghost original = scores@;
        sort_scores(&mut scores);
        proof {
            assert(is_sorted_version(scores@, original));
            let t = sorted_version(original);
            assert(is_sorted_version(t, original));
            lemma_sorted_unique(t, scores@);
        }
        let n = scores.len();
        let mut total: u128 = 0;
        let mut i: usize = 0;
        while i < n
            invariant
                i <= n,
                n == scores@.len(),
                total == sum_of(scores@.take(i as int)),
            decreases n - i,
        {
            proof {
                assert(scores@.take(i + 1).drop_last() =~= scores@.take(i as int));
                lemma_sum_bound(scores@.take(i + 1));
                assert((i + 1) * 0xffff_ffff_ffff_ffff < 0x1_0000_0000_0000_0000_0000_0000_0000_0000)
                    by (nonlinear_arith)
                    requires
                        i < n,
                        n <= usize::MAX,
                ;
            }
            total = total + scores[i] as u128;
            i += 1;
        }
        proof {
            assert(scores@.take(n as int) =~= scores@);
        }
        let min_score = if n == 0 {
            0
        } else {
            scores[0]
        };
        let max_score = if n == 0 {
            0
        } else {
            scores[n - 1]
        };
        SimulationResult {
            num_runs,
            total_score: total,
            median_score: Self::percentile(scores.as_slice(), 50, 100),
            min_score,
            max_score,
            percentile_25: Self::percentile(scores.as_slice(), 25, 100),
            percentile_75: Self::percentile(scores.as_slice(), 75, 100),
            percentile_95: Self::percentile(scores.as_slice(), 95, 100),
        }
    }

    /// The entry of the sorted scores at index `floor((n - 1) * p)`, with
    /// `p = numerator / denominator`; 0 for no scores.
    pub fn percentile(sorted_scores: &[u64], numerator: u64, denominator: u64) -> (v: u64)
        requires
            0 < denominator,
            numerator <= denominator,
        ensures
            v == percentile_of(sorted_scores@, numerator as nat, denominator as nat),
    {
        let n = sorted_scores.len();
        if n == 0 {
            return 0;
        }
        let last = (n - 1) as u128;
        assert(last * numerator <= last * denominator) by (nonlinear_arith)
            requires
                numerator <= denominator,
                last >= 0,
        ;
        assert(last * denominator < 0x1_0000_0000_0000_0000_0000_0000_0000_0000) by (nonlinear_arith)
            requires
                last < 0x1_0000_0000_0000_0000,
                denominator < 0x1_0000_0000_0000_0000,
        ;
        let index = last * (numerator as u128) / (denominator as u128);
        assert(index <= last) by (nonlinear_arith)
            requires
                index as int == (last * numerator) as int / denominator as int,
                last * numerator <= last * denominator,
                denominator > 0,
        ;
        sorted_scores[index as usize]
    }
}

} // verus!

//! The solver: scores every sub-selection of one to five cards and ranks
//! them.

use vstd::prelude::*;
use crate::card::Card;
use crate::hand::Hand;
use crate::joker::Joker;
use crate::notation::{
    ParseError, card_text_valid, first_card_error, parse_card_ok, parse_hand, words_of,
};
use crate::scoring::{ScoreCalculator, ScoreResult, score_of};

verus! {

/// The sub-selections of `k` cards of `s`, in lexicographic order of the
/// positions taken, the first position varying slowest.
pub open spec fn combos(s: Seq<Card>, k: nat) -> Seq<Seq<Card>>
    decreases s.len(),
{
    if k == 0 {
        seq![Seq::<Card>::empty()]
    } else if s.len() == 0 {
        Seq::empty()
    } else {
        prefixed(combos(s.drop_first(), (k - 1) as nat), seq![s[0]]) + combos(s.drop_first(), k)
    }
}

/// Each selection of `cs` with `cur` put in front of it.
pub open spec fn prefixed(cs: Seq<Seq<Card>>, cur: Seq<Card>) -> Seq<Seq<Card>> {
    cs.map_values(|c: Seq<Card>| cur + c)
}

/// The card sequences held by a list of vectors.
pub open spec fn card_views(v: Seq<Vec<Card>>) -> Seq<Seq<Card>> {
    v.map_values(|x: Vec<Card>| x@)
}

/// All selections of one card up to `m` cards, the smaller sizes first.
pub open spec fn candidates_upto(s: Seq<Card>, m: nat) -> Seq<Seq<Card>>
    decreases m,
{
    if m == 0 {
        Seq::empty()
    } else {
        candidates_upto(s, (m - 1) as nat) + combos(s, m)
    }
}

/// The largest selection size the solver tries for `n` cards.
pub open spec fn max_play(n: nat) -> nat {
    if n < 5 {
        n
    } else {
        5
    }
}

/// All the plays the solver considers for the cards `s`, in order.
pub open spec fn candidates(s: Seq<Card>) -> Seq<Seq<Card>> {
    candidates_upto(s, max_play(s.len()))
}

/// Each selection paired with its score under `jokers`.
pub open spec fn scored(jokers: Seq<Joker>, hs: Seq<Seq<Card>>) -> Seq<(Seq<Card>, ScoreResult)> {
    hs.map_values(|h: Seq<Card>| (h, score_of(jokers, h)))
}

/// `x` inserted into `s` after every entry whose score is at least its own.
pub open spec fn insert_ranked(s: Seq<(Seq<Card>, ScoreResult)>, x: (Seq<Card>, ScoreResult)) -> Seq<
    (Seq<Card>, ScoreResult),
>
    decreases s.len(),
{
    if s.len() == 0 {
        seq![x]
    } else if s[0].1.score >= x.1.score {
        seq![s[0]] + insert_ranked(s.drop_first(), x)
    } else {
        seq![x] + s
    }
}

/// The entries of `s` stably sorted by descending score: entries of equal
/// score keep their order.
pub open spec fn rank_all(s: Seq<(Seq<Card>, ScoreResult)>) -> Seq<(Seq<Card>, ScoreResult)>
    decreases s.len(),
{
    if s.len() == 0 {
        s
    } else {
        insert_ranked(rank_all(s.drop_last()), s.last())
    }
}

/// Every play of the cards under the jokers, best first, ties in
/// enumeration order.
pub open spec fn ranking(jokers: Seq<Joker>, cards: Seq<Card>) -> Seq<(Seq<Card>, ScoreResult)> {
    rank_all(scored(jokers, candidates(cards)))
}

/// The scores of `s` never increase along it.
pub open spec fn descending(s: Seq<(Seq<Card>, ScoreResult)>) -> bool {
    forall|i: int, j: int| 0 <= i < j < s.len() ==> #[trigger] s[i].1.score >= #[trigger] s[j].1.score
}

/// A play and its score as the cards and the score.
pub open spec fn ranked_view(v: Seq<(Hand, ScoreResult)>) -> Seq<(Seq<Card>, ScoreResult)> {
    v.map_values(|p: (Hand, ScoreResult)| (p.0@, p.1))
}

/// Unfolding the selections of `s` from position `i` by whether position
/// `i` is taken.
proof fn lemma_combos_step(s: Seq<Card>, i: int, k: nat, cur: Seq<Card>)
    requires
        0 <= i < s.len(),
        k >= 1,
    ensures
        prefixed(combos(s.skip(i), k), cur) == prefixed(
            combos(s.skip(i + 1), (k - 1) as nat),
            cur.push(s[i]),
        ) + prefixed(combos(s.skip(i + 1), k), cur),
{
    let t = s.skip(i);
    assert(t.drop_first() =~= s.skip(i + 1));
    assert(t[0] == s[i]);
    let a = combos(s.skip(i + 1), (k - 1) as nat);
    let b = combos(s.skip(i + 1), k);
    assert(combos(t, k) == prefixed(a, seq![s[i]]) + b);
    let lhs = prefixed(prefixed(a, seq![s[i]]) + b, cur);
    let rhs = prefixed(a, cur.push(s[i])) + prefixed(b, cur);
    assert forall|j: int| 0 <= j < lhs.len() implies lhs[j] == rhs[j] by {
        if j < a.len() {
            assert(cur + (seq![s[i]] + a[j]) =~= cur.push(s[i]) + a[j]);
        }
    }
    assert(lhs =~= rhs);
}

/// Inserting at the first position whose score is below the new one.
proof fn lemma_insert_at(s: Seq<(Seq<Card>, ScoreResult)>, x: (Seq<Card>, ScoreResult), p: int)
    requires
        0 <= p <= s.len(),
        forall|i: int| 0 <= i < p ==> #[trigger] s[i].1.score >= x.1.score,
        p == s.len() || s[p].1.score < x.1.score,
    ensures
        insert_ranked(s, x) == s.insert(p, x),
    decreases s.len(),
{
    if s.len() == 0 {
        assert(s.insert(p, x) =~= seq![x]);
    } else if p == 0 {
        assert(s.insert(p, x) =~= seq![x] + s);
    } else {
        let t = s.drop_first();
        assert forall|i: int| 0 <= i < p - 1 implies #[trigger] t[i].1.score >= x.1.score by {
            assert(t[i] == s[i + 1]);
        }
        lemma_insert_at(t, x, p - 1);
        assert(s.insert(p, x) =~= seq![s[0]] + t.insert(p - 1, x));
    }
}

/// Ranked insertion keeps a sequence descending and adds one entry.
proof fn lemma_insert_descending(s: Seq<(Seq<Card>, ScoreResult)>, x: (Seq<Card>, ScoreResult))
    requires
        descending(s),
    ensures
        descending(insert_ranked(s, x)),
        insert_ranked(s, x).len() == s.len() + 1,
        insert_ranked(s, x).to_multiset() == s.to_multiset().insert(x),
    decreases s.len(),
{
    broadcast use vstd::seq_lib::group_to_multiset_ensures;

    if s.len() == 0 {
        assert(seq![x] =~= Seq::<(Seq<Card>, ScoreResult)>::empty().push(x));
    } else if s[0].1.score >= x.1.score {
        let t = s.drop_first();
        lemma_insert_descending(t, x);
        let r = insert_ranked(t, x);
        assert(r.to_multiset().count(r[0]) > 0);
        assert forall|i: int, j: int| 0 <= i < j < r.len() + 1 implies #[trigger] (seq![s[0]] + r)[i].1.score
            >= #[trigger] (seq![s[0]] + r)[j].1.score by {
            if i == 0 {
                let e = r[j - 1];
                assert(r.to_multiset().count(e) > 0);
                assert(t.to_multiset().insert(x).count(e) > 0);
                if e != x {
                    assert(t.contains(e));
                    let k = choose|k: int| 0 <= k < t.len() && t[k] == e;
                    assert(s[k + 1] == e);
                }
            }
        }
        assert(s =~= seq![s[0]] + t);
        vstd::seq_lib::lemma_multiset_commutative(seq![s[0]], r);
        vstd::seq_lib::lemma_multiset_commutative(seq![s[0]], t);
    } else {
        assert forall|i: int, j: int| 0 <= i < j < s.len() + 1 implies #[trigger] (seq![x] + s)[i].1.score
            >= #[trigger] (seq![x] + s)[j].1.score by {
            if i > 0 {
                assert((seq![x] + s)[i] == s[i - 1]);
            }
            assert((seq![x] + s)[j] == s[j - 1]);
        }
        vstd::seq_lib::lemma_multiset_commutative(seq![x], s);
    }
}

/// Ranking sorts descending and keeps the same entries.
pub proof fn lemma_rank_all_descending(s: Seq<(Seq<Card>, ScoreResult)>)
    ensures
        descending(rank_all(s)),
        rank_all(s).len() == s.len(),
        rank_all(s).to_multiset() == s.to_multiset(),
    decreases s.len(),
{
    broadcast use vstd::seq_lib::group_to_multiset_ensures;

    if s.len() > 0 {
        lemma_rank_all_descending(s.drop_last());
        lemma_insert_descending(rank_all(s.drop_last()), s.last());
        assert(s =~= s.drop_last().push(s.last()));
    }
}

/// A nonempty hand has at least one play.
proof fn lemma_candidates_nonempty(s: Seq<Card>)
    requires
        s.len() > 0,
    ensures
        candidates(s).len() > 0,
{
    let m = max_play(s.len());
    assert(combos(s, 1).len() > 0) by {
        assert(combos(s.drop_first(), 0).len() == 1);
    }
    assert(candidates_upto(s, 1) == candidates_upto(s, 0) + combos(s, 1));
    lemma_candidates_upto_grows(s, 1, m);
}

/// Allowing larger plays never removes plays.
proof fn lemma_candidates_upto_grows(s: Seq<Card>, a: nat, b: nat)
    requires
        a <= b,
    ensures
        candidates_upto(s, a).len() <= candidates_upto(s, b).len(),
    decreases b,
{
    if a < b {
        lemma_candidates_upto_grows(s, a, (b - 1) as nat);
    }
}

/// `r` is the solver's answer for `cards` under `jokers`: nothing for no
/// cards; else the first play of the ranking and the next three.
pub open spec fn solved(jokers: Seq<Joker>, cards: Seq<Card>, r: SolverResult) -> bool {
    &&& cards.len() == 0 ==> r.best_hand@ == Seq::<Card>::empty() && r.best_score.is_none()
        && r.alternatives@.len() == 0
    &&& cards.len() > 0 ==> ({
        let ranked = ranking(jokers, cards);
        &&& r.best_hand@ == ranked[0].0
        &&& r.best_score == Some(ranked[0].1)
        &&& ranked_view(r.alternatives@) == ranked.subrange(
            1,
            if ranked.len() < 4 {
                ranked.len() as int
            } else {
                4
            },
        )
    })
}

/// The best play, when there is one, and up to three runners-up.
#[derive(Debug, Clone)]
pub struct SolverResult {
    pub best_hand: Hand,
    pub best_score: Option<ScoreResult>,
    pub alternatives: Vec<(Hand, ScoreResult)>,
}

/// Finds the best play of a hand under a fixed set of jokers.
pub struct Solver {
    calculator: ScoreCalculator,
}

impl View for Solver {
    type V = Seq<Joker>;

    closed spec fn view(&self) -> Seq<Joker> {
        self.calculator@
    }
}

/// A copy of a list of cards.
fn copy_cards(v: &Vec<Card>) -> (r: Vec<Card>)
    ensures
        r@ == v@,
{
    let mut r: Vec<Card> = Vec::new();
    let mut i: usize = 0;
    while i < v.len()
        invariant
            i <= v@.len(),
            r@ == v@.take(i as int),
        decreases v@.len() - i,
    {
        r.push(v[i]);
        i += 1;
        assert(r@ =~= v@.take(i as int));
    }
    assert(v@.take(i as int) =~= v@);
    r
}

impl Solver {
    /// A solver that scores with the given calculator.
    pub fn new(calculator: ScoreCalculator) -> (s: Solver)
        ensures
            s@ == calculator@,
    {
        Solver { calculator }
    }

    /// Scores every selection of one to five of the cards and returns the
    /// best, with the next three as alternatives. Among equal scores the
    /// selection enumerated first ranks first.
    pub fn solve(&self, cards: &[Card]) -> (r: SolverResult)
        ensures
            solved(self@, cards@, r),
            r.alternatives@.len() <= 3,
            r.best_score.is_some() ==> forall|i: int|
                0 <= i < r.alternatives@.len() ==> r.best_score.unwrap().score
                    >= #[trigger] r.alternatives@[i].1.score,
    {
        if cards.len() == 0 {
            return SolverResult { best_hand: Hand::new(Vec::new()), best_score: None, alternatives: Vec::new() };
        }
        let ghost s = cards@;
        let ghost jokers = self@;
        let mut ranked: Vec<(Hand, ScoreResult)> = Vec::new();
        let ghost mut hs: Seq<Seq<Card>> = Seq::empty();
        let max_size: usize = if cards.len() < 5 {
            cards.len()
        } else {
            5
        };
        let mut hand_size: usize = 1;
        while hand_size <= max_size
            invariant
                1 <= hand_size <= max_size + 1,
                max_size == max_play(s.len()),
                s == cards@,
                jokers == self@,
                hs == candidates_upto(s, (hand_size - 1) as nat),
                ranked_view(ranked@) == rank_all(scored(jokers, hs)),
            decreases max_size + 1 - hand_size,
        {
            let combinations = Self::generate_combinations(cards, hand_size);
            let ghost base = hs;
            let mut j: usize = 0;
            while j < combinations.len()
                invariant
                    j <= combinations@.len(),
                    card_views(combinations@) == combos(s, hand_size as nat),
                    hs == base + combos(s, hand_size as nat).take(j as int),
                    jokers == self@,
                    ranked_view(ranked@) == rank_all(scored(jokers, hs)),
                decreases combinations@.len() - j,
            {
                let combo = copy_cards(&combinations[j]);
                assert(combo@ == card_views(combinations@)[j as int]);
                let hand = Hand::new(combo);
                let score = self.calculator.calculate(&hand);
                let ghost x = (hand@, score);
                let mut p: usize = 0;
                while p < ranked.len() && ranked[p].1.score >= score.score
                    invariant
                        p <= ranked@.len(),
                        forall|i: int| 0 <= i < p ==> #[trigger] ranked@[i].1.score >= score.score,
                    decreases ranked@.len() - p,
                {
                    p += 1;
                }
                proof {
                    let old_view = ranked_view(ranked@);
                    assert forall|i: int| 0 <= i < p implies #[trigger] old_view[i].1.score
                        >= x.1.score by {
                        assert(old_view[i].1 == ranked@[i].1);
                    }
                    if p < ranked@.len() {
                        assert(old_view[p as int].1 == ranked@[p as int].1);
                    }
                    lemma_insert_at(old_view, x, p as int);
                }
                let ghost before = ranked@;
                ranked.insert(p, (hand, score));
                proof {
                    assert(ranked_view(ranked@) =~= ranked_view(before).insert(p as int, x));
                    let hs2 = hs.push(combo@);
                    assert(scored(jokers, hs2) =~= scored(jokers, hs).push(x));
                    assert(scored(jokers, hs2).drop_last() =~= scored(jokers, hs));
                    assert(combos(s, hand_size as nat).take(j + 1) =~= combos(
                        s,
                        hand_size as nat,
                    ).take(j as int).push(combo@));
                    assert(base + combos(s, hand_size as nat).take(j + 1) =~= hs2);
                    hs = hs2;
                }
                j += 1;
            }
            proof {
                assert(combos(s, hand_size as nat).take(j as int) =~= combos(s, hand_size as nat));
                assert(candidates_upto(s, hand_size as nat) == candidates_upto(
                    s,
                    (hand_size - 1) as nat,
                ) + combos(s, hand_size as nat));
            }
            hand_size += 1;
        }
        proof {
            lemma_candidates_nonempty(s);
            lemma_rank_all_descending(scored(jokers, hs));
            assert(hs == candidates(s));
        }
        let ghost full = ranked@;
        let best = ranked.remove(0);
        ranked.truncate(3);
        proof {
            let rv = ranked_view(full);
            assert(rv[0] == (best.0@, best.1));
            let n = rv.len() as int;
            let hi = if n < 4 {
                n
            } else {
                4
            };
            assert(ranked_view(ranked@) =~= rv.subrange(1, hi));
            assert forall|i: int| 0 <= i < ranked@.len() implies best.1.score
                >= #[trigger] ranked@[i].1.score by {
                assert(ranked@[i].1 == rv[i + 1].1);
            }
        }
        SolverResult { best_hand: best.0, best_score: Some(best.1), alternatives: ranked }
    }

    /// Reads a hand written in card notation and solves it. A hand with
    /// no cards is rejected.
    pub fn solve_hand_text(&self, hand_str: &str) -> (r: Result<SolverResult, ParseError>)
        ensures
            ({
                let words = words_of(hand_str@);
                &&& !(forall|i: int| 0 <= i < words.len() ==> card_text_valid(#[trigger] words[i]))
                    ==> r is Err && first_card_error(words, r->Err_0)
                &&& (forall|i: int| 0 <= i < words.len() ==> card_text_valid(#[trigger] words[i]))
                    && words.len() == 0 ==> (r matches Err(ParseError::EmptyHand))
                &&& (forall|i: int| 0 <= i < words.len() ==> card_text_valid(#[trigger] words[i]))
                    && words.len() > 0 ==> r is Ok && exists|cards: Seq<Card>|
                    cards.len() == words.len() && (forall|i: int|
                        0 <= i < words.len() ==> #[trigger] parse_card_ok(words[i], cards[i]))
                        && solved(self@, cards, r->Ok_0)
            }),
    {
        let cards = match parse_hand(hand_str) {
            Ok(cards) => cards,
            Err(e) => return Err(e),
        };
        if cards.len() == 0 {
            return Err(ParseError::EmptyHand);
        }
        let r = self.solve(cards.as_slice());
        assert(solved(self@, cards@, r));
        Ok(r)
    }

    /// All selections of `size` cards, in lexicographic order of position.
    pub fn generate_combinations(cards: &[Card], size: usize) -> (r: Vec<Vec<Card>>)
        ensures
            card_views(r@) == combos(cards@, size as nat),
    {
        let mut results: Vec<Vec<Card>> = Vec::new();
        let mut current: Vec<Card> = Vec::new();
        Self::generate_combinations_recursive(cards, size, 0, &mut current, &mut results);
        proof {
            assert(cards@.skip(0) =~= cards@);
            let cs = combos(cards@, size as nat);
            assert(prefixed(cs, Seq::<Card>::empty()) =~= cs) by {
                assert forall|i: int| 0 <= i < cs.len() implies prefixed(cs, Seq::<Card>::empty())[i]
                    == cs[i] by {
                    assert(Seq::<Card>::empty() + cs[i] =~= cs[i]);
                }
            }
            assert(card_views(Seq::<Vec<Card>>::empty()) =~= Seq::<Seq<Card>>::empty());
            assert(Seq::<Seq<Card>>::empty() + cs =~= cs);
        }
        results
    }

    /// Appends to `results` every completion of `current` by cards taken
    /// from position `start` on, up to `size` cards in all.
    fn generate_combinations_recursive(
        cards: &[Card],
        size: usize,
        start: usize,
        current: &mut Vec<Card>,
        results: &mut Vec<Vec<Card>>,
    )
        requires
            start <= cards@.len(),
            old(current)@.len() <= size,
        ensures
            final(current)@ == old(current)@,
            card_views(final(results)@) == card_views(old(results)@) + prefixed(
                combos(cards@.skip(start as int), (size - old(current)@.len()) as nat),
                old(current)@,
            ),
        decreases cards@.len() - start,
    {
        let ghost cur = current@;
        let ghost res0 = card_views(results@);
        if current.len() == size {
            let copy = copy_cards(current);
            results.push(copy);
            proof {
                assert(combos(cards@.skip(start as int), 0) == seq![Seq::<Card>::empty()]);
                assert(prefixed(seq![Seq::<Card>::empty()], cur) =~= seq![cur]) by {
                    assert(cur + Seq::<Card>::empty() =~= cur);
                }
                assert(card_views(results@) =~= res0 + seq![cur]);
            }
            return;
        }
        let ghost need = (size - cur.len()) as nat;
        let n = cards.len();
        let mut i: usize = start;
        while i < n
            invariant
                start <= i <= n,
                n == cards@.len(),
                current@ == cur,
                cur.len() < size,
                need == size - cur.len(),
                card_views(results@) + prefixed(combos(cards@.skip(i as int), need), cur) == res0
                    + prefixed(combos(cards@.skip(start as int), need), cur),
            decreases n - i,
        {
            proof {
                lemma_combos_step(cards@, i as int, need, cur);
            }
            let ghost res1 = card_views(results@);
            current.push(cards[i]);
            Self::generate_combinations_recursive(cards, size, i + 1, current, results);
            current.pop();
            proof {
                assert(current@ =~= cur);
                let a = prefixed(combos(cards@.skip(i + 1), (need - 1) as nat), cur.push(cards@[i as int]));
                let b = prefixed(combos(cards@.skip(i + 1), need), cur);
                assert((size - (cur.len() + 1)) as nat == (need - 1) as nat);
                assert(card_views(results@) == res1 + a);
                assert(res1 + (a + b) =~= (res1 + a) + b);
            }
            i += 1;
        }
        proof {
            assert(cards@.skip(n as int) =~= Seq::<Card>::empty());
            assert(combos(Seq::<Card>::empty(), need) =~= Seq::<Seq<Card>>::empty());
            let e = prefixed(Seq::<Seq<Card>>::empty(), cur);
            assert(e =~= Seq::<Seq<Card>>::empty());
            assert(card_views(results@) + e =~= card_views(results@));
        }
    }
}

} // verus!

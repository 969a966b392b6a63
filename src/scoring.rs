//! The score engine: turns a hand and the active jokers into chips, mult
//! and score, with an itemised breakdown.

use vstd::prelude::*;
use crate::card::{Card, Edition, Enhancement, rank_chips};
use crate::hand::{Hand, HandType, hand_type_of, type_chips, type_mult};
use crate::joker::{Joker, JokerEdition, kind_chips, kind_mult};

verus! {

/// How a score was put together.
///
/// The multiplicative joker effects are kept exact: the mult is scaled by
/// 1.5 for each polychrome joker, that is by `3^k / 2^k` where `k` is
/// `polychrome_jokers`.
#[derive(Debug, Clone, Copy, PartialEq, Eq, Structural)]
pub struct ScoreBreakdown {
    pub base_chips: u32,
    pub base_mult: u32,
    pub card_chips: u32,
    pub card_mult: u32,
    pub joker_chips: i32,
    pub joker_mult: i32,
    pub polychrome_jokers: usize,
}

/// The result of scoring one hand.
#[derive(Debug, Clone, Copy, PartialEq, Eq, Structural)]
pub struct ScoreResult {
    pub hand_type: HandType,
    pub chips: u32,
    pub mult: u32,
    pub score: u64,
    pub breakdown: ScoreBreakdown,
}

/// `b` raised to the power `e`.
pub open spec fn power(b: nat, e: nat) -> nat
    decreases e,
{
    if e == 0 {
        1
    } else {
        b * power(b, (e - 1) as nat)
    }
}

/// `x` clamped to the range of `u32`.
pub open spec fn clamp_u32(x: int) -> int {
    if x < 0 {
        0
    } else if x > u32::MAX {
        u32::MAX as int
    } else {
        x
    }
}

/// `x` clamped to the range of `i32`.
pub open spec fn clamp_i32(x: int) -> int {
    if x < i32::MIN {
        i32::MIN as int
    } else if x > i32::MAX {
        i32::MAX as int
    } else {
        x
    }
}

/// The chips a card adds: its rank's chips, +30 for `Bonus`, +50 for
/// `Stone`, +50 for a `Foil` edition.
pub open spec fn card_chip_bonus(c: Card) -> int {
    let enhancement = match c.enhancement {
        Enhancement::Bonus => 30int,
        Enhancement::Stone => 50int,
        _ => 0int,
    };
    let edition = match c.edition {
        Edition::Foil => 50int,
        _ => 0int,
    };
    rank_chips(c.rank) + enhancement + edition
}

/// The mult a card adds: +4 for `Mult`, +10 for a `Holographic` edition.
pub open spec fn card_mult_bonus(c: Card) -> int {
    let enhancement = match c.enhancement {
        Enhancement::Mult => 4int,
        _ => 0int,
    };
    let edition = match c.edition {
        Edition::Holographic => 10int,
        _ => 0int,
    };
    enhancement + edition
}

/// The chips a joker adds: its kind's flat chips, +50 for `Foil`.
pub open spec fn joker_chip_bonus(j: Joker) -> int {
    let edition = match j.edition {
        JokerEdition::Foil => 50int,
        _ => 0int,
    };
    kind_chips(j.kind) + edition
}

/// The mult a joker adds: its kind's flat mult, +10 for `Holographic`.
pub open spec fn joker_mult_bonus(j: Joker) -> int {
    let edition = match j.edition {
        JokerEdition::Holographic => 10int,
        _ => 0int,
    };
    kind_mult(j.kind) + edition
}

/// The sum of the chips the cards add.
pub open spec fn sum_card_chips(s: Seq<Card>) -> int
    decreases s.len(),
{
    if s.len() == 0 {
        0
    } else {
        sum_card_chips(s.drop_last()) + card_chip_bonus(s.last())
    }
}

/// The sum of the mult the cards add.
pub open spec fn sum_card_mult(s: Seq<Card>) -> int
    decreases s.len(),
{
    if s.len() == 0 {
        0
    } else {
        sum_card_mult(s.drop_last()) + card_mult_bonus(s.last())
    }
}

/// The sum of the chips the jokers add.
pub open spec fn sum_joker_chips(js: Seq<Joker>) -> int
    decreases js.len(),
{
    if js.len() == 0 {
        0
    } else {
        sum_joker_chips(js.drop_last()) + joker_chip_bonus(js.last())
    }
}

/// The sum of the mult the jokers add.
pub open spec fn sum_joker_mult(js: Seq<Joker>) -> int
    decreases js.len(),
{
    if js.len() == 0 {
        0
    } else {
        sum_joker_mult(js.drop_last()) + joker_mult_bonus(js.last())
    }
}

/// The number of polychrome jokers.
pub open spec fn polychrome_count(js: Seq<Joker>) -> nat
    decreases js.len(),
{
    if js.len() == 0 {
        0
    } else {
        polychrome_count(js.drop_last()) + if js.last().edition == JokerEdition::Polychrome {
            1nat
        } else {
            0nat
        }
    }
}

/// The mult `m` scaled by 1.5 for each of `k` polychrome jokers, rounded
/// down and capped at the largest `u32`.
pub open spec fn scaled_mult(m: nat, k: nat) -> int {
    clamp_u32((m * power(3, k)) as int / power(2, k) as int)
}

/// The score of a hand of `cards` under `jokers`, with its breakdown.
pub open spec fn score_of(jokers: Seq<Joker>, cards: Seq<Card>) -> ScoreResult {
    let t = hand_type_of(cards);
    let card_chips = clamp_u32(sum_card_chips(cards));
    let card_mult = clamp_u32(sum_card_mult(cards));
    let joker_chips = clamp_i32(sum_joker_chips(jokers));
    let joker_mult = clamp_i32(sum_joker_mult(jokers));
    let k = polychrome_count(jokers);
    let chips = clamp_u32(type_chips(t) + sum_card_chips(cards) + sum_joker_chips(jokers));
    let total_mult = clamp_u32(type_mult(t) + sum_card_mult(cards) + sum_joker_mult(jokers));
    let mult = scaled_mult(total_mult as nat, k);
    ScoreResult {
        hand_type: t,
        chips: chips as u32,
        mult: mult as u32,
        score: (chips * mult) as u64,
        breakdown: ScoreBreakdown {
            base_chips: type_chips(t) as u32,
            base_mult: type_mult(t) as u32,
            card_chips: card_chips as u32,
            card_mult: card_mult as u32,
            joker_chips: joker_chips as i32,
            joker_mult: joker_mult as i32,
            polychrome_jokers: k as usize,
        },
    }
}

/// Every score equals its chips times its mult.
pub proof fn lemma_score_is_chips_times_mult(jokers: Seq<Joker>, cards: Seq<Card>)
    ensures
        score_of(jokers, cards).score == score_of(jokers, cards).chips as int * score_of(
            jokers,
            cards,
        ).mult as int,
{
    let r = score_of(jokers, cards);
    let chips = r.chips as int;
    let mult = r.mult as int;
    assert(0 <= chips <= u32::MAX);
    assert(0 <= mult <= u32::MAX);
    assert(chips * mult <= u32::MAX as int * u32::MAX as int) by (nonlinear_arith)
        requires
            0 <= chips <= u32::MAX,
            0 <= mult <= u32::MAX,
    ;
    assert(0 <= chips * mult) by (nonlinear_arith)
        requires
            0 <= chips,
            0 <= mult,
    ;
}

/// `x` capped at the largest `u32`.
fn cap_u32(x: u128) -> (r: u32)
    ensures
        r == clamp_u32(x as int),
{
    if x > u32::MAX as u128 {
        u32::MAX
    } else {
        x as u32
    }
}

/// `x` capped at the largest `i32`.
fn cap_i32(x: u128) -> (r: i32)
    ensures
        r == clamp_i32(x as int),
{
    if x > i32::MAX as u128 {
        i32::MAX
    } else {
        x as i32
    }
}

/// The powers of three dominate the powers of two.
proof fn lemma_power_three_ge_two(n: nat)
    ensures
        power(3, n) >= power(2, n),
        power(2, n) >= 1,
    decreases n,
{
    if n > 0 {
        lemma_power_three_ge_two((n - 1) as nat);
    }
}

/// Powers add in the exponent.
proof fn lemma_power_adds(b: nat, e1: nat, e2: nat)
    ensures
        power(b, e1 + e2) == power(b, e1) * power(b, e2),
    decreases e2,
{
    if e2 > 0 {
        let e = (e2 - 1) as nat;
        lemma_power_adds(b, e1, e);
        assert((e1 + e2 - 1) as nat == e1 + e);
        let p1 = power(b, e1);
        let pe = power(b, e);
        assert(power(b, e1 + e2) == b * power(b, e1 + e));
        assert(power(b, e2) == b * pe);
        assert(b * (p1 * pe) == p1 * (b * pe)) by (nonlinear_arith);
    } else {
        assert(power(b, 0) == 1);
        assert(e1 + e2 == e1);
    }
}

/// Powers of two grow with the exponent.
proof fn lemma_power_two_mono(e1: nat, e2: nat)
    requires
        e1 <= e2,
    ensures
        power(2, e1) <= power(2, e2),
    decreases e2,
{
    if e1 < e2 {
        lemma_power_two_mono(e1, (e2 - 1) as nat);
    }
}

/// Nine to the `n` dominates eight to the `n`.
proof fn lemma_power_nine_eight(n: nat)
    ensures
        power(3, 2 * n) >= power(2, 3 * n),
    decreases n,
{
    if n > 0 {
        let m = (n - 1) as nat;
        lemma_power_nine_eight(m);
        let a = power(3, 2 * m);
        let c = power(2, 3 * m);
        assert(power(3, (2 * m + 1) as nat) == 3 * a);
        assert(power(3, 2 * n) == 3 * power(3, (2 * m + 1) as nat));
        assert(power(2, (3 * m + 1) as nat) == 2 * c);
        assert(power(2, (3 * m + 2) as nat) == 2 * power(2, (3 * m + 1) as nat));
        assert(power(2, 3 * n) == 2 * power(2, (3 * m + 2) as nat));
        assert(9 * a >= 8 * c) by (nonlinear_arith)
            requires
                a >= c,
        ;
    }
}

/// 1.5 to the 64th power exceeds 2 to the 32nd; and the two powers of two
/// that bound the computation.
proof fn lemma_power_64()
    ensures
        power(3, 64) >= 0x1_0000_0000 * power(2, 64),
        power(2, 63) == 0x8000_0000_0000_0000,
        power(2, 64) == 0x1_0000_0000_0000_0000,
{
    reveal_with_fuel(power, 66);
    lemma_power_nine_eight(32);
    lemma_power_adds(2, 32, 64);
    assert(power(2, 32) == 0x1_0000_0000);
}

/// Scaling never decreases the mult, so once `num / den` reaches
/// `2^32`, so does the fully scaled value.
proof fn lemma_scaled_from(total: nat, i: nat, k: nat, num: nat, den: nat)
    requires
        i <= k,
        num == total * power(3, i),
        den == power(2, i),
        num >= 0x1_0000_0000 * den,
    ensures
        (total * power(3, k)) as int / power(2, k) as int >= 0x1_0000_0000,
{
    let d = (k - i) as nat;
    lemma_power_adds(3, i, d);
    lemma_power_adds(2, i, d);
    lemma_power_three_ge_two(d);
    lemma_power_three_ge_two(i);
    lemma_power_three_ge_two(k);
    let a = power(3, d) as int;
    let b = power(2, d) as int;
    let x = (total * power(3, k)) as int;
    let y = power(2, k) as int;
    assert(i + d == k);
    assert(x == num * a) by (nonlinear_arith)
        requires
            x == total * power(3, k),
            power(3, k) == power(3, i) * power(3, d),
            num == total * power(3, i),
            a == power(3, d),
    ;
    assert(y == den * b);
    assert(x >= 0x1_0000_0000 * y) by (nonlinear_arith)
        requires
            x == num * a,
            y == den * b,
            a >= b,
            b >= 1,
            num >= 0x1_0000_0000 * den,
            den >= 1,
    ;
    assert(x / y >= 0x1_0000_0000) by (nonlinear_arith)
        requires
            x >= 0x1_0000_0000 * y,
            y >= 1,
    ;
}

/// Scales `total` by 1.5 per polychrome joker, exactly, rounding down once
/// at the end and capping at the largest `u32`.
fn scale_mult(total: u32, k: usize) -> (m: u32)
    ensures
        m == scaled_mult(total as nat, k as nat),
{
    let ghost t = total as nat;
    if total == 0 {
        assert((0 * power(3, k as nat)) as int / power(2, k as nat) as int == 0) by {
            lemma_power_three_ge_two(k as nat);
        }
        return 0;
    }
    let mut num: u128 = total as u128;
    let mut den: u128 = 1;
    let mut i: usize = 0;
    proof {
        lemma_power_64();
        assert(power(3, 0) == 1);
        assert(power(2, 0) == 1);
    }
    while i < k
        invariant
            i <= k,
            i <= 64,
            t == total as nat,
            t >= 1,
            num == t * power(3, i as nat),
            den == power(2, i as nat),
            den <= 0x1_0000_0000_0000_0000,
            power(3, 64) >= 0x1_0000_0000 * power(2, 64),
            power(2, 63) == 0x8000_0000_0000_0000,
            power(2, 64) == 0x1_0000_0000_0000_0000,
        decreases k - i,
    {
        if num >= 0x1_0000_0000 * den {
            proof {
                lemma_scaled_from(t, i as nat, k as nat, num as nat, den as nat);
            }
            return u32::MAX;
        }
        assert(i < 64) by {
            if i == 64 {
                let p = power(3, 64);
                assert(t * p >= p) by (nonlinear_arith)
                    requires
                        t >= 1,
                        p >= 0,
                ;
            }
        }
        proof {
            lemma_power_two_mono(i as nat, 63);
            let p = power(3, i as nat);
            assert(power(3, (i + 1) as nat) == 3 * p);
            assert(power(2, (i + 1) as nat) == 2 * power(2, i as nat));
            assert(t * (3 * p) == 3 * (t * p)) by (nonlinear_arith);
        }
        num = num * 3;
        den = den * 2;
        i += 1;
    }
    if num >= 0x1_0000_0000 * den {
        proof {
            lemma_scaled_from(t, i as nat, k as nat, num as nat, den as nat);
        }
        return u32::MAX;
    }
    proof {
        lemma_power_three_ge_two(i as nat);
        assert(num / den < 0x1_0000_0000) by (nonlinear_arith)
            requires
                num < 0x1_0000_0000 * den,
                den >= 1,
        ;
    }
    (num / den) as u32
}

/// Scores hands under a fixed list of jokers.
pub struct ScoreCalculator {
    jokers: Vec<Joker>,
}

impl View for ScoreCalculator {
    type V = Seq<Joker>;

    closed spec fn view(&self) -> Seq<Joker> {
        self.jokers@
    }
}

impl ScoreCalculator {
    /// A calculator that scores under the given jokers.
    pub fn new(jokers: Vec<Joker>) -> (c: ScoreCalculator)
        ensures
            c@ == jokers@,
    {
        ScoreCalculator { jokers }
    }

    /// Scores a hand: hand type, then card bonuses, then joker bonuses,
    /// then the polychrome scaling of the mult.
    pub fn calculate(&self, hand: &Hand) -> (r: ScoreResult)
        ensures
            r == score_of(self@, hand@),
            r.score == r.chips as int * r.mult as int,
    {
        let hand_type = hand.evaluate();
        let base_chips = hand_type.base_chips();
        let base_mult = hand_type.base_mult();
        let (card_chips, card_mult) = self.calculate_card_bonuses(&hand.cards);
        let (joker_chips, joker_mult, polychrome) = self.calculate_joker_bonuses();
        let n_cards = hand.cards.len();
        let n_jokers = self.jokers.len();
        proof {
            let n = hand@.len();
            let m = self@.len();
            assert(n == n_cards && m == n_jokers);
            assert(111 * n <= 111 * 0xffff_ffff_ffff_ffff) by (nonlinear_arith)
                requires
                    n <= 0xffff_ffff_ffff_ffff,
            ;
            assert(50 * m <= 50 * 0xffff_ffff_ffff_ffff) by (nonlinear_arith)
                requires
                    m <= 0xffff_ffff_ffff_ffff,
            ;
        }
        let total_chips = cap_u32(base_chips as u128 + card_chips + joker_chips);
        let total_mult = cap_u32(base_mult as u128 + card_mult + joker_mult);
        let final_mult = scale_mult(total_mult, polychrome);
        assert(total_chips as int * final_mult as int <= u32::MAX as int * u32::MAX as int)
            by (nonlinear_arith)
            requires
                total_chips <= u32::MAX,
                final_mult <= u32::MAX,
        ;
        let score = (total_chips as u64) * (final_mult as u64);
        proof {
            lemma_score_is_chips_times_mult(self@, hand@);
        }
        ScoreResult {
            hand_type,
            chips: total_chips,
            mult: final_mult,
            score,
            breakdown: ScoreBreakdown {
                base_chips,
                base_mult,
                card_chips: cap_u32(card_chips),
                card_mult: cap_u32(card_mult),
                joker_chips: cap_i32(joker_chips),
                joker_mult: cap_i32(joker_mult),
                polychrome_jokers: polychrome,
            },
        }
    }

    /// The chips and the mult the cards add.
    fn calculate_card_bonuses(&self, cards: &Vec<Card>) -> (r: (u128, u128))
        ensures
            r.0 == sum_card_chips(cards@),
            r.1 == sum_card_mult(cards@),
            r.0 <= 111 * cards@.len(),
            r.1 <= 14 * cards@.len(),
    {
        let ghost s = cards@;
        let mut chips: u128 = 0;
        let mut mult: u128 = 0;
        let mut i: usize = 0;
        while i < cards.len()
            invariant
                i <= s.len(),
                s == cards@,
                chips == sum_card_chips(s.take(i as int)),
                mult == sum_card_mult(s.take(i as int)),
                chips <= 111 * i,
                mult <= 14 * i,
            decreases s.len() - i,
        {
            let card = cards[i];
            let mut card_chips: u32 = card.base_chips();
            let mut card_mult: u32 = 0;
            match card.enhancement {
                Enhancement::Bonus => card_chips = card_chips + 30,
                Enhancement::Mult => card_mult = card_mult + 4,
                Enhancement::Stone => card_chips = card_chips + 50,
                _ => {},
            }
            match card.edition {
                Edition::Foil => card_chips = card_chips + 50,
                Edition::Holographic => card_mult = card_mult + 10,
                _ => {},
            }
            proof {
                assert(s.take(i + 1).drop_last() =~= s.take(i as int));
            }
            chips = chips + card_chips as u128;
            mult = mult + card_mult as u128;
            i += 1;
        }
        proof {
            assert(s.take(i as int) =~= s);
        }
        (chips, mult)
    }

    /// The chips and the mult the jokers add, and the number of
    /// polychrome jokers.
    fn calculate_joker_bonuses(&self) -> (r: (u128, u128, usize))
        ensures
            r.0 == sum_joker_chips(self@),
            r.1 == sum_joker_mult(self@),
            r.2 == polychrome_count(self@),
            r.0 <= 50 * self@.len(),
            r.1 <= 14 * self@.len(),
    {
        let ghost js = self@;
        let mut chips: u128 = 0;
        let mut mult: u128 = 0;
        let mut polychrome: usize = 0;
        let mut i: usize = 0;
        while i < self.jokers.len()
            invariant
                i <= js.len(),
                js == self.jokers@,
                js == self@,
                chips == sum_joker_chips(js.take(i as int)),
                mult == sum_joker_mult(js.take(i as int)),
                chips <= 50 * i,
                mult <= 14 * i,
                polychrome == polychrome_count(js.take(i as int)),
                polychrome <= i,
            decreases js.len() - i,
        {
            let joker = self.jokers[i];
            let mut joker_chips: i32 = joker.kind.base_chips();
            let mut joker_mult: i32 = joker.kind.base_mult();
            match joker.edition {
                JokerEdition::Foil => joker_chips = joker_chips + 50,
                JokerEdition::Holographic => joker_mult = joker_mult + 10,
                JokerEdition::Polychrome => polychrome = polychrome + 1,
                _ => {},
            }
            proof {
                assert(js.take(i + 1).drop_last() =~= js.take(i as int));
            }
            chips = chips + joker_chips as u128;
            mult = mult + joker_mult as u128;
            i += 1;
        }
        proof {
            assert(js.take(i as int) =~= js);
        }
        (chips, mult, polychrome)
    }
}

} // verus!

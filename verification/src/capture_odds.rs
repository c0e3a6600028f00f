//! The capture-odds table: for every pair of remaining crew counts, the
//! probability that the attacker eventually captures the defender, and the
//! expected casualties on both sides, computed bottom-up from the two crews'
//! cumulative strength profiles.
//!
//! Probabilities and expected casualties are fixed-point values scaled by
//! `SCALE`: a stored value `v` stands for the real number `v / SCALE`, so
//! `0` is probability zero and `SCALE` is probability one. Every cell is
//! defined by the recurrences `odds_cell`, `attacker_cas_cell` and
//! `defender_cas_cell` below, which mirror the gambler's-ruin recurrence
//! with each division rounded toward zero.

use crate::power_level::PowerLevel;
use vstd::arithmetic::div_mod::{
    lemma_div_by_multiple, lemma_div_is_ordered, lemma_div_multiples_vanish, lemma_div_pos_is_pos,
};
use vstd::arithmetic::mul::lemma_mul_inequality;
use vstd::prelude::*;

verus! {

/// The fixed-point scale: stored value `SCALE` stands for probability 1 (2^32).
pub const SCALE: u64 = 0x1_0000_0000;

/// Largest total strength a profile entry may carry: two strengths must
/// always be addable in 64 bits.
pub const STRENGTH_MAX: u64 = 0x7FFF_FFFF_FFFF_FFFF;

/// Largest crew count a table accepts; keeps the flattened `n * m` table
/// addressable and every scaled casualty value within 64 bits.
pub const MAX_CREW: usize = 0xFFFF;

/// Every entry of a strength profile component is strictly positive and
/// small enough that two entries always fit in 64 bits when added.
pub open spec fn strengths_valid(s: Seq<u64>) -> bool {
    forall|i: int| 0 <= i < s.len() ==> 1 <= #[trigger] s[i] <= STRENGTH_MAX
}

/// The scaled per-round probability that a side with total strength `atk`
/// prevails over a side with total strength `def`: `atk / (atk + def)`,
/// scaled and rounded down.
pub open spec fn round_win_share(atk: int, def: int) -> int {
    (atk * SCALE) / (atk + def)
}

/// The scaled probability that an attacker with `a` crew left captures a
/// defender with `d` crew left. `atk` and `def` are the cumulative strength
/// profiles (`atk[i]` is the attacker's total strength with `i + 1` crew
/// left). A lone attacker (`a <= 1`) cannot initiate a capture; a defender
/// with no crew left (`d <= 0`) is captured with certainty; otherwise one
/// combat round is won with probability `round_win_share` and the recurrence
/// marginalizes over that round's outcome.
pub open spec fn odds_cell(atk: Seq<u64>, def: Seq<u64>, a: int, d: int) -> int
    decreases a, d,
{
    if a <= 1 {
        0
    } else if d <= 0 {
        SCALE as int
    } else {
        let p = round_win_share(atk[a - 1] as int, def[d - 1] as int);
        (p * odds_cell(atk, def, a, d - 1) + (SCALE - p) * odds_cell(atk, def, a - 1, d)) / (
        SCALE as int)
    }
}

/// The scaled expected number of attackers lost by the time the outcome is
/// reached, from `a` attackers and `d` defenders left.
pub open spec fn attacker_cas_cell(atk: Seq<u64>, def: Seq<u64>, a: int, d: int) -> int
    decreases a, d,
{
    if a <= 1 {
        0
    } else if d <= 0 {
        0
    } else {
        let p = round_win_share(atk[a - 1] as int, def[d - 1] as int);
        (p * attacker_cas_cell(atk, def, a, d - 1) + (SCALE - p) * (attacker_cas_cell(
            atk,
            def,
            a - 1,
            d,
        ) + SCALE)) / (SCALE as int)
    }
}

/// The scaled expected number of defenders lost by the time the outcome is
/// reached, from `a` attackers and `d` defenders left.
pub open spec fn defender_cas_cell(atk: Seq<u64>, def: Seq<u64>, a: int, d: int) -> int
    decreases a, d,
{
    if a <= 1 {
        0
    } else if d <= 0 {
        0
    } else {
        let p = round_win_share(atk[a - 1] as int, def[d - 1] as int);
        (p * (defender_cas_cell(atk, def, a, d - 1) + SCALE) + (SCALE - p) * defender_cas_cell(
            atk,
            def,
            a - 1,
            d,
        )) / (SCALE as int)
    }
}

/// A per-round win share is a probability: it lies in `[0, SCALE]`.
pub proof fn lemma_share_bounds(atk: int, def: int)
    requires
        atk >= 1,
        def >= 1,
    ensures
        0 <= round_win_share(atk, def) <= SCALE,
{
    let s = SCALE as int;
    lemma_div_pos_is_pos(atk * s, atk + def);
    lemma_mul_inequality(atk, atk + def, s);
    lemma_div_is_ordered(atk * s, (atk + def) * s, atk + def);
    lemma_div_multiples_vanish(s, atk + def);
}

/// A scaled convex combination of two values in `[0, b]` stays in `[0, b]`.
proof fn lemma_convex_bounds(p: int, l: int, u: int, b: int)
    requires
        0 <= p <= SCALE,
        0 <= l <= b,
        0 <= u <= b,
    ensures
        0 <= (p * l + (SCALE - p) * u) / (SCALE as int) <= b,
{
    let s = SCALE as int;
    assert(0 <= p * l + (s - p) * u <= s * b) by (nonlinear_arith)
        requires
            0 <= p <= s,
            0 <= l <= b,
            0 <= u <= b,
    ;
    lemma_div_pos_is_pos(p * l + (s - p) * u, s);
    lemma_div_is_ordered(p * l + (s - p) * u, s * b, s);
    lemma_div_multiples_vanish(b, s);
}

/// A scaled convex combination of `l` and `u` is at least `u` when `l >= u`.
proof fn lemma_convex_ge(p: int, l: int, u: int)
    requires
        0 <= p <= SCALE,
        0 <= u <= l,
    ensures
        (p * l + (SCALE - p) * u) / (SCALE as int) >= u,
{
    let s = SCALE as int;
    assert(s * u <= p * l + (s - p) * u) by (nonlinear_arith)
        requires
            0 <= p <= s,
            0 <= u <= l,
    ;
    lemma_div_is_ordered(s * u, p * l + (s - p) * u, s);
    lemma_div_multiples_vanish(u, s);
}

/// A scaled convex combination of `l` and `u` is at most `l` when `u <= l`.
proof fn lemma_convex_le(p: int, l: int, u: int)
    requires
        0 <= p <= SCALE,
        0 <= u <= l,
    ensures
        (p * l + (SCALE - p) * u) / (SCALE as int) <= l,
{
    let s = SCALE as int;
    assert(p * l + (s - p) * u <= s * l) by (nonlinear_arith)
        requires
            0 <= p <= s,
            0 <= u <= l,
    ;
    lemma_div_is_ordered(p * l + (s - p) * u, s * l, s);
    lemma_div_multiples_vanish(l, s);
}

/// Range law: capture odds are probabilities — every cell lies in
/// `[0, SCALE]` — and the scaled expected casualties of a side never exceed
/// the crew that side can lose (`a - 1` attackers, `d` defenders).
pub proof fn lemma_cells_in_range(atk: Seq<u64>, def: Seq<u64>, a: int, d: int)
    requires
        strengths_valid(atk),
        strengths_valid(def),
        a <= atk.len(),
        d <= def.len(),
    ensures
        0 <= odds_cell(atk, def, a, d) <= SCALE,
        0 <= attacker_cas_cell(atk, def, a, d) <= if a >= 1 {
            (a - 1) * (SCALE as int)
        } else {
            0
        },
        0 <= defender_cas_cell(atk, def, a, d) <= if d >= 0 {
            d * (SCALE as int)
        } else {
            0
        },
    decreases a, d,
{
    let s = SCALE as int;
    if a <= 1 || d <= 0 {
        if a >= 1 {
            assert((a - 1) * s >= 0) by (nonlinear_arith)
                requires
                    a >= 1,
                    s >= 0,
            ;
        }
        if d >= 0 {
            assert(d * s >= 0) by (nonlinear_arith)
                requires
                    d >= 0,
                    s >= 0,
            ;
        }
    } else {
        let p = round_win_share(atk[a - 1] as int, def[d - 1] as int);
        lemma_share_bounds(atk[a - 1] as int, def[d - 1] as int);
        lemma_cells_in_range(atk, def, a, d - 1);
        lemma_cells_in_range(atk, def, a - 1, d);
        lemma_convex_bounds(p, odds_cell(atk, def, a, d - 1), odds_cell(atk, def, a - 1, d), s);
        assert((a - 2) * s + s == (a - 1) * s && (a - 1) * s <= (a - 1) * s) by (nonlinear_arith);
        lemma_convex_bounds(
            p,
            attacker_cas_cell(atk, def, a, d - 1),
            attacker_cas_cell(atk, def, a - 1, d) + s,
            (a - 1) * s,
        );
        assert((d - 1) * s + s == d * s) by (nonlinear_arith);
        lemma_convex_bounds(
            p,
            defender_cas_cell(atk, def, a, d - 1) + s,
            defender_cas_cell(atk, def, a - 1, d),
            d * s,
        );
    }
}

/// Lone-attacker law: an attacker with a single crew member left cannot
/// initiate a capture, so its odds are zero against every defender count.
pub proof fn lemma_lone_attacker_cannot_capture(atk: Seq<u64>, def: Seq<u64>, d: int)
    ensures
        odds_cell(atk, def, 1, d) == 0,
{
}

/// One step of the monotonicity law: odds do not drop when one attacker is
/// added, and do not rise when one defender is added.
proof fn lemma_odds_monotone_step(atk: Seq<u64>, def: Seq<u64>, a: int, d: int)
    requires
        strengths_valid(atk),
        strengths_valid(def),
        1 <= a <= atk.len(),
        1 <= d <= def.len(),
    ensures
        odds_cell(atk, def, a, d) >= odds_cell(atk, def, a - 1, d),
        odds_cell(atk, def, a, d) <= odds_cell(atk, def, a, d - 1),
    decreases a, d,
{
    if a == 1 {
        // Both sides of each inequality are zero.
    } else {
        let p = round_win_share(atk[a - 1] as int, def[d - 1] as int);
        lemma_share_bounds(atk[a - 1] as int, def[d - 1] as int);
        let l = odds_cell(atk, def, a, d - 1);
        let u = odds_cell(atk, def, a - 1, d);
        lemma_cells_in_range(atk, def, a, d - 1);
        lemma_cells_in_range(atk, def, a - 1, d);
        if d > 1 {
            // u <= odds(a-1, d-1) <= l, chaining the two inductive steps.
            lemma_odds_monotone_step(atk, def, a - 1, d);
            lemma_odds_monotone_step(atk, def, a, d - 1);
        }
        // For d == 1, l == SCALE and u <= SCALE by the range law.
        lemma_convex_ge(p, l, u);
        lemma_convex_le(p, l, u);
    }
}

/// Monotonicity law, attacker side: with a fixed defender count, capture
/// odds never decrease as the attacker's remaining crew grows.
pub proof fn lemma_odds_monotone_in_attackers(atk: Seq<u64>, def: Seq<u64>, a1: int, a2: int, d: int)
    requires
        strengths_valid(atk),
        strengths_valid(def),
        1 <= a1 <= a2 <= atk.len(),
        1 <= d <= def.len(),
    ensures
        odds_cell(atk, def, a1, d) <= odds_cell(atk, def, a2, d),
    decreases a2 - a1,
{
    if a1 < a2 {
        lemma_odds_monotone_in_attackers(atk, def, a1, a2 - 1, d);
        lemma_odds_monotone_step(atk, def, a2, d);
    }
}

/// Monotonicity law, defender side: with a fixed attacker count, capture
/// odds never increase as the defender's remaining crew grows.
pub proof fn lemma_odds_antitone_in_defenders(atk: Seq<u64>, def: Seq<u64>, a: int, d1: int, d2: int)
    requires
        strengths_valid(atk),
        strengths_valid(def),
        1 <= a <= atk.len(),
        1 <= d1 <= d2 <= def.len(),
    ensures
        odds_cell(atk, def, a, d2) <= odds_cell(atk, def, a, d1),
    decreases d2 - d1,
{
    if d1 < d2 {
        lemma_odds_antitone_in_defenders(atk, def, a, d1, d2 - 1);
        lemma_odds_monotone_step(atk, def, a, d2);
    }
}

/// Even-match law: when the attacker's two-crew strength equals the
/// defender's lone-crew strength, the two-versus-one capture odds are
/// exactly one half.
pub proof fn lemma_even_match_is_half(atk: Seq<u64>, def: Seq<u64>)
    requires
        atk.len() >= 2,
        def.len() >= 1,
        atk[1] == def[0],
        atk[1] >= 1,
    ensures
        odds_cell(atk, def, 2, 1) == SCALE / 2,
{
    let x = atk[1] as int;
    let s = SCALE as int;
    let p = round_win_share(x, x);
    assert(x * s == (x + x) * (s / 2)) by (nonlinear_arith)
        requires
            s == SCALE as int,
    ;
    lemma_div_multiples_vanish(s / 2, x + x);
    assert(p == s / 2);
    assert(odds_cell(atk, def, 2, 0) == s);
    assert(odds_cell(atk, def, 1, 1) == 0);
    assert(p * s + (s - p) * 0 == p * s) by (nonlinear_arith);
    lemma_div_by_multiple(p, s);
}

/// One cell update: the scaled convex combination
/// `(p * l + (SCALE - p) * u) / SCALE`, rounded down.
fn combine_cell(p: u64, l: u64, u: u64) -> (r: u64)
    requires
        p <= SCALE,
        l <= 0xFFFF_FFFF_0000_0000u64,
        u <= 0xFFFF_FFFF_0000_0000u64,
    ensures
        r as int == (p * l + (SCALE - p) * u) / (SCALE as int),
{
    proof {
        lemma_convex_bounds(p as int, l as int, u as int, 0xFFFF_FFFF_0000_0000u64 as int);
    }
    let num: u128 = (p as u128) * (l as u128) + ((SCALE - p) as u128) * (u as u128);
    (num / (SCALE as u128)) as u64
}

/// The scaled per-round win share `atk / (atk + def)`.
fn win_share(atk_a: u64, def_d: u64) -> (p: u64)
    requires
        1 <= atk_a,
        1 <= def_d,
    ensures
        p as int == round_win_share(atk_a as int, def_d as int),
        p <= SCALE,
{
    proof {
        lemma_share_bounds(atk_a as int, def_d as int);
    }
    (((atk_a as u128) * (SCALE as u128)) / ((atk_a as u128) + (def_d as u128))) as u64
}

/// All three stored values of cell `(i, j)` equal their recurrences.
pub open spec fn cells_match(
    odds: Seq<u64>,
    ac: Seq<u64>,
    dc: Seq<u64>,
    atk: Seq<u64>,
    def: Seq<u64>,
    i: int,
    j: int,
) -> bool {
    let idx = (i - 1) * def.len() + (j - 1);
    &&& odds[idx] == odds_cell(atk, def, i, j)
    &&& ac[idx] == attacker_cas_cell(atk, def, i, j)
    &&& dc[idx] == defender_cas_cell(atk, def, i, j)
}

pub struct CaptureOdds {
    attacker_strengths: Vec<u64>,
    defender_strengths: Vec<u64>,
    capture_odds: Vec<u64>,
    attacker_casualties: Vec<u64>,
    defender_casualties: Vec<u64>,
}

impl CaptureOdds {
    /// The attacker's cumulative strength profile (attack components).
    pub closed spec fn atk(self) -> Seq<u64> {
        self.attacker_strengths@
    }

    /// The defender's cumulative strength profile (defense components).
    pub closed spec fn def(self) -> Seq<u64> {
        self.defender_strengths@
    }

    /// The attacker's full crew size.
    pub open spec fn n(self) -> int {
        self.atk().len() as int
    }

    /// The defender's full crew size.
    pub open spec fn m(self) -> int {
        self.def().len() as int
    }

    #[verifier::type_invariant]
    spec fn wf(self) -> bool {
        &&& 1 <= self.n() <= MAX_CREW
        &&& 1 <= self.m() <= MAX_CREW
        &&& strengths_valid(self.atk())
        &&& strengths_valid(self.def())
        &&& self.capture_odds@.len() == self.n() * self.m()
        &&& self.attacker_casualties@.len() == self.n() * self.m()
        &&& self.defender_casualties@.len() == self.n() * self.m()
        &&& forall|i: int, j: int|
            1 <= i <= self.n() && 1 <= j <= self.m() ==> #[trigger] cells_match(
                self.capture_odds@,
                self.attacker_casualties@,
                self.defender_casualties@,
                self.atk(),
                self.def(),
                i,
                j,
            )
    }

    /// Build the full table, bottom-up, from the attack components of the
    /// attacker's profile and the defense components of the defender's.
    pub fn new(attacker_strengths: &Vec<PowerLevel>, defender_strengths: &Vec<PowerLevel>) -> (r:
        CaptureOdds)
        requires
            1 <= attacker_strengths@.len() <= MAX_CREW,
            1 <= defender_strengths@.len() <= MAX_CREW,
            strengths_valid(attacker_strengths@.map_values(|p: PowerLevel| p.attack_strength)),
            strengths_valid(defender_strengths@.map_values(|p: PowerLevel| p.defense_strength)),
        ensures
            r.atk() == attacker_strengths@.map_values(|p: PowerLevel| p.attack_strength),
            r.def() == defender_strengths@.map_values(|p: PowerLevel| p.defense_strength),
            r.n() == attacker_strengths@.len(),
            r.m() == defender_strengths@.len(),
    {
        let ghost atk_seq = attacker_strengths@.map_values(|p: PowerLevel| p.attack_strength);
        let ghost def_seq = defender_strengths@.map_values(|p: PowerLevel| p.defense_strength);
        let n = attacker_strengths.len();
        let m = defender_strengths.len();

        let mut atk: Vec<u64> = Vec::new();
        let mut i: usize = 0;
        while i < n
            invariant
                i <= n,
                n == attacker_strengths@.len(),
                atk_seq == attacker_strengths@.map_values(|p: PowerLevel| p.attack_strength),
                atk@ == atk_seq.take(i as int),
            decreases n - i,
        {
            atk.push(attacker_strengths[i].attack_strength);
            proof {
                assert(atk@ =~= atk_seq.take(i + 1));
            }
            i = i + 1;
        }
        proof {
            assert(atk@ =~= atk_seq);
        }

        let mut def: Vec<u64> = Vec::new();
        let mut i: usize = 0;
        while i < m
            invariant
                i <= m,
                m == defender_strengths@.len(),
                def_seq == defender_strengths@.map_values(|p: PowerLevel| p.defense_strength),
                def@ == def_seq.take(i as int),
            decreases m - i,
        {
            def.push(defender_strengths[i].defense_strength);
            proof {
                assert(def@ =~= def_seq.take(i + 1));
            }
            i = i + 1;
        }
        proof {
            assert(def@ =~= def_seq);
        }

        let mut odds: Vec<u64> = Vec::new();
        let mut ac: Vec<u64> = Vec::new();
        let mut dc: Vec<u64> = Vec::new();

        // Base row: a single attacker cannot initiate a capture.
        let mut j: usize = 0;
        while j < m
            invariant
                j <= m,
                odds@.len() == j,
                ac@.len() == j,
                dc@.len() == j,
                def_seq.len() == m,
                forall|jj: int|
                    1 <= jj <= j ==> #[trigger] cells_match(odds@, ac@, dc@, atk_seq, def_seq, 1, jj),
            decreases m - j,
        {
            let ghost odds0 = odds@;
            let ghost ac0 = ac@;
            let ghost dc0 = dc@;
            odds.push(0);
            ac.push(0);
            dc.push(0);
            proof {
                assert forall|jj: int| 1 <= jj <= j + 1 implies #[trigger] cells_match(
                    odds@,
                    ac@,
                    dc@,
                    atk_seq,
                    def_seq,
                    1,
                    jj,
                ) by {
                    if jj <= j {
                        assert(cells_match(odds0, ac0, dc0, atk_seq, def_seq, 1, jj));
                    }
                }
            }
            j = j + 1;
        }

        // Every later row marginalizes over one combat round's outcome.
        let mut a: usize = 2;
        while a <= n
            invariant
                2 <= a <= n + 1,
                n == atk@.len(),
                m == def@.len(),
                1 <= n <= MAX_CREW,
                1 <= m <= MAX_CREW,
                atk@ == atk_seq,
                def@ == def_seq,
                strengths_valid(atk_seq),
                strengths_valid(def_seq),
                odds@.len() == (a - 1) * m,
                ac@.len() == (a - 1) * m,
                dc@.len() == (a - 1) * m,
                forall|ii: int, jj: int|
                    1 <= ii < a && 1 <= jj <= m ==> #[trigger] cells_match(
                        odds@,
                        ac@,
                        dc@,
                        atk_seq,
                        def_seq,
                        ii,
                        jj,
                    ),
            decreases n + 1 - a,
        {
            let atk_a = atk[a - 1];
            let mut d: usize = 1;
            while d <= m
                invariant
                    2 <= a <= n,
                    1 <= d <= m + 1,
                    n == atk@.len(),
                    m == def@.len(),
                    1 <= n <= MAX_CREW,
                    1 <= m <= MAX_CREW,
                    atk@ == atk_seq,
                    def@ == def_seq,
                    strengths_valid(atk_seq),
                    strengths_valid(def_seq),
                    atk_a == atk_seq[a - 1],
                    odds@.len() == (a - 1) * m + (d - 1),
                    ac@.len() == (a - 1) * m + (d - 1),
                    dc@.len() == (a - 1) * m + (d - 1),
                    forall|ii: int, jj: int|
                        1 <= ii < a && 1 <= jj <= m ==> #[trigger] cells_match(
                            odds@,
                            ac@,
                            dc@,
                            atk_seq,
                            def_seq,
                            ii,
                            jj,
                        ),
                    forall|jj: int|
                        1 <= jj < d ==> #[trigger] cells_match(
                            odds@,
                            ac@,
                            dc@,
                            atk_seq,
                            def_seq,
                            a as int,
                            jj,
                        ),
                decreases m + 1 - d,
            {
                let def_d = def[d - 1];
                let ghost s = SCALE as int;
                proof {
                    // The row above is complete; its cell in this column sits
                    // exactly `m` entries back.
                    assert((a - 1) * m + (d - 1) - m == (a - 2) * m + (d - 1) && (a - 1) * m >= 1
                        * m) by (nonlinear_arith)
                        requires
                            a >= 2,
                            m >= 1,
                    ;
                    assert(cells_match(odds@, ac@, dc@, atk_seq, def_seq, a - 1, d as int));
                    lemma_cells_in_range(atk_seq, def_seq, a - 1, d as int);
                    lemma_cells_in_range(atk_seq, def_seq, a as int, d - 1);
                    assert((a - 2) * s + s == (a - 1) * s && (d - 1) * s + s == (d as int) * s)
                        by (nonlinear_arith);
                    assert((a - 1) * s <= (MAX_CREW as int) * s && (d as int) * s <= (
                    MAX_CREW as int) * s) by (nonlinear_arith)
                        requires
                            2 <= a <= MAX_CREW,
                            1 <= d <= MAX_CREW,
                            s >= 0,
                    ;
                    if d > 1 {
                        assert(cells_match(odds@, ac@, dc@, atk_seq, def_seq, a as int, d - 1));
                    }
                }
                let up_idx = odds.len() - m;
                let up_o = odds[up_idx];
                let up_ac = ac[up_idx];
                let up_dc = dc[up_idx];
                let last_idx = odds.len() - 1;
                let (left_o, left_ac, left_dc): (u64, u64, u64) = if d == 1 {
                    (SCALE, 0, 0)
                } else {
                    (odds[last_idx], ac[last_idx], dc[last_idx])
                };
                let p = win_share(atk_a, def_d);
                let cell_o = combine_cell(p, left_o, up_o);
                let cell_ac = combine_cell(p, left_ac, up_ac + SCALE);
                let cell_dc = combine_cell(p, left_dc + SCALE, up_dc);
                proof {
                    assert(cell_o == odds_cell(atk_seq, def_seq, a as int, d as int));
                    assert(cell_ac == attacker_cas_cell(atk_seq, def_seq, a as int, d as int));
                    assert(cell_dc == defender_cas_cell(atk_seq, def_seq, a as int, d as int));
                }
                let ghost odds0 = odds@;
                let ghost ac0 = ac@;
                let ghost dc0 = dc@;
                odds.push(cell_o);
                ac.push(cell_ac);
                dc.push(cell_dc);
                proof {
                    assert forall|ii: int, jj: int| 1 <= ii < a && 1 <= jj <= m implies #[trigger]
                    cells_match(odds@, ac@, dc@, atk_seq, def_seq, ii, jj) by {
                        assert(cells_match(odds0, ac0, dc0, atk_seq, def_seq, ii, jj));
                        assert((ii - 1) * m + (jj - 1) < (a - 1) * m + (d - 1)) by (nonlinear_arith)
                            requires
                                1 <= ii < a,
                                1 <= jj <= m,
                                d >= 1,
                        ;
                    }
                    assert forall|jj: int| 1 <= jj <= d implies #[trigger] cells_match(
                        odds@,
                        ac@,
                        dc@,
                        atk_seq,
                        def_seq,
                        a as int,
                        jj,
                    ) by {
                        if jj < d {
                            assert(cells_match(odds0, ac0, dc0, atk_seq, def_seq, a as int, jj));
                        }
                    }
                }
                d = d + 1;
            }
            proof {
                assert((a - 1) * m + m == a * m) by (nonlinear_arith);
            }
            a = a + 1;
        }

        proof {
            assert((n - 1) * m + m == n * m) by (nonlinear_arith);
        }
        CaptureOdds {
            attacker_strengths: atk,
            defender_strengths: def,
            capture_odds: odds,
            attacker_casualties: ac,
            defender_casualties: dc,
        }
    }

    /// The flattened index of the cell for the given remaining crew counts.
    pub fn crew_counts_to_index(&self, remaining_attackers: u32, remaining_defenders: u32) -> (idx:
        usize)
        requires
            1 <= remaining_attackers <= self.n(),
            1 <= remaining_defenders <= self.m(),
        ensures
            idx == (remaining_attackers - 1) * self.m() + (remaining_defenders - 1),
            idx < self.n() * self.m(),
    {
        proof {
            use_type_invariant(self);
            assert((remaining_attackers - 1) * self.m() + (remaining_defenders - 1) < self.n()
                * self.m() <= (MAX_CREW as int) * (MAX_CREW as int)) by (nonlinear_arith)
                requires
                    1 <= remaining_attackers <= self.n() <= MAX_CREW,
                    1 <= remaining_defenders <= self.m() <= MAX_CREW,
            ;
        }
        (remaining_attackers as usize - 1) * self.defender_strengths.len() + (
        remaining_defenders as usize - 1)
    }

    /// The scaled probability that the attacker, with the given remaining
    /// crews, eventually captures the defender.
    pub fn capture_odds(&self, remaining_attackers: u32, remaining_defenders: u32) -> (r: u64)
        requires
            1 <= remaining_attackers <= self.n(),
            1 <= remaining_defenders <= self.m(),
        ensures
            r == odds_cell(
                self.atk(),
                self.def(),
                remaining_attackers as int,
                remaining_defenders as int,
            ),
            r <= SCALE,
    {
        proof {
            use_type_invariant(self);
            assert(cells_match(
                self.capture_odds@,
                self.attacker_casualties@,
                self.defender_casualties@,
                self.atk(),
                self.def(),
                remaining_attackers as int,
                remaining_defenders as int,
            ));
            lemma_cells_in_range(
                self.atk(),
                self.def(),
                remaining_attackers as int,
                remaining_defenders as int,
            );
        }
        let index = self.crew_counts_to_index(remaining_attackers, remaining_defenders);
        self.capture_odds[index]
    }

    /// The scaled expected number of attackers lost by the time the outcome
    /// is reached.
    pub fn attacker_casualties(&self, remaining_attackers: u32, remaining_defenders: u32) -> (r:
        u64)
        requires
            1 <= remaining_attackers <= self.n(),
            1 <= remaining_defenders <= self.m(),
        ensures
            r == attacker_cas_cell(
                self.atk(),
                self.def(),
                remaining_attackers as int,
                remaining_defenders as int,
            ),
    {
        proof {
            use_type_invariant(self);
            assert(cells_match(
                self.capture_odds@,
                self.attacker_casualties@,
                self.defender_casualties@,
                self.atk(),
                self.def(),
                remaining_attackers as int,
                remaining_defenders as int,
            ));
        }
        let index = self.crew_counts_to_index(remaining_attackers, remaining_defenders);
        self.attacker_casualties[index]
    }

    /// The scaled expected number of defenders lost by the time the outcome
    /// is reached.
    pub fn defender_casualties(&self, remaining_attackers: u32, remaining_defenders: u32) -> (r:
        u64)
        requires
            1 <= remaining_attackers <= self.n(),
            1 <= remaining_defenders <= self.m(),
        ensures
            r == defender_cas_cell(
                self.atk(),
                self.def(),
                remaining_attackers as int,
                remaining_defenders as int,
            ),
    {
        proof {
            use_type_invariant(self);
            assert(cells_match(
                self.capture_odds@,
                self.attacker_casualties@,
                self.defender_casualties@,
                self.atk(),
                self.def(),
                remaining_attackers as int,
                remaining_defenders as int,
            ));
        }
        let index = self.crew_counts_to_index(remaining_attackers, remaining_defenders);
        self.defender_casualties[index]
    }

    /// The attacker's total strength with the given crew remaining.
    pub fn attacker_power(&self, remaining_attackers: u32) -> (r: u64)
        requires
            1 <= remaining_attackers <= self.n(),
        ensures
            r == self.atk()[remaining_attackers - 1],
            1 <= r <= STRENGTH_MAX,
    {
        proof {
            use_type_invariant(self);
        }
        self.attacker_strengths[remaining_attackers as usize - 1]
    }

    /// The defender's total strength with the given crew remaining.
    pub fn defender_power(&self, remaining_defenders: u32) -> (r: u64)
        requires
            1 <= remaining_defenders <= self.m(),
        ensures
            r == self.def()[remaining_defenders - 1],
            1 <= r <= STRENGTH_MAX,
    {
        proof {
            use_type_invariant(self);
        }
        self.defender_strengths[remaining_defenders as usize - 1]
    }
}

} // verus!

//! The Monte Carlo combat simulator: repeated stochastic combat rounds
//! between two crews, using the capture-odds tables' per-strength values as
//! round-by-round win weights, under the batched ("auto-go") and
//! one-at-a-time crew-commitment policies; plus the per-worker tally loop
//! and the deterministic aggregation of per-worker tallies.

use crate::capture_odds::{CaptureOdds, SCALE, STRENGTH_MAX};
use crate::doomsday_clock::DoomsdayClock;
use rand::rngs::StdRng;
use rand::Rng;
use rand::SeedableRng;
use vstd::arithmetic::mul::lemma_mul_inequality;
use vstd::prelude::*;

verus! {

#[verifier::external_type_specification]
#[verifier::external_body]
pub struct ExStdRng(StdRng);

/// Relies on rand's `SeedableRng::from_entropy`: a fresh pseudo-random
/// generator seeded from the operating system's entropy source. Nothing can
/// be promised of it; it aborts only if the system cannot supply entropy.
#[verifier::external_body]
fn rng_from_entropy() -> StdRng {
    StdRng::from_entropy()
}

/// Relies on rand's `Rng::gen_range` over `0..bound`: a value drawn from
/// `[0, bound)`. It panics only on an empty range, which the precondition
/// rules out.
#[verifier::external_body]
fn draw_below(rng: &mut StdRng, bound: u64) -> (r: u64)
    requires
        bound >= 1,
    ensures
        r < bound,
{
    rng.gen_range(0..bound)
}

/// Role rule: the defender presses the attack exactly when its own scaled
/// capture odds exceed one half.
pub open spec fn defender_aggresses(udef_odds: u64) -> bool {
    udef_odds > SCALE / 2
}

/// Role rule: the attacker presses exactly when its scaled capture odds
/// exceed the defender's, or when the defender does not press — so at least
/// one side always presses.
pub open spec fn attacker_aggresses(uatk_odds: u64, udef_odds: u64) -> bool {
    uatk_odds > udef_odds || !defender_aggresses(udef_odds)
}

/// Batch rule: under the batched ("auto-go") policy, roles are re-evaluated
/// after `max(1, u / 5)` rounds, where `u` is the attacker's current crew;
/// under the one-at-a-time policy, after every round.
pub open spec fn batch_size(u: u32, auto_go: bool) -> int {
    if auto_go && u / 5 >= 1 {
        (u / 5) as int
    } else {
        1
    }
}

/// Decide this evaluation's aggressor roles, `(enemy_attacks, you_attack)`,
/// from the two sides' current capture odds.
pub fn decide_roles(uatk_odds: u64, udef_odds: u64) -> (r: (bool, bool))
    ensures
        r.0 == defender_aggresses(udef_odds),
        r.1 == attacker_aggresses(uatk_odds, udef_odds),
        r.0 || r.1,
{
    let enemy_attacks = udef_odds > SCALE / 2;
    let you_attack = uatk_odds > udef_odds || !enemy_attacks;
    (enemy_attacks, you_attack)
}

/// How many rounds to fight before the aggressor roles are re-evaluated.
pub fn rounds_per_evaluation(u: u32, auto_go: bool) -> (r: u32)
    ensures
        r == batch_size(u, auto_go),
        r >= 1,
{
    if auto_go {
        let q = u / 5;
        if q == 0 {
            1
        } else {
            q
        }
    } else {
        1
    }
}

/// The two sides' weights for one round: each side fights with the total
/// strength its current role selects — its attack strength from the table
/// in which it is the attacker when it presses, else its defense strength
/// from the table in which it defends.
pub fn round_weights(
    u: u32,
    m: u32,
    you_attack: bool,
    enemy_attacks: bool,
    player_attack_odds: &CaptureOdds,
    player_defense_odds: &CaptureOdds,
) -> (r: (u64, u64))
    requires
        1 <= u <= player_attack_odds.n(),
        1 <= m <= player_attack_odds.m(),
        player_defense_odds.n() == player_attack_odds.m(),
        player_defense_odds.m() == player_attack_odds.n(),
    ensures
        r.0 == if you_attack {
            player_attack_odds.atk()[u - 1]
        } else {
            player_defense_odds.def()[u - 1]
        },
        r.1 == if enemy_attacks {
            player_defense_odds.atk()[m - 1]
        } else {
            player_attack_odds.def()[m - 1]
        },
        1 <= r.0 <= STRENGTH_MAX,
        1 <= r.1 <= STRENGTH_MAX,
{
    let upow: u64 = if you_attack {
        player_attack_odds.attacker_power(u)
    } else {
        player_defense_odds.defender_power(u)
    };
    let mpow: u64 = if enemy_attacks {
        player_defense_odds.attacker_power(m)
    } else {
        player_attack_odds.defender_power(m)
    };
    (upow, mpow)
}

/// One combat round, decided by a uniform draw from `[0, upow + mpow)`: the
/// attacker loses one member exactly when the draw lands in the defender's
/// share of the total weight (`draw >= upow`), else the defender loses one —
/// exactly one member falls per round.
pub fn combat_round(u: u32, m: u32, upow: u64, draw: u64) -> (r: (u32, u32))
    requires
        u >= 1,
        m >= 1,
    ensures
        draw >= upow ==> r.0 == u - 1 && r.1 == m,
        draw < upow ==> r.0 == u && r.1 == m - 1,
{
    if draw >= upow {
        (u - 1, m)
    } else {
        (u, m - 1)
    }
}

/// Fight one full boarding action under one crew-commitment policy, to its
/// terminal state: combat rounds are fought until the attacker is down to
/// one crew member or the defender is wiped out (a batch under the batched
/// policy can carry the attacker all the way to zero), re-evaluating
/// aggressor roles between batches (`decide_roles`,
/// `rounds_per_evaluation`), weighing each round by `round_weights` and
/// settling it by `combat_round` on a fresh draw. Returns the two remaining
/// crew counts. Which terminal state a contested fight reaches depends on
/// the random draws; what holds of every outcome: the state is terminal, no
/// crew count grows, a degenerate start is returned unchanged, and a
/// defender wiped out in combat leaves the attacker at least one member.
pub fn battle(
    rng: &mut StdRng,
    ucrew: u32,
    mcrew: u32,
    player_attack_odds: &CaptureOdds,
    player_defense_odds: &CaptureOdds,
    auto_go: bool,
) -> (remaining: (u32, u32))
    requires
        ucrew <= player_attack_odds.n(),
        mcrew <= player_attack_odds.m(),
        player_defense_odds.n() == player_attack_odds.m(),
        player_defense_odds.m() == player_attack_odds.n(),
    ensures
        remaining.0 <= ucrew,
        remaining.1 <= mcrew,
        remaining.0 <= 1 || remaining.1 == 0,
        ucrew <= 1 || mcrew == 0 ==> remaining == (ucrew, mcrew),
        mcrew >= 1 && remaining.1 == 0 ==> remaining.0 >= 1,
{
    let mut u: u32 = ucrew;
    let mut m: u32 = mcrew;
    while u > 1 && m > 0
        invariant
            u <= ucrew,
            m <= mcrew,
            ucrew <= player_attack_odds.n(),
            mcrew <= player_attack_odds.m(),
            player_defense_odds.n() == player_attack_odds.m(),
            player_defense_odds.m() == player_attack_odds.n(),
            ucrew <= 1 || mcrew == 0 ==> u == ucrew && m == mcrew,
            mcrew >= 1 && m == 0 ==> u >= 1,
        decreases u + m,
    {
        let uatk_odds = player_attack_odds.capture_odds(u, m);
        let udef_odds = player_defense_odds.capture_odds(m, u);
        let (enemy_attacks, you_attack) = decide_roles(uatk_odds, udef_odds);
        let rounds = rounds_per_evaluation(u, auto_go);
        let ghost entry_u = u;
        let ghost entry_m = m;
        let mut r: u32 = 0;
        while r < rounds && u > 0 && m > 0
            invariant
                r <= rounds,
                u + m + r == entry_u + entry_m,
                r == 0 ==> u == entry_u && m == entry_m,
                u <= entry_u,
                m <= entry_m,
                2 <= entry_u <= ucrew,
                1 <= entry_m <= mcrew,
                m == 0 ==> u >= 1,
                rounds >= 1,
                ucrew <= player_attack_odds.n(),
                mcrew <= player_attack_odds.m(),
                player_defense_odds.n() == player_attack_odds.m(),
                player_defense_odds.m() == player_attack_odds.n(),
            decreases rounds - r,
        {
            let (upow, mpow) = round_weights(
                u,
                m,
                you_attack,
                enemy_attacks,
                player_attack_odds,
                player_defense_odds,
            );
            let tpow: u64 = upow + mpow;
            let draw = draw_below(rng, tpow);
            let (next_u, next_m) = combat_round(u, m, upow, draw);
            u = next_u;
            m = next_m;
            r = r + 1;
        }
    }
    (u, m)
}

/// Simulate one full boarding action under one crew-commitment policy:
/// returns whether the defender was wiped out — victory exactly when the
/// defender count of `battle`'s terminal state is zero. The outcome of a
/// contested fight depends on the random draws; only the degenerate starts
/// are fixed: a defender that is already empty is captured, and an attacker
/// that cannot initiate (one crew member or fewer) never captures a crewed
/// defender.
pub fn sub_attempt(
    rng: &mut StdRng,
    ucrew: u32,
    mcrew: u32,
    player_attack_odds: &CaptureOdds,
    player_defense_odds: &CaptureOdds,
    auto_go: bool,
) -> (victory: bool)
    requires
        ucrew <= player_attack_odds.n(),
        mcrew <= player_attack_odds.m(),
        player_defense_odds.n() == player_attack_odds.m(),
        player_defense_odds.m() == player_attack_odds.n(),
    ensures
        mcrew == 0 ==> victory,
        ucrew <= 1 && mcrew >= 1 ==> !victory,
{
    let remaining = battle(rng, ucrew, mcrew, player_attack_odds, player_defense_odds, auto_go);
    remaining.1 == 0
}

/// Run one simulation attempt under each policy, in that order, against the
/// same random stream: first batched ("auto-go"), then one-at-a-time. The
/// two outcomes are correlated draws from one stream, not independent
/// replicates.
pub fn attempt(
    rng: &mut StdRng,
    ucrew: u32,
    mcrew: u32,
    player_attack_odds: &CaptureOdds,
    player_defense_odds: &CaptureOdds,
) -> (r: (bool, bool))
    requires
        ucrew <= player_attack_odds.n(),
        mcrew <= player_attack_odds.m(),
        player_defense_odds.n() == player_attack_odds.m(),
        player_defense_odds.m() == player_attack_odds.n(),
    ensures
        mcrew == 0 ==> r.0 && r.1,
        ucrew <= 1 && mcrew >= 1 ==> !r.0 && !r.1,
{
    (
        sub_attempt(rng, ucrew, mcrew, player_attack_odds, player_defense_odds, true),
        sub_attempt(rng, ucrew, mcrew, player_attack_odds, player_defense_odds, false),
    )
}

/// One claimed work unit: `icount` attempts, tallying the victories under
/// each policy. Each tally is at most the number of attempts; on the
/// degenerate starts every attempt ends the same way, so the tallies are
/// exact there.
pub fn work_unit(
    rng: &mut StdRng,
    icount: usize,
    ucrew: u32,
    mcrew: u32,
    player_attack_odds: &CaptureOdds,
    player_defense_odds: &CaptureOdds,
) -> (r: (usize, usize))
    requires
        ucrew <= player_attack_odds.n(),
        mcrew <= player_attack_odds.m(),
        player_defense_odds.n() == player_attack_odds.m(),
        player_defense_odds.m() == player_attack_odds.n(),
    ensures
        r.0 <= icount,
        r.1 <= icount,
        mcrew == 0 ==> r.0 == icount && r.1 == icount,
        ucrew <= 1 && mcrew >= 1 ==> r.0 == 0 && r.1 == 0,
{
    let mut victories_by_auto: usize = 0;
    let mut victories_by_uni: usize = 0;
    let mut i: usize = 0;
    while i < icount
        invariant
            i <= icount,
            victories_by_auto <= i,
            victories_by_uni <= i,
            mcrew == 0 ==> victories_by_auto == i && victories_by_uni == i,
            ucrew <= 1 && mcrew >= 1 ==> victories_by_auto == 0 && victories_by_uni == 0,
            ucrew <= player_attack_odds.n(),
            mcrew <= player_attack_odds.m(),
            player_defense_odds.n() == player_attack_odds.m(),
            player_defense_odds.m() == player_attack_odds.n(),
        decreases icount - i,
    {
        let (auto, uni) = attempt(rng, ucrew, mcrew, player_attack_odds, player_defense_odds);
        if auto {
            victories_by_auto = victories_by_auto + 1;
        }
        if uni {
            victories_by_uni = victories_by_uni + 1;
        }
        i = i + 1;
    }
    (victories_by_auto, victories_by_uni)
}

/// One worker's full run: claim work units from the countdown until none is
/// left, running `icount` attempts per claimed unit with a private random
/// generator. Returns (units completed, batched-policy victories,
/// one-at-a-time victories). The worker completes exactly the units the
/// countdown held, each victory tally is bounded by the attempts run, and on
/// the degenerate starts the tallies are exact.
pub fn thread_worker(
    icount: usize,
    ucrew: u32,
    mcrew: u32,
    player_attack_odds: &CaptureOdds,
    player_defense_odds: &CaptureOdds,
    clock: &mut DoomsdayClock,
) -> (r: (usize, usize, usize))
    requires
        icount >= 1,
        old(clock).count() * icount <= usize::MAX,
        ucrew <= player_attack_odds.n(),
        mcrew <= player_attack_odds.m(),
        player_defense_odds.n() == player_attack_odds.m(),
        player_defense_odds.m() == player_attack_odds.n(),
    ensures
        r.0 == old(clock).count(),
        final (clock).count() == 0,
        r.1 <= r.0 * icount,
        r.2 <= r.0 * icount,
        mcrew == 0 ==> r.1 == r.0 * icount && r.2 == r.0 * icount,
        ucrew <= 1 && mcrew >= 1 ==> r.1 == 0 && r.2 == 0,
{
    let mut rng = rng_from_entropy();
    let ghost c0 = clock.count();
    let mut ucount: usize = 0;
    let mut victories_by_auto: usize = 0;
    let mut victories_by_uni: usize = 0;
    loop
        invariant
            ucount + clock.count() == c0,
            victories_by_auto <= ucount * icount,
            victories_by_uni <= ucount * icount,
            mcrew == 0 ==> victories_by_auto == ucount * icount && victories_by_uni == ucount
                * icount,
            ucrew <= 1 && mcrew >= 1 ==> victories_by_auto == 0 && victories_by_uni == 0,
            icount >= 1,
            c0 * icount <= usize::MAX,
            ucrew <= player_attack_odds.n(),
            mcrew <= player_attack_odds.m(),
            player_defense_odds.n() == player_attack_odds.m(),
            player_defense_odds.m() == player_attack_odds.n(),
        ensures
            clock.count() == 0,
            ucount == c0,
            victories_by_auto <= ucount * icount,
            victories_by_uni <= ucount * icount,
            mcrew == 0 ==> victories_by_auto == ucount * icount && victories_by_uni == ucount
                * icount,
            ucrew <= 1 && mcrew >= 1 ==> victories_by_auto == 0 && victories_by_uni == 0,
        decreases clock.count(),
    {
        let claimed = clock.tick();
        if !claimed {
            break;
        }
        proof {
            assert(ucount * icount + icount == (ucount + 1) * icount) by (nonlinear_arith);
            lemma_mul_inequality(ucount + 1, c0 as int, icount as int);
            assert(c0 <= c0 * icount) by (nonlinear_arith)
                requires
                    icount >= 1,
                    c0 >= 0,
            ;
        }
        ucount = ucount + 1;
        let (auto, uni) = work_unit(
            &mut rng,
            icount,
            ucrew,
            mcrew,
            player_attack_odds,
            player_defense_odds,
        );
        victories_by_auto = victories_by_auto + auto;
        victories_by_uni = victories_by_uni + uni;
    }
    (ucount, victories_by_auto, victories_by_uni)
}

/// Total work units over a sequence of per-worker tallies.
pub open spec fn sum_units(parts: Seq<(usize, usize, usize)>) -> int
    decreases parts.len(),
{
    if parts.len() == 0 {
        0
    } else {
        sum_units(parts.drop_last()) + parts.last().0
    }
}

/// Total batched-policy victories over a sequence of per-worker tallies.
pub open spec fn sum_auto(parts: Seq<(usize, usize, usize)>) -> int
    decreases parts.len(),
{
    if parts.len() == 0 {
        0
    } else {
        sum_auto(parts.drop_last()) + parts.last().1
    }
}

/// Total one-at-a-time victories over a sequence of per-worker tallies.
pub open spec fn sum_uni(parts: Seq<(usize, usize, usize)>) -> int
    decreases parts.len(),
{
    if parts.len() == 0 {
        0
    } else {
        sum_uni(parts.drop_last()) + parts.last().2
    }
}

/// Every prefix sum is bounded by the full sum: the entries are tallies and
/// never negative.
proof fn lemma_prefix_sums_bounded(parts: Seq<(usize, usize, usize)>, i: int)
    requires
        0 <= i <= parts.len(),
    ensures
        sum_units(parts.take(i)) <= sum_units(parts),
        sum_auto(parts.take(i)) <= sum_auto(parts),
        sum_uni(parts.take(i)) <= sum_uni(parts),
    decreases parts.len() - i,
{
    if i == parts.len() {
        assert(parts.take(i) =~= parts);
    } else {
        assert(parts.take(i + 1).drop_last() =~= parts.take(i));
        lemma_prefix_sums_bounded(parts, i + 1);
    }
}

/// Sum the per-worker tallies into the run's final statistics: total work
/// units and total victories under each policy.
pub fn sum_work_stats(parts: &Vec<(usize, usize, usize)>) -> (r: (usize, usize, usize))
    requires
        sum_units(parts@) <= usize::MAX,
        sum_auto(parts@) <= usize::MAX,
        sum_uni(parts@) <= usize::MAX,
    ensures
        r.0 == sum_units(parts@),
        r.1 == sum_auto(parts@),
        r.2 == sum_uni(parts@),
{
    let mut units: usize = 0;
    let mut auto: usize = 0;
    let mut uni: usize = 0;
    let mut i: usize = 0;
    while i < parts.len()
        invariant
            i <= parts@.len(),
            units == sum_units(parts@.take(i as int)),
            auto == sum_auto(parts@.take(i as int)),
            uni == sum_uni(parts@.take(i as int)),
            sum_units(parts@) <= usize::MAX,
            sum_auto(parts@) <= usize::MAX,
            sum_uni(parts@) <= usize::MAX,
        decreases parts@.len() - i,
    {
        proof {
            assert(parts@.take(i + 1).drop_last() =~= parts@.take(i as int));
            assert(parts@.take(i + 1).last() == parts@[i as int]);
            lemma_prefix_sums_bounded(parts@, i + 1);
        }
        let (u, a, n) = parts[i];
        units = units + u;
        auto = auto + a;
        uni = uni + n;
        i = i + 1;
    }
    proof {
        assert(parts@.take(parts@.len() as int) =~= parts@);
    }
    (units, auto, uni)
}

/// Aggregation law: a worker that did no work contributes nothing — adding
/// an all-zero tally to any sequence of tallies leaves all three totals
/// unchanged.
pub proof fn lemma_zero_tally_is_identity(parts: Seq<(usize, usize, usize)>)
    ensures
        sum_units(parts.push((0, 0, 0))) == sum_units(parts),
        sum_auto(parts.push((0, 0, 0))) == sum_auto(parts),
        sum_uni(parts.push((0, 0, 0))) == sum_uni(parts),
{
    assert(parts.push((0, 0, 0)).drop_last() =~= parts);
}

} // verus!

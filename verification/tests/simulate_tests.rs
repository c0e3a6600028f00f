use boarding_odds::capture_odds::{CaptureOdds, SCALE};
use boarding_odds::doomsday_clock::DoomsdayClock;
use boarding_odds::power_level::PowerLevel;
use boarding_odds::profile::calculate_strengths;
use boarding_odds::simulate::{
    attempt, battle, combat_round, decide_roles, rounds_per_evaluation, round_weights, sub_attempt,
    sum_work_stats, thread_worker, work_unit,
};
use rand::rngs::StdRng;
use rand::SeedableRng;

fn uniform_profile(crew: u32) -> Vec<PowerLevel> {
    calculate_strengths(crew, PowerLevel::new(1, 1), &Vec::new())
}

fn tables(ucrew: u32, mcrew: u32) -> (CaptureOdds, CaptureOdds) {
    let ustrengths = uniform_profile(ucrew);
    let mstrengths = uniform_profile(mcrew);
    (
        CaptureOdds::new(&ustrengths, &mstrengths),
        CaptureOdds::new(&mstrengths, &ustrengths),
    )
}

#[test]
fn roles_follow_the_odds() {
    let half = SCALE / 2;
    // The defender presses exactly when its odds exceed one half.
    assert_eq!(decide_roles(0, half + 1), (true, false));
    assert_eq!(decide_roles(0, half), (false, true));
    // The attacker presses when its odds beat the defender's...
    assert_eq!(decide_roles(half + 2, half + 1), (true, true));
    // ...or when the defender does not press.
    assert_eq!(decide_roles(0, 0), (false, true));
    // At least one side always presses.
    for (uatk, udef) in [(0, 0), (0, SCALE), (SCALE, 0), (half, half), (SCALE, SCALE)] {
        let (enemy_attacks, you_attack) = decide_roles(uatk, udef);
        assert!(enemy_attacks || you_attack);
    }
}

#[test]
fn batch_size_follows_the_policy() {
    // Batched: max(1, u / 5) rounds between role evaluations.
    assert_eq!(rounds_per_evaluation(3, true), 1);
    assert_eq!(rounds_per_evaluation(5, true), 1);
    assert_eq!(rounds_per_evaluation(10, true), 2);
    assert_eq!(rounds_per_evaluation(461, true), 92);
    // One-at-a-time: always a single round.
    assert_eq!(rounds_per_evaluation(461, false), 1);
}

#[test]
fn weights_follow_the_roles() {
    // Asymmetric strengths so each role picks a distinct weight.
    let att = calculate_strengths(2, PowerLevel::new(2, 3), &Vec::new());
    let def = calculate_strengths(2, PowerLevel::new(5, 7), &Vec::new());
    let pao = CaptureOdds::new(&att, &def);
    let pdo = CaptureOdds::new(&def, &att);
    // Pressing sides use their attack strength from the table where they
    // attack; the others their defense strength from the table they defend.
    assert_eq!(round_weights(2, 1, true, false, &pao, &pdo), (4, 7));
    assert_eq!(round_weights(2, 1, false, true, &pao, &pdo), (6, 5));
    assert_eq!(round_weights(1, 2, true, true, &pao, &pdo), (2, 10));
}

#[test]
fn round_decrements_exactly_one_side() {
    // The attacker loses a member exactly when the draw lands in the
    // defender's share of the weight.
    assert_eq!(combat_round(5, 3, 10, 10), (4, 3));
    assert_eq!(combat_round(5, 3, 10, 17), (4, 3));
    assert_eq!(combat_round(5, 3, 10, 9), (5, 2));
    assert_eq!(combat_round(5, 3, 10, 0), (5, 2));
}

#[test]
fn degenerate_work_unit_tallies_are_exact() {
    let (pao, pdo) = tables(4, 3);
    let mut rng = StdRng::from_entropy();
    // An empty defender is captured on every attempt.
    assert_eq!(work_unit(&mut rng, 7, 4, 0, &pao, &pdo), (7, 7));
    // A lone attacker never captures a crewed defender.
    assert_eq!(work_unit(&mut rng, 7, 1, 3, &pao, &pdo), (0, 0));
}

#[test]
fn battle_reaches_a_terminal_state() {
    let (pao, pdo) = tables(5, 3);
    let mut rng = StdRng::from_entropy();
    // Degenerate starts are returned unchanged.
    assert_eq!(battle(&mut rng, 5, 0, &pao, &pdo, true), (5, 0));
    assert_eq!(battle(&mut rng, 1, 3, &pao, &pdo, false), (1, 3));
    // A contested fight runs until the attacker is spent or the defender is
    // wiped out, and a capture leaves the attacker at least one member.
    for auto_go in [true, false] {
        for _ in 0..50 {
            let (u, m) = battle(&mut rng, 5, 3, &pao, &pdo, auto_go);
            assert!(u <= 5 && m <= 3);
            assert!(u <= 1 || m == 0);
            if m == 0 {
                assert!(u >= 1);
            }
        }
    }
}

#[test]
fn empty_defender_is_captured() {
    let (pao, pdo) = tables(4, 3);
    let mut rng = StdRng::from_entropy();
    let (auto, uni) = attempt(&mut rng, 4, 0, &pao, &pdo);
    assert!(auto);
    assert!(uni);
}

#[test]
fn lone_attacker_never_captures() {
    let (pao, pdo) = tables(4, 3);
    let mut rng = StdRng::from_entropy();
    let (auto, uni) = attempt(&mut rng, 1, 3, &pao, &pdo);
    assert!(!auto);
    assert!(!uni);
}

#[test]
fn work_unit_tallies_are_bounded() {
    let (pao, pdo) = tables(5, 3);
    let mut rng = StdRng::from_entropy();
    let (auto, uni) = work_unit(&mut rng, 25, 5, 3, &pao, &pdo);
    assert!(auto <= 25);
    assert!(uni <= 25);
}

#[test]
fn worker_completes_every_claimed_unit() {
    let (pao, pdo) = tables(5, 3);
    let mut clock = DoomsdayClock::new(3);
    let (units, auto, uni) = thread_worker(2, 5, 3, &pao, &pdo, &mut clock);
    assert_eq!(units, 3);
    assert!(auto <= 6);
    assert!(uni <= 6);
    assert!(!clock.tick());
}

#[test]
fn single_unit_single_iteration_run() {
    let (pao, pdo) = tables(5, 3);
    let mut clock = DoomsdayClock::new(1);
    let (units, auto, uni) = thread_worker(1, 5, 3, &pao, &pdo, &mut clock);
    assert_eq!(units, 1);
    assert!(auto <= 1);
    assert!(uni <= 1);
}

#[test]
fn aggregation_sums_componentwise() {
    let parts = vec![(3, 2, 1), (4, 0, 2)];
    assert_eq!(sum_work_stats(&parts), (7, 2, 3));
}

#[test]
fn aggregation_ignores_idle_workers() {
    // Summing in a worker that claimed no units changes nothing.
    let (pao, pdo) = tables(5, 3);
    let mut clock = DoomsdayClock::new(1);
    let tally = thread_worker(1, 5, 3, &pao, &pdo, &mut clock);
    let mut idle_clock = DoomsdayClock::new(0);
    let idle = thread_worker(1, 5, 3, &pao, &pdo, &mut idle_clock);
    assert_eq!(idle, (0, 0, 0));
    let alone = sum_work_stats(&vec![tally]);
    let with_idle = sum_work_stats(&vec![tally, idle]);
    assert_eq!(alone, with_idle);
}

#[test]
fn one_at_a_time_rate_converges_to_analytic_odds() {
    // With uniform (1, 1) strengths both roles fight with the same weights,
    // so the one-at-a-time policy draws each round exactly as the recurrence
    // models it: the empirical victory rate over many trials must approach
    // capture_odds(5, 3).
    let (pao, pdo) = tables(5, 3);
    let analytic = pao.capture_odds(5, 3) as f64 / SCALE as f64;
    let trials = 20000;
    let mut wins = 0u32;
    let mut rng = StdRng::from_entropy();
    for _ in 0..trials {
        if sub_attempt(&mut rng, 5, 3, &pao, &pdo, false) {
            wins += 1;
        }
    }
    let rate = wins as f64 / trials as f64;
    assert!((rate - analytic).abs() < 0.02, "rate {} vs analytic {}", rate, analytic);
}

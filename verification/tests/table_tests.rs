use boarding_odds::capture_odds::{CaptureOdds, SCALE};
use boarding_odds::power_level::PowerLevel;
use boarding_odds::profile::calculate_strengths;

/// A uniform profile: `crew` members of strength (1, 1), cumulative.
fn uniform_profile(crew: u32) -> Vec<PowerLevel> {
    calculate_strengths(crew, PowerLevel::new(1, 1), &Vec::new())
}

#[test]
fn lone_attacker_has_zero_odds() {
    let attacker = uniform_profile(6);
    let defender = uniform_profile(4);
    let table = CaptureOdds::new(&attacker, &defender);
    for d in 1..=4 {
        assert_eq!(table.capture_odds(1, d), 0);
        assert_eq!(table.attacker_casualties(1, d), 0);
        assert_eq!(table.defender_casualties(1, d), 0);
    }
}

#[test]
fn odds_are_probabilities() {
    let attacker = calculate_strengths(5, PowerLevel::new(1, 2), &vec![(PowerLevel::new(3, 1), 2)]);
    let defender = calculate_strengths(4, PowerLevel::new(2, 3), &vec![(PowerLevel::new(1, 4), 1)]);
    let table = CaptureOdds::new(&attacker, &defender);
    for a in 1..=5 {
        for d in 1..=4 {
            assert!(table.capture_odds(a, d) <= SCALE);
        }
    }
}

#[test]
fn odds_monotone_in_crews() {
    let attacker = calculate_strengths(6, PowerLevel::new(1, 2), &vec![(PowerLevel::new(2, 1), 3)]);
    let defender = calculate_strengths(5, PowerLevel::new(1, 2), &vec![(PowerLevel::new(1, 3), 2)]);
    let table = CaptureOdds::new(&attacker, &defender);
    for d in 1..=5 {
        for a in 2..=6 {
            assert!(table.capture_odds(a - 1, d) <= table.capture_odds(a, d));
        }
    }
    for a in 1..=6 {
        for d in 2..=5 {
            assert!(table.capture_odds(a, d) <= table.capture_odds(a, d - 1));
        }
    }
}

#[test]
fn even_match_is_exactly_half() {
    // Attacker's two-crew cumulative strength (2) equals the lone defender's.
    let attacker = uniform_profile(2);
    let defender = calculate_strengths(1, PowerLevel::new(2, 2), &Vec::new());
    let table = CaptureOdds::new(&attacker, &defender);
    assert_eq!(table.capture_odds(2, 1), SCALE / 2);
}

#[test]
fn ten_versus_one_regression_fixture() {
    // Uniform per-member strength (1, 1): cumulative profile 1, 2, ..., 10.
    let attacker = uniform_profile(10);
    let defender = uniform_profile(1);
    let table = CaptureOdds::new(&attacker, &defender);
    // p = floor(2 * SCALE / 3); capture_odds(2, 1) = p + (1 - p) * 0.
    let two_thirds: u64 = (2 * SCALE as u128 / 3) as u64;
    assert_eq!(two_thirds, 2863311530);
    assert_eq!(table.capture_odds(2, 1), two_thirds);
    // One round against the lone defender: the attacker loses a member with
    // probability 1 - p (and then one more round is already lost), wins with p.
    assert_eq!(table.attacker_casualties(2, 1), SCALE - two_thirds);
    assert_eq!(table.defender_casualties(2, 1), two_thirds);
    // More attackers never hurt.
    assert!(table.capture_odds(10, 1) >= table.capture_odds(2, 1));
}

#[test]
fn index_is_row_major() {
    let attacker = uniform_profile(10);
    let defender = uniform_profile(3);
    let table = CaptureOdds::new(&attacker, &defender);
    assert_eq!(table.crew_counts_to_index(1, 1), 0);
    assert_eq!(table.crew_counts_to_index(1, 3), 2);
    assert_eq!(table.crew_counts_to_index(2, 1), 3);
    assert_eq!(table.crew_counts_to_index(4, 2), 10);
}

#[test]
fn powers_are_cumulative_strengths() {
    let attacker = uniform_profile(4);
    let defender = uniform_profile(2);
    let table = CaptureOdds::new(&attacker, &defender);
    for a in 1..=4 {
        assert_eq!(table.attacker_power(a), a as u64);
    }
    for d in 1..=2 {
        assert_eq!(table.defender_power(d), d as u64);
    }
}

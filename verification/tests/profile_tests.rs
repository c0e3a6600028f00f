use boarding_odds::power_level::PowerLevel;
use boarding_odds::profile::calculate_strengths;

#[test]
fn combine_adds_componentwise() {
    let a = PowerLevel::new(3, 1);
    let b = PowerLevel::new(1, 2);
    let c = a.combine(b);
    assert_eq!(c, PowerLevel::new(4, 3));
}

#[test]
fn builder_scenario_three_crew() {
    // Crew 3, baseline (1, 2), one weapon type (3, 1) carried twice: the
    // combined list is [(4, 3), (4, 3), (1, 2)]; after the descending sort
    // and prefix sums, attack components are [4, 8, 9], defense [3, 6, 8].
    let gov = PowerLevel::new(1, 2);
    let weps = vec![(PowerLevel::new(3, 1), 2)];
    let profile = calculate_strengths(3, gov, &weps);
    assert_eq!(profile.len(), 3);
    assert_eq!(profile[0], PowerLevel::new(4, 3));
    assert_eq!(profile[1], PowerLevel::new(8, 6));
    assert_eq!(profile[2], PowerLevel::new(9, 8));
}

#[test]
fn builder_pads_with_baseline() {
    // No weapons: every member contributes the bare baseline.
    let profile = calculate_strengths(4, PowerLevel::new(2, 5), &Vec::new());
    assert_eq!(profile.len(), 4);
    for i in 0..4 {
        assert_eq!(profile[i], PowerLevel::new(2 * (i as u64 + 1), 5 * (i as u64 + 1)));
    }
}

#[test]
fn builder_truncates_to_crew() {
    // More weapon copies than crew: only the strongest contributions count.
    let gov = PowerLevel::new(1, 1);
    let weps = vec![(PowerLevel::new(9, 0), 1), (PowerLevel::new(1, 9), 3)];
    let profile = calculate_strengths(2, gov, &weps);
    assert_eq!(profile.len(), 2);
    // Attack components sorted descending: [10, 2, 2, 2] -> prefix [10, 12].
    assert_eq!(profile[0].attack_strength, 10);
    assert_eq!(profile[1].attack_strength, 12);
    // Defense components sorted descending: [10, 10, 10, 1] -> prefix [10, 20].
    assert_eq!(profile[0].defense_strength, 10);
    assert_eq!(profile[1].defense_strength, 20);
}

#[test]
fn builder_components_sorted_independently() {
    // The two dimensions are sorted on their own, not as pairs.
    let gov = PowerLevel::new(1, 1);
    let weps = vec![(PowerLevel::new(5, 0), 1), (PowerLevel::new(0, 5), 1)];
    let profile = calculate_strengths(2, gov, &weps);
    assert_eq!(profile[0], PowerLevel::new(6, 6));
    assert_eq!(profile[1], PowerLevel::new(7, 7));
}

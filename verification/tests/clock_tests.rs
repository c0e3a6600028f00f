use boarding_odds::doomsday_clock::DoomsdayClock;

#[test]
fn countdown_hands_out_every_unit_once() {
    // From 5, exactly 5 claims succeed, observing 5, 4, 3, 2, 1 in order,
    // and every further claim fails with the counter stuck at zero.
    let mut clock = DoomsdayClock::new(5);
    for expected in (1..=5).rev() {
        let (claimed, previous) = clock.raw_tick();
        assert!(claimed);
        assert_eq!(previous, expected);
    }
    for _ in 0..3 {
        let (claimed, previous) = clock.raw_tick();
        assert!(!claimed);
        assert_eq!(previous, 0);
    }
}

#[test]
fn countdown_from_zero_never_claims() {
    let mut clock = DoomsdayClock::new(0);
    assert!(!clock.tick());
    assert!(!clock.tick());
}

#[test]
fn tick_matches_raw_tick() {
    let mut clock = DoomsdayClock::new(2);
    assert!(clock.tick());
    assert!(clock.tick());
    assert!(!clock.tick());
}

use termcraft::clock::{default_seed, seed_from_clock};

#[test]
fn clock_reading_becomes_the_seed() {
    assert_eq!(seed_from_clock(Some(1_700_000_000)), 1_700_000_000);
    assert_eq!(seed_from_clock(Some(0)), 0);
}

#[test]
fn unreadable_clock_gives_42() {
    assert_eq!(seed_from_clock(None), 42);
}

#[test]
fn default_seed_follows_the_clock() {
    // The clock of any machine running this lies well after 2020.
    assert!(default_seed() > 1_577_836_800);
}


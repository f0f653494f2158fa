use termcraft::hud::{day_number, hearts, shown_count, slot_count};

#[test]
fn heart_counts() {
    assert_eq!(hearts(20), (10, 0));
    assert_eq!(hearts(19), (9, 1));
    assert_eq!(hearts(1), (0, 10));
    assert_eq!(hearts(-4), (0, 10));
    assert_eq!(hearts(30), (15, 0));
}

#[test]
fn hotbar_counts_are_capped() {
    assert_eq!(shown_count(5), 5);
    assert_eq!(shown_count(999), 999);
    assert_eq!(shown_count(5000), 999);
}

#[test]
fn slot_counts_fill_three_columns() {
    assert_eq!(slot_count(0), "0  ");
    assert_eq!(slot_count(7), "7  ");
    assert_eq!(slot_count(42), "42 ");
    assert_eq!(slot_count(100), "100");
    assert_eq!(slot_count(1234), "999");
    for n in [0u32, 5, 9, 10, 64, 99, 100, 998, 999, 1000, u32::MAX] {
        assert_eq!(slot_count(n), format!("{:<3}", n.min(999)));
    }
}

#[test]
fn days_count_from_one() {
    assert_eq!(day_number(0, 2400), 1);
    assert_eq!(day_number(2399, 2400), 1);
    assert_eq!(day_number(2400, 2400), 2);
    assert_eq!(day_number(10_000, 2400), 5);
}

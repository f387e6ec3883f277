use bitdex::calendar::{days_to_ymd, iso_text, pad};

#[test]
fn epoch_is_the_first_of_january_1970() {
    assert_eq!(days_to_ymd(0), (1970, 1, 1));
}

#[test]
fn leap_days_are_counted() {
    assert_eq!(days_to_ymd(11016), (2000, 2, 29));
    assert_eq!(days_to_ymd(11017), (2000, 3, 1));
    assert_eq!(days_to_ymd(20526), (2026, 3, 14));
    assert_eq!(days_to_ymd(47541), (2100, 3, 1));
    assert_eq!(days_to_ymd(47540), (2100, 2, 28));
}

#[test]
fn moments_are_written_with_milliseconds() {
    assert_eq!(iso_text(0, 0), "1970-01-01T00:00:00.000Z");
    assert_eq!(iso_text(1773491696, 789), "2026-03-14T12:34:56.789Z");
    assert_eq!(iso_text(253402300799, 999), "9999-12-31T23:59:59.999Z");
}

#[test]
fn padding_fills_from_the_left() {
    assert_eq!(pad(7, 3), "007");
    assert_eq!(pad(1234, 3), "1234");
    assert_eq!(pad(0, 0), "0");
}

use account_sync::clock::{Instant, EARLIEST_SECOND, LATEST_SECOND, NANOSECONDS_PER_SECOND};

#[test]
fn epoch_is_written_in_utc() {
    let instant = Instant::new(0, 0).unwrap();
    assert_eq!(instant.to_rfc3339(), "1970-01-01T00:00:00+00:00");
}

#[test]
fn known_instant_is_written() {
    let instant = Instant::new(1_431_648_000, 0).unwrap();
    assert_eq!(instant.to_rfc3339(), "2015-05-15T00:00:00+00:00");
    assert_eq!(instant.seconds(), 1_431_648_000);
    assert_eq!(instant.nanoseconds(), 0);
}

#[test]
fn fractions_are_written_as_short_as_they_go() {
    assert_eq!(Instant::new(1, 500_000_000).unwrap().to_rfc3339(), "1970-01-01T00:00:01.500+00:00");
    assert_eq!(Instant::new(1, 500_000).unwrap().to_rfc3339(), "1970-01-01T00:00:01.000500+00:00");
    assert_eq!(Instant::new(1, 5).unwrap().to_rfc3339(), "1970-01-01T00:00:01.000000005+00:00");
}

#[test]
fn instants_before_the_epoch_are_written() {
    assert_eq!(Instant::new(-1, 0).unwrap().to_rfc3339(), "1969-12-31T23:59:59+00:00");
}

#[test]
fn first_and_last_instant_are_written() {
    assert_eq!(EARLIEST_SECOND, -62_167_219_200);
    assert_eq!(LATEST_SECOND, 253_402_300_799);
    assert_eq!(
        Instant::new(EARLIEST_SECOND, 0).unwrap().to_rfc3339(),
        "0000-01-01T00:00:00+00:00"
    );
    assert_eq!(
        Instant::new(LATEST_SECOND, NANOSECONDS_PER_SECOND - 1).unwrap().to_rfc3339(),
        "9999-12-31T23:59:59.999999999+00:00"
    );
}

#[test]
fn instants_out_of_range_are_refused() {
    assert_eq!(Instant::new(EARLIEST_SECOND - 1, 0), None);
    assert_eq!(Instant::new(LATEST_SECOND + 1, 0), None);
    assert_eq!(Instant::new(0, NANOSECONDS_PER_SECOND), None);
    assert_eq!(Instant::new(i64::MAX, 0), None);
    assert_eq!(Instant::new(i64::MIN, 0), None);
    assert_eq!(Instant::new(59, 1_500_000_000), None);
}

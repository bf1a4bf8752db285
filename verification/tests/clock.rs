use grapevine::clock::{ns_to_datetime, split_timestamp};

#[test]
fn split_timestamp_into_seconds_and_nanos() {
    assert_eq!(split_timestamp(0), (0, 0));
    assert_eq!(split_timestamp(1_500_000_000), (1, 500_000_000));
    assert_eq!(split_timestamp(-2_000_000_000), (-2, 0));
}

#[test]
fn ns_to_datetime_gives_the_utc_date() {
    assert_eq!(ns_to_datetime(0).to_string(), "1970-01-01 00:00:00");
    assert_eq!(ns_to_datetime(86_400_000_000_000).to_string(), "1970-01-02 00:00:00");
    assert_eq!(ns_to_datetime(-1_000_000_000).to_string(), "1969-12-31 23:59:59");
    assert_eq!(
        ns_to_datetime(1_500_000_000),
        chrono::DateTime::from_timestamp(1, 500_000_000).unwrap().naive_utc()
    );
}

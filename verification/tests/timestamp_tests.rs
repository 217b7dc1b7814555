use jj::timestamp::{format_timestamp, label_for_timestamp};

#[test]
fn epoch_is_formatted_in_utc() {
    assert_eq!(format_timestamp(0), "1970-01-01T00:00:00Z");
}

#[test]
fn milliseconds_show_as_a_fraction() {
    assert_eq!(format_timestamp(1_546_300_800_123), "2019-01-01T00:00:00.123Z");
    assert_eq!(format_timestamp(-1), "1969-12-31T23:59:59.999Z");
}

#[test]
fn a_timestamp_out_of_range_is_unknown() {
    assert_eq!(format_timestamp(i64::MAX), "unknown time");
    assert_eq!(format_timestamp(i64::MIN), "unknown time");
}

#[test]
fn label_falls_back_when_nothing_was_formatted() {
    assert_eq!(label_for_timestamp(None), "unknown time");
    assert_eq!(label_for_timestamp(Some("x".to_string())), "x");
}

use noogle_search::cache::{
    fetch_outputs, format_metadata, metadata_round_trip, needs_fetch, parse_metadata,
    CacheMetadata, DisclaimerState,
};
use noogle_search::timestamp::{parse_timestamp, render_timestamp};

fn b(s: &str) -> Vec<u8> {
    s.as_bytes().to_vec()
}

#[test]
fn timestamp_of_epoch_zero_is_canonical() {
    assert_eq!(render_timestamp(0), b("1970-01-01T00:00:00Z"));
    assert_eq!(parse_timestamp(&b("1970-01-01T00:00:00Z")), Some(0));
}

#[test]
fn timestamp_of_a_known_second_is_exact() {
    assert_eq!(render_timestamp(1718454896), b("2024-06-15T12:34:56Z"));
    assert_eq!(parse_timestamp(&b("2024-06-15T12:34:56Z")), Some(1718454896));
}

#[test]
fn leap_day_parses_only_in_leap_years() {
    assert_eq!(parse_timestamp(&b("2024-02-29T00:00:00Z")), Some(1709164800));
    assert_eq!(parse_timestamp(&b("2023-02-29T00:00:00Z")), None);
}

#[test]
fn malformed_timestamps_are_rejected() {
    assert_eq!(parse_timestamp(&b("2024-06-15T12:34:56")), None);
    assert_eq!(parse_timestamp(&b("2024-06-15 12:34:56Z")), None);
    assert_eq!(parse_timestamp(&b("2024-13-01T00:00:00Z")), None);
    assert_eq!(parse_timestamp(&b("2024-06-15T24:00:00Z")), None);
    assert_eq!(parse_timestamp(&b("2024-06-15T12:34:60Z")), None);
    assert_eq!(parse_timestamp(&b("1899-06-15T12:34:56Z")), None);
    assert_eq!(parse_timestamp(&b("")), None);
}

#[test]
fn metadata_record_has_the_documented_shape() {
    let m = CacheMetadata { last_fetched: 0, data_version: b("deadbeef") };
    let bytes = format_metadata(&m);
    assert_eq!(
        bytes,
        b("{\"last_fetched\":\"1970-01-01T00:00:00Z\",\"data_version\":\"deadbeef\"}")
    );
}

#[test]
fn metadata_round_trip_keeps_both_fields() {
    let m = CacheMetadata { last_fetched: 1718454896, data_version: b("0123abcd") };
    let back = metadata_round_trip(&m).unwrap();
    assert_eq!(back.last_fetched, 1718454896);
    assert_eq!(back.data_version, b("0123abcd"));
}

#[test]
fn metadata_parse_rejects_garbage() {
    assert!(parse_metadata(&b("")).is_none());
    assert!(parse_metadata(&b("{}")).is_none());
    assert!(parse_metadata(&b("{\"last_fetched\":\"not a time\",\"data_version\":\"x\"}")).is_none());
}

#[test]
fn fresh_record_needs_no_fetch() {
    let now: i64 = 1718454896;
    let m = CacheMetadata { last_fetched: now - 23 * 3600, data_version: b("r1") };
    let bytes = format_metadata(&m);
    assert!(!needs_fetch(Some(&bytes), true, now));
}

#[test]
fn stale_record_forces_a_fetch() {
    let now: i64 = 1718454896;
    let m = CacheMetadata { last_fetched: now - 25 * 3600, data_version: b("r1") };
    let bytes = format_metadata(&m);
    assert!(needs_fetch(Some(&bytes), true, now));
}

#[test]
fn missing_or_unreadable_metadata_forces_a_fetch() {
    let now: i64 = 1718454896;
    assert!(needs_fetch(None, true, now));
    assert!(needs_fetch(Some(&b("not json")), true, now));
}

#[test]
fn missing_data_file_forces_a_fetch_even_when_fresh() {
    let now: i64 = 1718454896;
    let m = CacheMetadata { last_fetched: now - 3600, data_version: b("r1") };
    let bytes = format_metadata(&m);
    assert!(needs_fetch(Some(&bytes), false, now));
}

#[test]
fn fetch_writes_body_verbatim_and_a_fresh_record() {
    let now: i64 = 1718454896;
    let body = b("{\"data\":[]}");
    let w = fetch_outputs(&body, &b("newrev"), now);
    assert_eq!(w.data_file, body);
    let m = parse_metadata(&w.metadata_file).unwrap();
    assert_eq!(m.last_fetched, now);
    assert_eq!(m.data_version, b("newrev"));
}

#[test]
fn disclaimer_is_shown_once() {
    let mut state = DisclaimerState { sentinel_present: false };
    assert!(state.should_show_disclaimer());
    state.mark_disclaimer_shown();
    assert!(!state.should_show_disclaimer());
    state.mark_disclaimer_shown();
    assert!(!state.should_show_disclaimer());
}

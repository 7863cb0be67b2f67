use log_engine::{TimestampExtractor, TIMESTAMP_PATTERN};

fn extract(line: &str) -> Option<String> {
    TimestampExtractor::new().extract(line)
}

#[test]
fn date_and_time() {
    assert_eq!(extract("2024-01-02 03:04:05 ERROR boom").as_deref(), Some("2024-01-02 03:04:05"));
    assert_eq!(extract("x 2024-01-02T03:04:05 y").as_deref(), Some("2024-01-02T03:04:05"));
    assert_eq!(extract("2024-01-02 03:04:05.678 z").as_deref(), Some("2024-01-02 03:04:05.678"));
    assert_eq!(extract("2024-01-02 03:04:05,6 z").as_deref(), Some("2024-01-02 03:04:05,6"));
}

#[test]
fn month_first_date_and_time() {
    assert_eq!(extract("at 01/02/2024-03:04:05.678 up").as_deref(), Some("01/02/2024-03:04:05.678"));
}

#[test]
fn month_first_date_needs_a_fraction() {
    assert_eq!(extract("at 01/02/2024-03:04:05 up").as_deref(), Some("03:04:05"));
}

#[test]
fn twelve_hour_time() {
    assert_eq!(extract("call 3:04:05.678 PM ok").as_deref(), Some("3:04:05.678 PM"));
    assert_eq!(extract("call 11:04:05.6  AM ok").as_deref(), Some("11:04:05.6  AM"));
}

#[test]
fn plain_time() {
    assert_eq!(extract("up 03:04:05 ok").as_deref(), Some("03:04:05"));
    assert_eq!(extract("up 03:04:05.25 ok").as_deref(), Some("03:04:05.25"));
    assert_eq!(extract("up 03:04:05,25 ok").as_deref(), Some("03:04:05,25"));
}

#[test]
fn plain_time_stands_between_word_boundaries() {
    assert_eq!(extract("x03:04:05"), None);
    assert_eq!(extract("03:04:05x"), None);
    assert_eq!(extract("3:04:05"), None);
}

#[test]
fn first_timestamp_from_the_left() {
    assert_eq!(extract("10:00:00 then 2024-01-02 03:04:05").as_deref(), Some("10:00:00"));
    assert_eq!(extract("2024-01-02 03:04:05 then 10:00:00").as_deref(), Some("2024-01-02 03:04:05"));
}

#[test]
fn no_timestamp() {
    assert_eq!(extract(""), None);
    assert_eq!(extract("nothing to see\n"), None);
    assert_eq!(extract("2024-01-02"), None);
}

#[test]
fn timestamp_pattern_is_one_capture_group() {
    assert!(TIMESTAMP_PATTERN.starts_with('('));
    assert!(TIMESTAMP_PATTERN.ends_with(')'));
    assert_eq!(TIMESTAMP_PATTERN.matches('|').count(), 4);
}

use training_engine::datetime::{compact_timestamp, iso_from_unix, iso_now, split_elapsed, unix_to_datetime};

#[test]
fn unix_epoch_is_first_of_january_1970() {
    assert_eq!(unix_to_datetime(0), (1970, 1, 1, 0, 0, 0));
}

#[test]
fn unix_last_second_of_first_day() {
    assert_eq!(unix_to_datetime(86399), (1970, 1, 1, 23, 59, 59));
}

#[test]
fn unix_timestamp_in_2024() {
    assert_eq!(unix_to_datetime(1725029869), (2024, 8, 30, 14, 57, 49));
}

#[test]
fn unix_leap_days() {
    assert_eq!(unix_to_datetime(951782400), (2000, 2, 29, 0, 0, 0));
    assert_eq!(unix_to_datetime(1709164800), (2024, 2, 29, 0, 0, 0));
}

#[test]
fn unix_end_of_century() {
    assert_eq!(unix_to_datetime(4102444799), (2099, 12, 31, 23, 59, 59));
}

#[test]
fn iso_text_of_timestamp() {
    assert_eq!(iso_from_unix(1725029869), "2024-08-30T14:57:49Z");
    assert_eq!(iso_from_unix(0), "1970-01-01T00:00:00Z");
}

#[test]
fn iso_now_has_iso_shape() {
    let now = iso_now();
    let b = now.as_bytes();
    assert_eq!(b.len(), 20);
    assert_eq!(b[4], b'-');
    assert_eq!(b[7], b'-');
    assert_eq!(b[10], b'T');
    assert_eq!(b[13], b':');
    assert_eq!(b[16], b':');
    assert_eq!(b[19], b'Z');
    assert!(now.as_str() >= "2020");
}

#[test]
fn compact_timestamp_strips_separators() {
    assert_eq!(compact_timestamp("2024-08-30T14:57:49Z"), "20240830T145749");
}

#[test]
fn compact_timestamp_of_short_text() {
    assert_eq!(compact_timestamp("1-2:3"), "123");
}

#[test]
fn split_elapsed_hours_minutes_seconds() {
    assert_eq!(split_elapsed(3725), (1, 2, 5));
    assert_eq!(split_elapsed(59), (0, 0, 59));
    assert_eq!(split_elapsed(86400), (24, 0, 0));
}

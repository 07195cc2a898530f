use gsio_node::digest::sha256_hex;
use gsio_node::encoding::{push_decimal_i64, push_lower_hex};
use gsio_node::time::{Timestamp, MAX_SECS, MIN_SECS};

#[test]
fn sha256_of_known_inputs() {
    assert_eq!(sha256_hex("abc"), "ba7816bf8f01cfea414140de5dae2223b00361a396177a9cb410ff61f20015ad");
    assert_eq!(sha256_hex(""), "e3b0c44298fc1c149afbf4c8996fb92427ae41e4649b934ca495991b7852b855");
}

#[test]
fn hex_and_decimal_text() {
    let mut s = String::from("x");
    push_lower_hex(&mut s, &[0x00, 0x0f, 0xa5, 0xff]);
    assert_eq!(s, "x000fa5ff");
    let mut d = String::new();
    push_decimal_i64(&mut d, -1234509);
    assert_eq!(d, "-1234509");
    let mut z = String::new();
    push_decimal_i64(&mut z, 0);
    assert_eq!(z, "0");
}

#[test]
fn timestamps_format_and_order() {
    let epoch = Timestamp::from_parts(0, 0).unwrap();
    assert_eq!(epoch.to_rfc3339(), "1970-01-01T00:00:00+00:00");
    let t = Timestamp::from_parts(1_431_648_000, 123_000_000).unwrap();
    assert_eq!(t.to_rfc3339(), "2015-05-15T00:00:00.123+00:00");
    assert_eq!(t.timestamp_millis(), 1_431_648_000_123);
    assert!(epoch.is_before(&t));
    assert!(!t.is_before(&epoch));
    assert!(!t.is_before(&t));
    assert!(Timestamp::now().secs() > 1_600_000_000);
}

#[test]
fn timestamps_outside_chrono_range_are_refused() {
    assert!(Timestamp::from_parts(MAX_SECS, 999_999_999).is_some());
    assert!(Timestamp::from_parts(MIN_SECS, 0).is_some());
    assert!(Timestamp::from_parts(MAX_SECS + 1, 0).is_none());
    assert!(Timestamp::from_parts(MIN_SECS - 1, 0).is_none());
    assert!(Timestamp::from_parts(0, 1_000_000_000).is_none());
    let last = Timestamp::from_parts(MAX_SECS, 0).unwrap();
    assert!(last.to_rfc3339().starts_with("+262142-12-31T23:59:59"));
}

#[test]
fn clock_readings_convert_on_both_sides_of_the_epoch() {
    let after = Timestamp::from_epoch_distance(false, 5, 250);
    assert_eq!((after.secs(), after.subsec_nanos()), (5, 250));
    let before = Timestamp::from_epoch_distance(true, 5, 0);
    assert_eq!((before.secs(), before.subsec_nanos()), (-5, 0));
    let before = Timestamp::from_epoch_distance(true, 5, 250_000_000);
    assert_eq!((before.secs(), before.subsec_nanos()), (-6, 750_000_000));
    assert_eq!(before.timestamp_millis(), -5250);
}

#[test]
fn clock_readings_outside_chrono_range_are_clamped() {
    let late = Timestamp::from_epoch_distance(false, u64::MAX, 7);
    assert_eq!((late.secs(), late.subsec_nanos()), (MAX_SECS, 999_999_999));
    let early = Timestamp::from_epoch_distance(true, u64::MAX, 7);
    assert_eq!((early.secs(), early.subsec_nanos()), (MIN_SECS, 0));
    let edge = Timestamp::from_epoch_distance(true, (-MIN_SECS) as u64, 0);
    assert_eq!(edge.secs(), MIN_SECS);
}

use ofplayer::clock::{
    millis_to_u64, nonnegative_i64_to_u64, now_ms_from, saturating_u64_to_i64, unix_timestamp_from,
};

#[test]
fn millisecond_readings_saturate_and_default_to_zero_before_the_epoch() {
    assert_eq!(now_ms_from(Some(1_700_000_000_123)), 1_700_000_000_123);
    assert_eq!(now_ms_from(Some(u128::from(u64::MAX) + 5)), u64::MAX);
    assert_eq!(now_ms_from(None), 0);
    assert_eq!(millis_to_u64(42), 42);
}

#[test]
fn second_readings_become_timestamps() {
    assert_eq!(unix_timestamp_from(Some(1_700_000_000)), 1_700_000_000);
    assert_eq!(unix_timestamp_from(Some(u64::MAX)), -1);
    assert_eq!(unix_timestamp_from(None), 0);
}

#[test]
fn signed_conversions_clamp() {
    assert_eq!(saturating_u64_to_i64(u64::MAX), i64::MAX);
    assert_eq!(saturating_u64_to_i64(7), 7);
    assert_eq!(nonnegative_i64_to_u64(-3), 0);
    assert_eq!(nonnegative_i64_to_u64(9), 9);
}

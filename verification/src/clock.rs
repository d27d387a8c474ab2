//! Time, identifiers and elapsed-time measurement, which come from the
//! machine and from the outside crates `chrono` and `uuid`.
use vstd::prelude::*;

verus! {

#[verifier::external_type_specification]
#[verifier::external_body]
pub struct ExInstant(std::time::Instant);

/// `std::time::Instant::now()`. Nothing is stated of the instant.
#[verifier::external_body]
pub fn instant_now() -> std::time::Instant {
    std::time::Instant::now()
}

/// Milliseconds since `start` (`Instant::elapsed().as_millis()`). Nothing is
/// stated of the value: it depends on the clock.
#[verifier::external_body]
fn elapsed_millis(start: &std::time::Instant) -> u128 {
    start.elapsed().as_millis()
}

/// Milliseconds since the Unix epoch (`SystemTime::now().duration_since(UNIX_EPOCH)`
/// in milliseconds), `None` when the clock is before the epoch. Nothing is
/// stated of the value: it depends on the clock.
#[verifier::external_body]
fn unix_millis_now() -> Option<u128> {
    std::time::SystemTime::now()
        .duration_since(std::time::UNIX_EPOCH)
        .ok()
        .map(|duration| duration.as_millis())
}

/// Whole seconds since the Unix epoch (`SystemTime::now().duration_since(UNIX_EPOCH)`
/// in seconds), `None` when the clock is before the epoch. Nothing is stated of
/// the value: it depends on the clock.
#[verifier::external_body]
fn unix_seconds_now() -> Option<u64> {
    std::time::SystemTime::now()
        .duration_since(std::time::UNIX_EPOCH)
        .ok()
        .map(|duration| duration.as_secs())
}

/// The current time as an RFC 3339 string in UTC (`chrono::Utc::now().to_rfc3339()`).
/// Nothing is stated of the text: it depends on the clock.
#[verifier::external_body]
pub fn current_iso_timestamp() -> String {
    chrono::Utc::now().to_rfc3339()
}

/// A random version 4 UUID in its hyphenated lower-case form
/// (`uuid::Uuid::new_v4().to_string()`). Nothing is stated of the text: it is
/// random.
#[verifier::external_body]
pub fn new_uuid_v4() -> String {
    uuid::Uuid::new_v4().to_string()
}

/// `value` clamped to the `u64` range.
pub open spec fn clamp_u64(value: nat) -> u64 {
    if value <= u64::MAX as nat {
        value as u64
    } else {
        u64::MAX
    }
}

/// A millisecond count as `u64`, `u64::MAX` when it does not fit.
pub fn millis_to_u64(value: u128) -> (r: u64)
    ensures
        r == clamp_u64(value as nat),
{
    if value <= u64::MAX as u128 {
        value as u64
    } else {
        u64::MAX
    }
}

/// Milliseconds since `start`, saturated at `u64::MAX`.
pub fn elapsed_ms(start: &std::time::Instant) -> u64 {
    millis_to_u64(elapsed_millis(start))
}

/// The millisecond reading of the wall clock as the library keeps it: the
/// reading saturated at `u64::MAX`, zero when the clock stood before the epoch
/// (`None`).
pub fn now_ms_from(reading: Option<u128>) -> (r: u64)
    ensures
        r == match reading {
            Some(millis) => clamp_u64(millis as nat),
            None => 0u64,
        },
{
    match reading {
        Some(millis) => millis_to_u64(millis),
        None => 0,
    }
}

/// Milliseconds since the Unix epoch, saturated at `u64::MAX`; zero when the
/// clock is before the epoch.
pub fn now_ms() -> u64 {
    now_ms_from(unix_millis_now())
}

/// The second reading of the wall clock as a Unix timestamp: the reading taken
/// `as i64` (wrapping above `i64::MAX`), zero when the clock stood before the
/// epoch (`None`).
pub fn unix_timestamp_from(reading: Option<u64>) -> (r: i64)
    ensures
        r == match reading {
            Some(seconds) => seconds as i64,
            None => 0i64,
        },
{
    match reading {
        Some(seconds) => seconds as i64,
        None => 0,
    }
}

/// Seconds since the Unix epoch as `i64` (wrapping like `as i64` for values
/// above `i64::MAX`); zero when the clock is before the epoch.
pub fn current_unix_timestamp() -> i64 {
    unix_timestamp_from(unix_seconds_now())
}

/// `value` as `i64`, `i64::MAX` when it does not fit.
pub fn saturating_u64_to_i64(value: u64) -> (r: i64)
    ensures
        r == if value <= i64::MAX as u64 { value as i64 } else { i64::MAX },
{
    if value <= i64::MAX as u64 {
        value as i64
    } else {
        i64::MAX
    }
}

/// `value` as `u64`, zero when it is negative.
pub fn nonnegative_i64_to_u64(value: i64) -> (r: u64)
    ensures
        r == if value >= 0 { value as u64 } else { 0 },
{
    if value >= 0 {
        value as u64
    } else {
        0
    }
}

} // verus!

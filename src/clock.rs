use crate::units::digit_char;
use vstd::prelude::*;

verus! {

/// Seconds in a day.
pub const SECONDS_PER_DAY: i64 = 86_400;

/// Timestamps within this many seconds of the epoch, either way, are in range
/// for the calendar (over a hundred thousand years).
pub const CALENDAR_LIMIT: i64 = 4_000_000_000_000;

/// `n` (below 100) as two digits, zero-padded.
pub open spec fn two_digits(n: nat) -> Seq<char> {
    seq![digit_char(n / 10), digit_char(n % 10)]
}

/// A time of day, in seconds since midnight, written `HH:MM:SS`.
pub open spec fn clock_text(secs_of_day: nat) -> Seq<char> {
    two_digits(secs_of_day / 3600) + seq![':'] + two_digits((secs_of_day % 3600) / 60) + seq![':']
        + two_digits(secs_of_day % 60)
}

/// Relies on chrono's `DateTime::from_timestamp`, which is `None` only for
/// seconds outside its calendar (years beyond about ±262,000) and otherwise
/// keeps `secs.rem_euclid(86_400)` as the UTC time of day, and on
/// `format("%H:%M:%S")`, which writes hours, minutes and seconds of that time
/// as two zero-padded digits each, separated by colons.
#[verifier::external_body]
fn utc_clock(secs: i64) -> (r: Option<String>)
    ensures
        -CALENDAR_LIMIT < secs < CALENDAR_LIMIT ==> r is Some,
        r is Some ==> r->0@ == clock_text((secs % SECONDS_PER_DAY) as nat),
{
    match chrono::DateTime::from_timestamp(secs, 0) {
        Some(t) => Some(t.format("%H:%M:%S").to_string()),
        None => None,
    }
}

/// The UTC time of day of a timestamp in seconds since the epoch, as
/// `HH:MM:SS`. The timestamp is read as a signed count of seconds, so values
/// from 2^63 up lie before the epoch; one beyond the calendar shows as midnight.
pub fn format_time(timestamp: u64) -> (r: String)
    ensures
        timestamp < CALENDAR_LIMIT ==> r@ == clock_text((timestamp % 86_400) as nat),
        -CALENDAR_LIMIT < (timestamp as i64) < CALENDAR_LIMIT ==> r@ == clock_text(
            ((timestamp as i64) % SECONDS_PER_DAY) as nat,
        ),
        r@ == clock_text(((timestamp as i64) % SECONDS_PER_DAY) as nat) || r@ == clock_text(0),
{
    match utc_clock(timestamp as i64) {
        Some(t) => t,
        None => match utc_clock(0) {
            Some(t) => t,
            None => {
                proof {
                    assert(false);
                }
                String::new()
            },
        },
    }
}

} // verus!

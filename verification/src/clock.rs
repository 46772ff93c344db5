//! Dates from the local clock, through `chrono`.

use vstd::prelude::*;
use chrono::{DateTime, Local};
use std::time::{Duration, SystemTime, SystemTimeError, UNIX_EPOCH};

verus! {

#[verifier::external_type_specification]
#[verifier::external_body]
pub struct ExSystemTime(SystemTime);

#[verifier::external_type_specification]
#[verifier::external_body]
pub struct ExSystemTimeError(SystemTimeError);

pub open spec fn is_digit(c: char) -> bool {
    '0' <= c <= '9'
}

pub open spec fn all_digits(s: Seq<char>) -> bool {
    forall|i: int| 0 <= i < s.len() ==> is_digit(#[trigger] s[i])
}

/// How `%Y` renders a year: at least four digits, with a sign in front
/// when the year lies outside 0 to 9999.
pub open spec fn is_year_text(y: Seq<char>) -> bool {
    ||| y.len() >= 4 && all_digits(y)
    ||| y.len() >= 5 && (y[0] == '+' || y[0] == '-') && all_digits(y.drop_first())
}

/// The shape of a date rendered with `%Y%m%d`.
pub open spec fn is_day_stamp(s: Seq<char>) -> bool {
    &&& s.len() >= 8
    &&& is_year_text(s.subrange(0, s.len() - 4))
    &&& all_digits(s.subrange(s.len() - 4, s.len() as int))
}

/// The shape of a moment rendered with `%Y-%m-%d %H:%M`.
pub open spec fn is_minute_stamp(s: Seq<char>) -> bool {
    let n = s.len() as int;
    &&& n >= 16
    &&& is_year_text(s.subrange(0, n - 12))
    &&& s[n - 12] == '-' && is_digit(s[n - 11]) && is_digit(s[n - 10])
    &&& s[n - 9] == '-' && is_digit(s[n - 8]) && is_digit(s[n - 7])
    &&& s[n - 6] == ' ' && is_digit(s[n - 5]) && is_digit(s[n - 4])
    &&& s[n - 3] == ':' && is_digit(s[n - 2]) && is_digit(s[n - 1])
}

/// The days that `chrono`'s dates cover, counted as `NaiveDate` counts
/// them from the common era (1 January of year 1 is day 1): from 1 January
/// of year -262143 to 31 December of year 262142.
pub open spec fn first_chrono_day() -> int { -95_746_129 }

pub open spec fn last_chrono_day() -> int { 95_745_399 }

/// The day of the common era that 1 January 1970 is.
pub open spec fn unix_epoch_day() -> int { 719_163 }

/// Whether a Unix time stamp (seconds, and nanoseconds within the second)
/// is one that `chrono::DateTime::from_timestamp` accepts: its day lies in
/// the range of dates `chrono` handles, and the nanoseconds stay below one
/// second, or below two in the last second of a minute (a leap second).
pub open spec fn chrono_accepts_timestamp(secs: i64, nanos: u32) -> bool {
    let day = secs / 86_400 + unix_epoch_day();
    &&& first_chrono_day() <= day <= last_chrono_day()
    &&& (nanos < 1_000_000_000 || (nanos < 2_000_000_000 && (secs % 86_400) % 60 == 59))
}

/// `std::time::SystemTime::now`: the current time of the system clock.
/// Nothing is stated of it: it is read from the clock.
#[verifier::external_body]
fn system_time_now() -> SystemTime {
    SystemTime::now()
}

/// `SystemTime::duration_since(UNIX_EPOCH)`: how long after the start of
/// 1970 the time `t` lies, or an error when it lies before. Not stated:
/// which of the two comes back, or the duration (the time is opaque here).
#[verifier::external_body]
fn duration_since_epoch(t: &SystemTime) -> Result<Duration, SystemTimeError> {
    t.duration_since(UNIX_EPOCH)
}

/// `Duration::as_secs`: the whole seconds of `d`. Not stated: their number
/// (the duration is opaque here).
#[verifier::external_body]
fn whole_seconds(d: &Duration) -> u64 {
    d.as_secs()
}

/// `Duration::subsec_nanos`: the fractional part of `d` in nanoseconds,
/// which its documentation says is always below one billion. Not stated:
/// its value (the duration is opaque here).
#[verifier::external_body]
fn subsecond_nanos(d: &Duration) -> (n: u32)
    ensures
        n < 1_000_000_000,
{
    d.subsec_nanos()
}

/// The current moment as a Unix time stamp (seconds and nanoseconds since
/// the start of 1970), read from the system clock; nothing when the clock
/// is set before 1970 or beyond what an `i64` counts in seconds.
pub fn now_timestamp() -> (stamp: Option<(i64, u32)>)
    ensures
        stamp matches Some((secs, nanos)) ==> 0 <= secs && nanos < 1_000_000_000,
{
    let t = system_time_now();
    match duration_since_epoch(&t) {
        Ok(d) => {
            let secs = whole_seconds(&d);
            let nanos = subsecond_nanos(&d);
            if secs <= 0x7fff_ffff_ffff_ffff {
                Some((secs as i64, nanos))
            } else {
                None
            }
        },
        Err(_) => None,
    }
}

/// The message when the system clock gives no date that can be named.
pub open spec fn clock_error_text() -> Seq<char> {
    "The system clock is set outside the range of dates that can be named"@
}

/// Today's local date as `YYYYMMDD`, from a clock reading: a date exactly
/// when there is a reading and `chrono` accepts it, otherwise the clock
/// error. Not stated: which date it is, which depends on the machine's time
/// zone.
pub fn day_stamp(reading: Option<(i64, u32)>) -> (r: Result<String, String>)
    ensures
        r is Ok <==> (reading matches Some((secs, nanos)) && chrono_accepts_timestamp(secs, nanos)),
        r matches Ok(d) ==> is_day_stamp(d@),
        r matches Err(m) ==> m@ == clock_error_text(),
{
    let date = match reading {
        Some((secs, nanos)) => format_local_timestamp(secs, nanos, "%Y%m%d"),
        None => None,
    };
    match date {
        Some(d) => Ok(d),
        None => Err("The system clock is set outside the range of dates that can be named".to_owned()),
    }
}

/// Renders a Unix time stamp in the local time zone with one of the two
/// patterns the tool uses (`DateTime::from_timestamp`, converted to the
/// local zone, then `DateTime::format`). Stated: a rendering comes back
/// exactly when `from_timestamp` accepts the stamp, and it has the shape
/// the pattern describes (the year as `%Y` writes it, every other field as
/// two digits). Not stated: which date and time it shows, which depends on
/// the time zone of the machine.
#[verifier::external_body]
pub fn format_local_timestamp(secs: i64, nanos: u32, pattern: &str) -> (text: Option<String>)
    requires
        pattern@ == "%Y%m%d"@ || pattern@ == "%Y-%m-%d %H:%M"@,
    ensures
        text is Some <==> chrono_accepts_timestamp(secs, nanos),
        pattern@ == "%Y%m%d"@ ==> (text matches Some(s) ==> is_day_stamp(s@)),
        pattern@ == "%Y-%m-%d %H:%M"@ ==> (text matches Some(s) ==> is_minute_stamp(s@)),
{
    DateTime::from_timestamp(secs, nanos).map(
        |utc| utc.with_timezone(&Local).format(pattern).to_string(),
    )
}

} // verus!

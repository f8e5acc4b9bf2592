//! Times in words. A time is in nanoseconds since the start of 1970.

use vstd::prelude::*;

use crate::text;

verus! {

/// The nanoseconds in a second.
pub const SECOND: i128 = 1_000_000_000;

/// The seconds in a day.
pub const DAY_SECONDS: i64 = 86_400;

/// A number of seconds since the start of 1970 as a date and time of day in UTC, written
/// by a pattern, or `None` where no date is that far off.
pub uninterp spec fn time_text(seconds: int, pattern: Seq<char>) -> Option<Seq<char>>;

/// Calls `from_timestamp` and `format` of `chrono::DateTime`. Left unsaid are the
/// calendar and how far off a date may be.
#[verifier::external_body]
pub(crate) fn show_seconds(seconds: i64, pattern: &str) -> (r: Option<String>)
    requires
        pattern@ == "%Y-%m-%d %H:%M"@ || pattern@ == "%m-%d-%Y"@,
    ensures
        text::text_view(r) == time_text(seconds as int, pattern@),
{
    chrono::DateTime::from_timestamp(seconds, 0).map(|t| t.format(pattern).to_string())
}

/// The whole seconds of a time.
pub open spec fn seconds_of(at: int) -> int {
    at / SECOND as int
}

/// The whole seconds of a time, where they can be held.
pub fn find_seconds(at: i128) -> (r: Option<i64>)
    ensures
        match r {
            Some(s) => s == seconds_of(at as int),
            None => seconds_of(at as int) < i64::MIN || seconds_of(at as int) > i64::MAX,
        },
{
    let s: i128 = if at >= 0 {
        at / SECOND
    } else {
        let below: i128 = -(at + 1);
        assert(-(below / SECOND) - 1 == at as int / SECOND as int) by (nonlinear_arith)
            requires
                at < 0,
                below == -(at + 1),
                SECOND == 1_000_000_000,
        ;
        -(below / SECOND) - 1
    };
    if -9_223_372_036_854_775_808 <= s && s <= 9_223_372_036_854_775_807 {
        Some(s as i64)
    } else {
        None
    }
}

/// A time as a date and time of day, to the minute.
pub open spec fn minute_text(at: int) -> Option<Seq<char>> {
    let s = seconds_of(at);
    if i64::MIN <= s <= i64::MAX {
        time_text(s, "%Y-%m-%d %H:%M"@)
    } else {
        None
    }
}

/// A time as a date and time of day, to the minute, or `None` where no date is that far
/// off.
pub fn show_minute(at: i128) -> (r: Option<String>)
    ensures
        text::text_view(r) == minute_text(at as int),
{
    match find_seconds(at) {
        Some(s) => show_seconds(s, "%Y-%m-%d %H:%M"),
        None => None,
    }
}

/// The date of so many days before a time, with the month first.
pub open spec fn date_text(at: int, days_back: int) -> Option<Seq<char>> {
    let s = seconds_of(at) - days_back * DAY_SECONDS;
    if i64::MIN <= seconds_of(at) <= i64::MAX && i64::MIN <= s {
        time_text(s, "%m-%d-%Y"@)
    } else {
        None
    }
}

/// The date of so many days before a time, with the month first, or `None` where no date
/// is that far off.
pub fn show_date(at: i128, days_back: u32) -> (r: Option<String>)
    ensures
        text::text_view(r) == date_text(at as int, days_back as int),
{
    match find_seconds(at) {
        Some(s) => {
            let gap: i64 = days_back as i64 * DAY_SECONDS;
            match s.checked_sub(gap) {
                Some(then) => show_seconds(then, "%m-%d-%Y"),
                None => None,
            }
        },
        None => None,
    }
}

/// Times are shown to the minute of their second, which is a billion nanoseconds long.
pub proof fn times_are_shown_to_the_minute(at: int)
    requires
        0 <= at < 1_000_000_000_000_000_000_000_000,
    ensures
        minute_text(at) == time_text(at / 1_000_000_000, "%Y-%m-%d %H:%M"@),
{
}

/// A date of so many days back is that of a time so many times 86400 seconds before.
pub proof fn dates_go_back_by_days(at: int, days: int)
    requires
        0 <= at < 1_000_000_000_000_000_000_000_000,
        0 <= days <= 1_000_000,
    ensures
        date_text(at, days) == time_text(at / 1_000_000_000 - 86_400 * days, "%m-%d-%Y"@),
{
    assert(days * 86_400 == 86_400 * days);
}

} // verus!

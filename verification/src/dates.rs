use vstd::prelude::*;
use chrono::Datelike;
use crate::text::append_str;

verus! {

/// The calendar date `(year, month, day)` that chrono reads from a text in the
/// `dd-mm-yyyy` form (`%d-%m-%Y`), `None` when the text is no such date.
pub uninterp spec fn chrono_dmy_date(s: Seq<char>) -> Option<(i32, u32, u32)>;

/// The `dd-mm-yyyy` (`%d-%m-%Y`) spelling that chrono gives of the UTC date of a Unix
/// timestamp, `None` when chrono cannot represent that instant.
pub uninterp spec fn chrono_dmy_text(timestamp: i64) -> Option<Seq<char>>;

/// Reads a `dd-mm-yyyy` date with `chrono::NaiveDate::parse_from_str(s, "%d-%m-%Y")`.
/// Claimed: the result is the date chrono reads (`chrono_dmy_date`), nothing more.
#[verifier::external_body]
fn chrono_parse_dmy(s: &str) -> (r: Option<(i32, u32, u32)>)
    ensures
        r == chrono_dmy_date(s@),
{
    chrono::NaiveDate::parse_from_str(s, "%d-%m-%Y").ok().map(|d| (d.year(), d.month(), d.day()))
}

/// Writes the UTC date of a Unix timestamp as `dd-mm-yyyy` with
/// `chrono::DateTime::from_timestamp(ts, 0)` and `format("%d-%m-%Y")`; `None` when
/// `from_timestamp` cannot represent the instant. Claimed: the text is
/// `chrono_dmy_text(timestamp)`.
#[verifier::external_body]
fn chrono_format_dmy(timestamp: i64) -> (r: Option<String>)
    ensures
        match r {
            Some(s) => chrono_dmy_text(timestamp) == Some(s@),
            None => chrono_dmy_text(timestamp) is None,
        },
{
    match chrono::DateTime::from_timestamp(timestamp, 0) {
        Some(d) => Some(d.format("%d-%m-%Y").to_string()),
        None => None,
    }
}

/// The text of the Unix epoch's date, `01-01-1970`.
pub open spec fn epoch_date_text() -> Seq<char> {
    "01-01-1970"@
}

/// The date shown for a Unix timestamp: chrono's `dd-mm-yyyy` text of its UTC date, or
/// the epoch's date when chrono cannot represent the instant.
pub open spec fn date_text_spec(timestamp: i64) -> Seq<char> {
    match chrono_dmy_text(timestamp) {
        Some(t) => t,
        None => epoch_date_text(),
    }
}

/// The UTC date of a Unix timestamp written `dd-mm-yyyy`, the epoch's date when the
/// instant is out of chrono's range.
pub fn date_text(timestamp: i64) -> (r: String)
    ensures
        r@ == date_text_spec(timestamp),
{
    match chrono_format_dmy(timestamp) {
        Some(s) => s,
        None => {
            let mut out = String::new();
            append_str(&mut out, "01-01-1970");
            assert(out@ =~= epoch_date_text());
            out
        },
    }
}

/// A date the application takes: years 2000 to 2100.
pub open spec fn date_in_range_spec(parsed: Option<(i32, u32, u32)>) -> Option<(i32, u32, u32)> {
    match parsed {
        Some((y, m, d)) => if 2000 <= y && y <= 2100 {
            Some((y, m, d))
        } else {
            None
        },
        None => None,
    }
}

/// Keeps a read date when its year is between 2000 and 2100.
pub fn date_in_range(parsed: Option<(i32, u32, u32)>) -> (r: Option<(i32, u32, u32)>)
    ensures
        r == date_in_range_spec(parsed),
{
    match parsed {
        Some((y, m, d)) => {
            if 2000 <= y && y <= 2100 {
                Some((y, m, d))
            } else {
                None
            }
        },
        None => None,
    }
}

/// Reads a `dd-mm-yyyy` date and keeps it when its year is between 2000 and 2100.
pub fn parse_date(s: &str) -> (r: Option<(i32, u32, u32)>)
    ensures
        r == date_in_range_spec(chrono_dmy_date(s@)),
{
    date_in_range(chrono_parse_dmy(s))
}

/// `a` is a date before `b`: by year, then month, then day.
pub open spec fn date_before(a: (i32, u32, u32), b: (i32, u32, u32)) -> bool {
    a.0 < b.0 || (a.0 == b.0 && (a.1 < b.1 || (a.1 == b.1 && a.2 < b.2)))
}

/// Whether a new stake's dates are acceptable: both read as dates in range and the end
/// is not before the start.
pub open spec fn stake_dates_valid_spec(
    start: Option<(i32, u32, u32)>,
    end: Option<(i32, u32, u32)>,
) -> bool {
    match (date_in_range_spec(start), date_in_range_spec(end)) {
        (Some(s), Some(e)) => !date_before(e, s),
        _ => false,
    }
}

/// Two dates in range are accepted exactly when the end comes no earlier than the start
/// in the calendar: comparing the dates written as the numbers `yyyymmdd`. A start or an
/// end outside 2000 to 2100 is refused.
pub proof fn lemma_stake_dates_calendar_order(s: (i32, u32, u32), e: (i32, u32, u32))
    requires
        s.1 < 100,
        s.2 < 100,
        e.1 < 100,
        e.2 < 100,
    ensures
        (2000 <= s.0 <= 2100 && 2000 <= e.0 <= 2100) ==> (stake_dates_valid_spec(Some(s), Some(e))
            <==> e.0 * 10000 + e.1 * 100 + e.2 >= s.0 * 10000 + s.1 * 100 + s.2),
        !(2000 <= s.0 <= 2100) ==> !stake_dates_valid_spec(Some(s), Some(e)),
        !(2000 <= e.0 <= 2100) ==> !stake_dates_valid_spec(Some(s), Some(e)),
{
}

/// Decides on a new stake's dates from what was read of them.
pub fn stake_dates_valid(start: Option<(i32, u32, u32)>, end: Option<(i32, u32, u32)>) -> (r:
    bool)
    ensures
        r == stake_dates_valid_spec(start, end),
{
    match (date_in_range(start), date_in_range(end)) {
        (Some(s), Some(e)) => !(e.0 < s.0 || (e.0 == s.0 && (e.1 < s.1 || (e.1 == s.1 && e.2
            < s.2)))),
        _ => false,
    }
}

/// Whether the start and end dates entered for a new stake are acceptable: both are
/// `dd-mm-yyyy` dates in 2000 to 2100 and the end is not before the start.
pub fn validate_stake_dates(start: &str, end: &str) -> (r: bool)
    ensures
        r == stake_dates_valid_spec(chrono_dmy_date(start@), chrono_dmy_date(end@)),
{
    stake_dates_valid(chrono_parse_dmy(start), chrono_parse_dmy(end))
}

/// The Unix timestamp of HEX day zero (3 December 2019, 00:00 UTC).
pub open spec fn hex_day_zero_timestamp() -> int {
    1575331200
}

/// The start and end dates of a stake locked on `locked_day` for `staked_days` days, as
/// the UTC dates of those HEX days written `dd-mm-yyyy`.
pub fn stake_dates(locked_day: u64, staked_days: u64) -> (r: (String, String))
    requires
        hex_day_zero_timestamp() + (locked_day + staked_days) * 86400 <= i64::MAX,
    ensures
        r.0@ == date_text_spec((hex_day_zero_timestamp() + locked_day * 86400) as i64),
        r.1@ == date_text_spec(
            (hex_day_zero_timestamp() + (locked_day + staked_days) * 86400) as i64,
        ),
{
    let day_zero: i64 = 1575331200;
    let start_ts = day_zero + (locked_day as i64) * 86400;
    let end_ts = day_zero + ((locked_day + staked_days) as i64) * 86400;
    (date_text(start_ts), date_text(end_ts))
}

/// Nanoseconds in one second.
pub open spec fn nanos_per_second() -> int {
    1_000_000_000
}

/// Nanoseconds from the instant `secs.nanos` (Unix time, UTC) to the next 01:00:00 UTC
/// strictly after it.
pub open spec fn wait_until_1am_ns(secs: i64, nanos: u32) -> int {
    let now = (secs % 86400) * nanos_per_second() + nanos;
    let one_am = 3600 * nanos_per_second();
    if now < one_am {
        one_am - now
    } else {
        86400 * nanos_per_second() + one_am - now
    }
}

/// The wait from the instant `secs.nanos` (Unix time, UTC) to the next 01:00:00 UTC after
/// it, as whole seconds and nanoseconds.
pub fn until_next_1am(secs: i64, nanos: u32) -> (r: (u64, u32))
    requires
        nanos < 1_000_000_000,
    ensures
        r.1 < 1_000_000_000,
        r.0 * nanos_per_second() + r.1 == wait_until_1am_ns(secs, nanos),
{
    let day_secs: u64 = if secs >= 0 {
        (secs as u64) % 86400
    } else {
        let m: u64 = ((-(secs + 1)) as u64) % 86400;
        86399 - m
    };
    assert(day_secs == secs % 86400) by {
        if secs < 0 {
            let k = -(secs + 1);
            vstd::arithmetic::div_mod::lemma_fundamental_div_mod(k as int, 86400);
            vstd::arithmetic::div_mod::lemma_fundamental_div_mod_converse(
                secs as int,
                86400,
                -(k / 86400) - 1,
                86399 - k % 86400,
            );
        }
    }
    let now: u64 = day_secs * 1_000_000_000 + nanos as u64;
    let one_am: u64 = 3600 * 1_000_000_000;
    let wait: u64 = if now < one_am {
        one_am - now
    } else {
        86400 * 1_000_000_000 + one_am - now
    };
    (wait / 1_000_000_000, (wait % 1_000_000_000) as u32)
}

/// The wait is positive, at most a day, and ends on 01:00:00 UTC.
pub proof fn lemma_wait_until_1am(secs: i64, nanos: u32)
    requires
        nanos < 1_000_000_000,
    ensures
        0 < wait_until_1am_ns(secs, nanos) <= 86400 * nanos_per_second(),
        (secs * nanos_per_second() + nanos + wait_until_1am_ns(secs, nanos)) % (86400
            * nanos_per_second()) == 3600 * nanos_per_second(),
{
    let d = 86400 * nanos_per_second();
    let q: int = secs as int / 86400;
    let r: int = secs as int % 86400;
    assert(secs * nanos_per_second() == q * d + r * nanos_per_second()) by (nonlinear_arith)
        requires
            secs == q * 86400 + r,
            d == 86400 * nanos_per_second(),
            nanos_per_second() == 1_000_000_000,
    ;
    let w = wait_until_1am_ns(secs, nanos);
    if r * nanos_per_second() + nanos < 3600 * nanos_per_second() {
        assert(secs * nanos_per_second() + nanos + w == q * d + 3600 * nanos_per_second());
    } else {
        assert(secs * nanos_per_second() + nanos + w == (q + 1) * d + 3600 * nanos_per_second())
            by (nonlinear_arith)
            requires
                secs * nanos_per_second() == q * d + r * nanos_per_second(),
                w == d + 3600 * nanos_per_second() - (r * nanos_per_second() + nanos),
        ;
    }
    vstd::arithmetic::div_mod::lemma_fundamental_div_mod_converse(
        secs * nanos_per_second() + nanos + w,
        d,
        if r * nanos_per_second() + nanos < 3600 * nanos_per_second() {
            q
        } else {
            q + 1
        },
        3600 * nanos_per_second(),
    );
}

} // verus!

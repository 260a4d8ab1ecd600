//! The proleptic Gregorian calendar, Unix time, and the calendar functions
//! of `chrono` that the interval logic uses.
use vstd::prelude::*;
use vstd::arithmetic::div_mod::{lemma_fundamental_div_mod, lemma_fundamental_div_mod_converse};
use chrono::{Datelike, Timelike};
use crate::text::spec_zero_padded;
use crate::time::spec_datetime_text;

verus! {

/// Earliest year of `chrono`'s dates.
pub const MIN_YEAR: i32 = -262143;

/// Latest year of `chrono`'s dates.
pub const MAX_YEAR: i32 = 262142;

/// A calendar date and a time of day, as plain numbers.
#[derive(Clone, Copy, Debug, PartialEq, Eq, Structural)]
pub struct CivilDateTime {
    pub year: i32,
    pub month: u32,
    pub day: u32,
    pub hour: u32,
    pub minute: u32,
    pub second: u32,
    /// Nanoseconds; from 10^9 on, a leap second (only at second 59).
    pub nano: u32,
}

/// A calendar date, as plain numbers.
#[derive(Clone, Copy, Debug, PartialEq, Eq, Structural)]
pub struct CivilDate {
    pub year: i32,
    pub month: u32,
    pub day: u32,
}

pub open spec fn is_leap_year(y: int) -> bool {
    y % 4 == 0 && (y % 100 != 0 || y % 400 == 0)
}

/// Days in a month; 30 for a month number outside 1..=12.
pub open spec fn spec_days_in_month(y: int, m: int) -> int {
    if m == 1 || m == 3 || m == 5 || m == 7 || m == 8 || m == 10 || m == 12 {
        31
    } else if m == 4 || m == 6 || m == 9 || m == 11 {
        30
    } else if m == 2 {
        if is_leap_year(y) {
            29
        } else {
            28
        }
    } else {
        30
    }
}

/// Days of the months before month `m` in year `y`.
pub open spec fn days_before_month(y: int, m: int) -> int
    decreases m,
{
    if m <= 1 {
        0
    } else {
        days_before_month(y, m - 1) + spec_days_in_month(y, m - 1)
    }
}

/// The number of leap years from year 1 through year `y` (counted with floor
/// division, so that differences are right for every `y`).
pub open spec fn leaps_through(y: int) -> int {
    y / 4 - y / 100 + y / 400
}

/// Days from 1970-01-01 to the first day of year `y`.
pub open spec fn days_before_year(y: int) -> int {
    365 * (y - 1970) + leaps_through(y - 1) - leaps_through(1969)
}

/// Days from 1970-01-01 to the given date.
pub open spec fn days_from_civil(y: int, m: int, d: int) -> int {
    days_before_year(y) + days_before_month(y, m) + d - 1
}

pub open spec fn valid_date(y: int, m: int, d: int) -> bool {
    MIN_YEAR <= y <= MAX_YEAR && 1 <= m <= 12 && 1 <= d <= spec_days_in_month(y, m)
}

pub open spec fn valid_time(h: int, mi: int, s: int, nano: int) -> bool {
    0 <= h < 24 && 0 <= mi < 60 && 0 <= s < 60 && 0 <= nano < 2_000_000_000 && (nano
        >= 1_000_000_000 ==> s == 59)
}

impl CivilDateTime {
    /// A real date in `chrono`'s range and a real time of day.
    pub open spec fn valid(self) -> bool {
        valid_date(self.year as int, self.month as int, self.day as int) && valid_time(
            self.hour as int,
            self.minute as int,
            self.second as int,
            self.nano as int,
        )
    }
}

/// Seconds of the time of day.
pub open spec fn seconds_of_day(c: CivilDateTime) -> int {
    c.hour * 3600 + c.minute * 60 + c.second
}

/// The Unix time of a date-time: non-leap seconds since 1970-01-01T00:00:00.
pub open spec fn spec_unix_seconds(c: CivilDateTime) -> int {
    days_from_civil(c.year as int, c.month as int, c.day as int) * 86400 + seconds_of_day(c)
}

/// The Unix timestamp (seconds and nanoseconds) names a date-time in
/// `chrono`'s range.
pub open spec fn timestamp_in_range(secs: int, nanos: int) -> bool {
    &&& days_from_civil(MIN_YEAR as int, 1, 1) <= secs / 86400
    &&& secs / 86400 <= days_from_civil(MAX_YEAR as int, 12, 31)
    &&& nanos < 2_000_000_000
    &&& (nanos >= 1_000_000_000 ==> secs % 60 == 59)
}

/// The date-time at a Unix timestamp, if it is in range.
pub open spec fn spec_civil_from_timestamp(secs: int, nanos: int) -> Option<CivilDateTime> {
    if timestamp_in_range(secs, nanos) {
        Some(
            choose|c: CivilDateTime|
                c.valid() && spec_unix_seconds(c) == secs && c.nano == nanos,
        )
    } else {
        None
    }
}

/// 1970-01-01T00:00:00.
pub open spec fn unix_epoch() -> CivilDateTime {
    CivilDateTime { year: 1970, month: 1, day: 1, hour: 0, minute: 0, second: 0, nano: 0 }
}

// ---------------------------------------------------------------------------
// Facts of the calendar
// ---------------------------------------------------------------------------

proof fn lemma_floor_step(y: int, k: int)
    requires
        k > 0,
    ensures
        y / k - (y - 1) / k == (if y % k == 0 {
            1int
        } else {
            0int
        }),
{
    lemma_fundamental_div_mod(y, k);
    vstd::arithmetic::div_mod::lemma_mod_division_less_than_divisor(y, k);
    let q = y / k;
    let r = y % k;
    assert(y - 1 == (q - 1) * k + (k - 1) || r != 0) by (nonlinear_arith)
        requires
            y == k * q + r,
    ;
    assert(y - 1 == q * k + (r - 1)) by (nonlinear_arith)
        requires
            y == k * q + r,
    ;
    if r == 0 {
        lemma_fundamental_div_mod_converse(y - 1, k, q - 1, k - 1);
    } else {
        lemma_fundamental_div_mod_converse(y - 1, k, q, r - 1);
    }
}

/// Year `y` adds one leap day exactly when it is a leap year.
proof fn lemma_leap_step(y: int)
    ensures
        leaps_through(y) - leaps_through(y - 1) == (if is_leap_year(y) {
            1int
        } else {
            0int
        }),
{
    lemma_floor_step(y, 4);
    lemma_floor_step(y, 100);
    lemma_floor_step(y, 400);
    if y % 100 == 0 {
        lemma_fundamental_div_mod(y, 100);
        lemma_fundamental_div_mod_converse(y, 4, 25 * (y / 100), 0);
    }
    if y % 400 == 0 {
        lemma_fundamental_div_mod(y, 400);
        lemma_fundamental_div_mod_converse(y, 100, 4 * (y / 400), 0);
    }
}

/// A year has 365 days, 366 in a leap year.
pub proof fn lemma_year_length(y: int)
    ensures
        days_before_year(y + 1) - days_before_year(y) == 365 + (if is_leap_year(y) {
            1int
        } else {
            0int
        }),
{
    lemma_leap_step(y);
}

proof fn lemma_days_before_year_mono(y1: int, y2: int)
    requires
        y1 <= y2,
    ensures
        days_before_year(y1) + 365 * (y2 - y1) <= days_before_year(y2),
    decreases y2 - y1,
{
    if y1 < y2 {
        lemma_days_before_year_mono(y1, y2 - 1);
        lemma_year_length(y2 - 1);
    }
}

proof fn lemma_days_before_month_table(y: int)
    ensures
        days_before_month(y, 1) == 0,
        days_before_month(y, 13) == 365 + (if is_leap_year(y) {
            1int
        } else {
            0int
        }),
        forall|m: int|
            1 <= m <= 12 ==> #[trigger] days_before_month(y, m + 1) == days_before_month(y, m)
                + spec_days_in_month(y, m),
{
    reveal_with_fuel(days_before_month, 13);
}

proof fn lemma_days_before_month_mono(y: int, m1: int, m2: int)
    requires
        1 <= m1 <= m2 <= 13,
    ensures
        days_before_month(y, m1) + 28 * (m2 - m1) <= days_before_month(y, m2),
    decreases m2 - m1,
{
    if m1 < m2 {
        lemma_days_before_month_mono(y, m1, m2 - 1);
        lemma_days_before_month_table(y);
        assert(days_before_month(y, m2) == days_before_month(y, m2 - 1) + spec_days_in_month(
            y,
            m2 - 1,
        ));
    }
}

/// The day number of a valid date lies within its year.
proof fn lemma_day_in_year(y: int, m: int, d: int)
    requires
        valid_date(y, m, d),
    ensures
        days_before_year(y) <= days_from_civil(y, m, d) < days_before_year(y + 1),
        days_before_month(y, m) <= days_before_month(y, m) + d - 1 < days_before_month(y, m + 1),
{
    lemma_days_before_month_table(y);
    lemma_days_before_month_mono(y, m + 1, 13);
    lemma_days_before_month_mono(y, 1, m);
    lemma_year_length(y);
}

/// Day numbers count days from 1970-01-01, which is day 0: within a month
/// each day is one more than the one before, and a month has 31 days
/// (January, March, May, July, August, October, December), 30 (April, June,
/// September, November), or 28, in a leap year 29 (February); the first day
/// of the next month, or of the next year after December, follows the last.
pub proof fn lemma_day_numbers(y: int, m: int)
    ensures
        days_from_civil(1970, 1, 1) == 0,
        1 <= m <= 12 ==> {
            let leap = y % 4 == 0 && (y % 100 != 0 || y % 400 == 0);
            let len = if m == 2 {
                if leap {
                    29int
                } else {
                    28int
                }
            } else if m == 4 || m == 6 || m == 9 || m == 11 {
                30int
            } else {
                31int
            };
            &&& spec_days_in_month(y, m) == len
            &&& forall|d: int|
                1 <= d < len ==> #[trigger] days_from_civil(y, m, d + 1) == days_from_civil(y, m, d)
                    + 1
            &&& m < 12 ==> days_from_civil(y, m + 1, 1) == days_from_civil(y, m, len) + 1
            &&& m == 12 ==> days_from_civil(y + 1, 1, 1) == days_from_civil(y, 12, 31) + 1
        },
{
    lemma_days_before_month_table(y);
    lemma_year_length(y);
}

/// The Unix time of a date-time is its day number times 86400 plus the
/// seconds of its time of day.
pub proof fn lemma_unix_seconds_of(c: CivilDateTime)
    ensures
        spec_unix_seconds(c) == days_from_civil(c.year as int, c.month as int, c.day as int) * 86400
            + c.hour * 3600 + c.minute * 60 + c.second,
{
}

/// Distinct valid dates have distinct day numbers.
pub proof fn lemma_days_from_civil_injective(y1: int, m1: int, d1: int, y2: int, m2: int, d2: int)
    requires
        valid_date(y1, m1, d1),
        valid_date(y2, m2, d2),
        days_from_civil(y1, m1, d1) == days_from_civil(y2, m2, d2),
    ensures
        y1 == y2 && m1 == m2 && d1 == d2,
{
    lemma_day_in_year(y1, m1, d1);
    lemma_day_in_year(y2, m2, d2);
    if y1 < y2 {
        lemma_days_before_year_mono(y1 + 1, y2);
    } else if y2 < y1 {
        lemma_days_before_year_mono(y2 + 1, y1);
    } else {
        if m1 < m2 {
            lemma_days_before_month_mono(y1, m1 + 1, m2);
        } else if m2 < m1 {
            lemma_days_before_month_mono(y1, m2 + 1, m1);
        }
    }
}

/// A Unix timestamp with its nanoseconds names at most one valid date-time.
pub proof fn lemma_unix_seconds_injective(c1: CivilDateTime, c2: CivilDateTime)
    requires
        c1.valid(),
        c2.valid(),
        spec_unix_seconds(c1) == spec_unix_seconds(c2),
        c1.nano == c2.nano,
    ensures
        c1 == c2,
{
    let t1 = seconds_of_day(c1);
    let t2 = seconds_of_day(c2);
    let x = spec_unix_seconds(c1);
    let e1 = days_from_civil(c1.year as int, c1.month as int, c1.day as int);
    let e2 = days_from_civil(c2.year as int, c2.month as int, c2.day as int);
    lemma_fundamental_div_mod_converse(x, 86400, e1, t1);
    lemma_fundamental_div_mod_converse(x, 86400, e2, t2);
    lemma_days_from_civil_injective(
        c1.year as int,
        c1.month as int,
        c1.day as int,
        c2.year as int,
        c2.month as int,
        c2.day as int,
    );
    lemma_fundamental_div_mod_converse(t1, 3600, c1.hour as int, c1.minute * 60 + c1.second);
    lemma_fundamental_div_mod_converse(t2, 3600, c2.hour as int, c2.minute * 60 + c2.second);
    lemma_fundamental_div_mod_converse(
        c1.minute * 60 + c1.second,
        60,
        c1.minute as int,
        c1.second as int,
    );
    lemma_fundamental_div_mod_converse(
        c2.minute * 60 + c2.second,
        60,
        c2.minute as int,
        c2.second as int,
    );
}

/// The Unix timestamp (seconds and nanoseconds) names a valid date-time.
pub open spec fn names_datetime(secs: int, nanos: int) -> bool {
    exists|c: CivilDateTime| c.valid() && spec_unix_seconds(c) == secs && c.nano == nanos
}

/// A valid date-time's timestamp is in `chrono`'s range.
proof fn lemma_valid_in_range(c: CivilDateTime)
    requires
        c.valid(),
    ensures
        timestamp_in_range(spec_unix_seconds(c), c.nano as int),
{
    let y = c.year as int;
    let e = days_from_civil(y, c.month as int, c.day as int);
    let secs = spec_unix_seconds(c);
    lemma_day_in_year(y, c.month as int, c.day as int);
    lemma_days_before_year_mono(MIN_YEAR as int, y);
    lemma_days_before_year_mono(y + 1, MAX_YEAR as int + 1);
    lemma_days_before_month_table(MAX_YEAR as int);
    lemma_year_length(MAX_YEAR as int);
    assert(days_from_civil(MAX_YEAR as int, 12, 31) == days_before_year(MAX_YEAR as int + 1) - 1);
    lemma_fundamental_div_mod_converse(secs, 86400, e, seconds_of_day(c));
    lemma_fundamental_div_mod_converse(
        secs,
        60,
        e * 1440 + c.hour * 60 + c.minute,
        c.second as int,
    );
}

/// Where a timestamp names a date-time, `chrono` gives that date-time for it.
pub proof fn lemma_names_datetime(secs: int, nanos: int)
    requires
        names_datetime(secs, nanos),
    ensures
        spec_civil_from_timestamp(secs, nanos) matches Some(c) && c.valid() && spec_unix_seconds(c)
            == secs && c.nano == nanos,
{
    let c = choose|c: CivilDateTime| c.valid() && spec_unix_seconds(c) == secs && c.nano == nanos;
    lemma_valid_in_range(c);
    lemma_civil_from_timestamp_is(secs, nanos, c);
}

/// What `chrono` returns for a timestamp is the date-time that the timestamp names.
proof fn lemma_civil_from_timestamp_is(secs: int, nanos: int, c: CivilDateTime)
    requires
        timestamp_in_range(secs, nanos),
        c.valid(),
        spec_unix_seconds(c) == secs,
        c.nano == nanos,
    ensures
        spec_civil_from_timestamp(secs, nanos) == Some(c),
{
    let d = choose|d: CivilDateTime| d.valid() && spec_unix_seconds(d) == secs && d.nano == nanos;
    lemma_unix_seconds_injective(c, d);
}

// ---------------------------------------------------------------------------
// Executable calendar functions
// ---------------------------------------------------------------------------

/// Days in a month of a year (30 for a month number outside 1..=12).
pub fn days_in_month(year: i32, month: u32) -> (r: u32)
    ensures
        r == spec_days_in_month(year as int, month as int),
{
    match month {
        1 | 3 | 5 | 7 | 8 | 10 | 12 => 31,
        4 | 6 | 9 | 11 => 30,
        2 => {
            let y = year as i64 + 400000;
            proof {
                let a = year as int;
                lemma_fundamental_div_mod(a, 4);
                lemma_fundamental_div_mod(a, 100);
                lemma_fundamental_div_mod(a, 400);
                lemma_fundamental_div_mod_converse(y as int, 4, a / 4 + 100000, a % 4);
                lemma_fundamental_div_mod_converse(y as int, 100, a / 100 + 4000, a % 100);
                lemma_fundamental_div_mod_converse(y as int, 400, a / 400 + 1000, a % 400);
            }
            if y % 4 == 0 && (y % 100 != 0 || y % 400 == 0) {
                29
            } else {
                28
            }
        },
        _ => 30,
    }
}

// ---------------------------------------------------------------------------
// chrono
// ---------------------------------------------------------------------------

/// Calls `chrono::NaiveDateTime::from_timestamp_opt`. Trusted: it returns a
/// date-time exactly when the timestamp is in `chrono`'s range with a
/// nanosecond count below 2*10^9 (from 10^9 on only at second 59), and the
/// date-time it returns is a valid one whose Unix time is `secs`, with
/// `nanos` nanoseconds.
#[verifier::external_body]
#[allow(deprecated)]
fn chrono_from_timestamp(secs: i64, nanos: u32) -> (r: Option<CivilDateTime>)
    ensures
        r is Some <==> timestamp_in_range(secs as int, nanos as int),
        r matches Some(c) ==> c.valid() && spec_unix_seconds(c) == secs && c.nano == nanos,
{
    chrono::NaiveDateTime::from_timestamp_opt(secs, nanos).map(
        |dt: chrono::NaiveDateTime|
            CivilDateTime {
                year: dt.year(),
                month: dt.month(),
                day: dt.day(),
                hour: dt.hour(),
                minute: dt.minute(),
                second: dt.second(),
                nano: dt.nanosecond(),
            },
    )
}

/// Calls `chrono::NaiveDateTime::and_utc().timestamp()` on the date-time
/// with these fields. Trusted: the result is the number of non-leap seconds
/// from 1970-01-01T00:00:00 to the date-time (whole seconds; the nanoseconds
/// do not count), with days counted on the proleptic Gregorian calendar.
#[verifier::external_body]
pub(crate) fn chrono_timestamp(c: &CivilDateTime) -> (r: i64)
    requires
        c.valid(),
    ensures
        r == spec_unix_seconds(*c),
{
    chrono::NaiveDate::from_ymd_opt(c.year, c.month, c.day).unwrap().and_hms_nano_opt(
        c.hour,
        c.minute,
        c.second,
        c.nano,
    ).unwrap().and_utc().timestamp()
}

/// The date-time at a Unix timestamp, if it is in `chrono`'s range.
pub fn civil_from_timestamp(secs: i64, nanos: u32) -> (r: Option<CivilDateTime>)
    ensures
        r == spec_civil_from_timestamp(secs as int, nanos as int),
        r matches Some(c) ==> c.valid(),
{
    let r = chrono_from_timestamp(secs, nanos);
    proof {
        if let Some(c) = r {
            lemma_civil_from_timestamp_is(secs as int, nanos as int, c);
        }
    }
    r
}

/// `YYYY-MM-DD`: the year zero-padded to four digits, the month and the day
/// to two.
pub open spec fn spec_date_text(y: int, m: int, d: int) -> Seq<char> {
    spec_zero_padded(y, 4) + seq!['-'] + spec_zero_padded(m, 2) + seq!['-'] + spec_zero_padded(d, 2)
}

/// What `chrono::NaiveDateTime::parse_from_str` gives for a text and a format.
pub uninterp spec fn spec_chrono_parse_datetime(s: Seq<char>, fmt: Seq<char>) -> Option<
    CivilDateTime,
>;

/// What `chrono::NaiveDate::parse_from_str` gives for a text and a format.
pub uninterp spec fn spec_chrono_parse_date(s: Seq<char>, fmt: Seq<char>) -> Option<CivilDate>;

/// Calls `chrono::NaiveDateTime::parse_from_str`. Trusted: the result is a
/// function of the text and the format alone, a parsed date-time is a valid
/// one (chrono builds no other), and with the format `%Y-%m-%dT%H:%M:%S%.f`
/// the text `YYYY-MM-DDTHH:MM:SS[.fff]` of a valid date-time in the years 0
/// to 9999 reads back as that date-time (`%Y` reads four digits, `%.f` a dot
/// and one to nine digits, and a second 60 is a leap second).
#[verifier::external_body]
pub(crate) fn chrono_parse_datetime(s: &str, fmt: &str) -> (r: Option<CivilDateTime>)
    ensures
        r == spec_chrono_parse_datetime(s@, fmt@),
        r matches Some(c) ==> c.valid(),
        fmt@ == "%Y-%m-%dT%H:%M:%S%.f"@ ==> forall|c: CivilDateTime|
            c.valid() && 0 <= c.year <= 9999 && s@ == #[trigger] spec_datetime_text(c) ==> r
                == Some(c),
{
    chrono::NaiveDateTime::parse_from_str(s, fmt).ok().map(
        |dt: chrono::NaiveDateTime|
            CivilDateTime {
                year: dt.year(),
                month: dt.month(),
                day: dt.day(),
                hour: dt.hour(),
                minute: dt.minute(),
                second: dt.second(),
                nano: dt.nanosecond(),
            },
    )
}

/// Calls `chrono::NaiveDate::parse_from_str`. Trusted: the result is a
/// function of the text and the format alone, a parsed date is a valid one
/// (chrono builds no other), and with the format `%Y-%m-%d` the text
/// `YYYY-MM-DD` of a valid date in the years 0 to 9999 reads back as that
/// date.
#[verifier::external_body]
pub(crate) fn chrono_parse_date(s: &str, fmt: &str) -> (r: Option<CivilDate>)
    ensures
        r == spec_chrono_parse_date(s@, fmt@),
        r matches Some(d) ==> valid_date(d.year as int, d.month as int, d.day as int),
        fmt@ == "%Y-%m-%d"@ ==> forall|d: CivilDate|
            valid_date(d.year as int, d.month as int, d.day as int) && 0 <= d.year <= 9999 && s@
                == #[trigger] spec_date_text(d.year as int, d.month as int, d.day as int) ==> r
                == Some(d),
{
    chrono::NaiveDate::parse_from_str(s, fmt).ok().map(
        |d: chrono::NaiveDate| CivilDate { year: d.year(), month: d.month(), day: d.day() },
    )
}

} // verus!

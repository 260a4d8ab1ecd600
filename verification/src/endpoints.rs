//! Calendar arithmetic between interval endpoints and durations.
//!
//! Months and years are added on the calendar (the day is clamped to the
//! last day of the target month); days, hours, minutes and whole seconds are
//! added as seconds. Where the computation would overflow,
//! the functions here require that it does not, and each comes with a check.
use vstd::prelude::*;
use vstd::arithmetic::div_mod::{lemma_fundamental_div_mod_converse, lemma_fundamental_div_mod};
use vstd::arithmetic::power2::{pow2, lemma_pow2_adds, lemma_pow2_pos};
use crate::calendar::{
    CivilDateTime, MAX_YEAR, MIN_YEAR, civil_from_timestamp, days_in_month, lemma_names_datetime,
    names_datetime,
    spec_civil_from_timestamp, spec_days_in_month, spec_unix_seconds, unix_epoch, chrono_timestamp,
};
use crate::duration::Duration;

verus! {

/// A float's seconds as the interval arithmetic reads them: its bit pattern,
/// its truncation to an integer (`second as i64`) and the nanoseconds of its
/// fractional part (`(second.fract() * 1e9) as u32`).
#[derive(Clone, Copy, Debug, PartialEq, Eq, Structural)]
pub struct SecondsValue {
    pub bits: u64,
    pub whole: i64,
    pub frac_nanos: u32,
}

impl SecondsValue {
    /// The seconds value of `0.0`.
    pub fn zero() -> (r: SecondsValue)
        ensures
            r == (SecondsValue { bits: 0, whole: 0, frac_nanos: 0 }),
    {
        SecondsValue { bits: 0, whole: 0, frac_nanos: 0 }
    }
}

pub open spec fn in_i64(x: int) -> bool {
    i64::MIN <= x <= i64::MAX
}

pub open spec fn in_i32(x: int) -> bool {
    i32::MIN <= x <= i32::MAX
}

// ---------------------------------------------------------------------------
// Adding months
// ---------------------------------------------------------------------------

/// Months since year 0 after adding `months`.
pub open spec fn add_months_total(dt: CivilDateTime, months: int) -> int {
    dt.year * 12 + (dt.month - 1) + months
}

/// Adding `months` neither overflows `i32` nor leaves `chrono`'s year range.
pub open spec fn spec_add_months_defined(dt: CivilDateTime, months: i32) -> bool {
    let t = add_months_total(dt, months as int);
    in_i32(t) && MIN_YEAR <= t / 12 <= MAX_YEAR
}

/// The date-time `months` months later (earlier when negative), with the day
/// clamped to the length of the target month.
pub open spec fn spec_add_months(dt: CivilDateTime, months: i32) -> CivilDateTime {
    let t = add_months_total(dt, months as int);
    let y = t / 12;
    let m = t % 12 + 1;
    let dim = spec_days_in_month(y, m);
    CivilDateTime {
        year: y as i32,
        month: m as u32,
        day: (if dt.day <= dim {
            dt.day as int
        } else {
            dim
        }) as u32,
        hour: dt.hour,
        minute: dt.minute,
        second: dt.second,
        nano: dt.nano,
    }
}

/// Adding months moves the count of months since year 0 by `months`, keeps
/// the time of day, and keeps the day of the month unless the target month
/// is shorter (31 days for January, March, May, July, August, October and
/// December, 30 for April, June, September and November, 28 or, in a leap
/// year, 29 for February); then the day is the month's last.
pub proof fn lemma_add_months_clamps(dt: CivilDateTime, months: i32)
    requires
        dt.valid(),
        spec_add_months_defined(dt, months),
    ensures
        ({
            let r = spec_add_months(dt, months);
            let y = r.year as int;
            let m = r.month as int;
            let leap = y % 4 == 0 && (y % 100 != 0 || y % 400 == 0);
            let len = if m == 2 {
                if leap {
                    29int
                } else {
                    28int
                }
            } else if m == 4 || m == 6 || m == 9 || m == 11 {
                30int
            } else {
                31int
            };
            &&& 1 <= m <= 12
            &&& y * 12 + (m - 1) == dt.year * 12 + (dt.month - 1) + months
            &&& r.day == (if dt.day <= len {
                dt.day as int
            } else {
                len
            })
            &&& r.hour == dt.hour
            &&& r.minute == dt.minute
            &&& r.second == dt.second
            &&& r.nano == dt.nano
        }),
{
    let t = add_months_total(dt, months as int);
    lemma_fundamental_div_mod(t, 12);
    vstd::arithmetic::div_mod::lemma_mod_bound(t, 12);
}

/// Adds (or subtracts) months on the calendar.
pub fn add_months(dt: CivilDateTime, months: i32) -> (r: CivilDateTime)
    requires
        dt.valid(),
        spec_add_months_defined(dt, months),
    ensures
        r == spec_add_months(dt, months),
        r.valid(),
{
    let total: i64 = dt.year as i64 * 12 + (dt.month - 1) as i64 + months as i64;
    let shifted: i64 = total + 2_400_000_000;
    let ghost t = total as int;
    proof {
        lemma_fundamental_div_mod(t, 12);
        vstd::arithmetic::div_mod::lemma_mod_division_less_than_divisor(t, 12);
        lemma_fundamental_div_mod_converse(shifted as int, 12, t / 12 + 200_000_000, t % 12);
    }
    let target_year: i32 = (shifted / 12 - 200_000_000) as i32;
    let target_month: u32 = (shifted % 12) as u32 + 1;
    let max_day = days_in_month(target_year, target_month);
    let day = if dt.day <= max_day {
        dt.day
    } else {
        max_day
    };
    CivilDateTime {
        year: target_year,
        month: target_month,
        day,
        hour: dt.hour,
        minute: dt.minute,
        second: dt.second,
        nano: dt.nano,
    }
}

// ---------------------------------------------------------------------------
// Moving a timestamp by a duration
// ---------------------------------------------------------------------------

/// The date-time of a timestamp, or 1970-01-01T00:00:00 when it is out of range.
pub open spec fn base_datetime(secs: i64, nanos: u32) -> CivilDateTime {
    match spec_civil_from_timestamp(secs as int, nanos as int) {
        Some(c) => c,
        None => unix_epoch(),
    }
}

/// The signed number of months of a duration's calendar part.
pub open spec fn months_term(d: Duration) -> int {
    d.year * 12 + d.month
}

/// The seconds of a duration's day and time part.
pub open spec fn day_term(d: Duration, whole: i64) -> int {
    d.day * 86400 + d.hour * 3600 + d.minute * 60 + whole
}

/// The calendar part of the duration is not empty.
pub open spec fn has_months(d: Duration) -> bool {
    d.year != 0 || d.month != 0
}

/// The date-time after the calendar part of the move.
pub open spec fn moved_datetime(d: Duration, sign: int, base: CivilDateTime) -> CivilDateTime {
    if has_months(d) {
        spec_add_months(base, (sign * months_term(d)) as i32)
    } else {
        base
    }
}

/// The nanoseconds of the base plus `sign` times the nanoseconds of the
/// duration's fraction of a second, before carrying into seconds.
pub open spec fn nanos_total(frac_nanos: u32, sign: int, base_nanos: u32) -> int {
    base_nanos + sign * frac_nanos
}

/// The seconds of the moved timestamp: the calendar part moved on the
/// calendar, the day and time part added in seconds, and the carry of the
/// nanoseconds.
pub open spec fn shifted_seconds(
    d: Duration,
    whole: i64,
    frac_nanos: u32,
    sign: int,
    base_secs: i64,
    base_nanos: u32,
) -> int {
    let base = base_datetime(base_secs, base_nanos);
    spec_unix_seconds(moved_datetime(d, sign, base)) + sign * day_term(d, whole) + nanos_total(
        frac_nanos,
        sign,
        base_nanos,
    ) / 1_000_000_000
}

/// The move by `sign` times the duration overflows nowhere.
pub open spec fn spec_shift_defined(
    d: Duration,
    whole: i64,
    frac_nanos: u32,
    sign: int,
    base_secs: i64,
    base_nanos: u32,
) -> bool {
    let base = base_datetime(base_secs, base_nanos);
    &&& has_months(d) ==> {
        &&& in_i64(d.year * 12)
        &&& in_i64(months_term(d))
        &&& in_i64(sign * months_term(d))
        &&& spec_add_months_defined(base, (sign * months_term(d)) as i32)
    }
    &&& in_i64(day_term(d, whole))
    &&& in_i64(sign * day_term(d, whole))
    &&& in_i64(shifted_seconds(d, whole, frac_nanos, sign, base_secs, base_nanos))
}

/// The timestamp moved by `sign` (1 or -1) times the duration: the calendar
/// part on the calendar, the rest in seconds, and the nanoseconds of the
/// fraction added with a carry into the seconds, so that the nanoseconds of
/// the result are below 10^9.
pub open spec fn spec_shift(
    d: Duration,
    whole: i64,
    frac_nanos: u32,
    sign: int,
    base_secs: i64,
    base_nanos: u32,
) -> (i64, u32) {
    (
        shifted_seconds(d, whole, frac_nanos, sign, base_secs, base_nanos) as i64,
        (nanos_total(frac_nanos, sign, base_nanos) % 1_000_000_000) as u32,
    )
}

/// The sign with which an end is computed from a start.
pub open spec fn forward_sign(d: Duration) -> int {
    if d.sign >= 0 {
        1
    } else {
        -1
    }
}

/// The sign with which a start is computed from an end.
pub open spec fn backward_sign(d: Duration) -> int {
    if d.sign >= 0 {
        -1
    } else {
        1
    }
}

/// Moves a timestamp by `sign` times the duration; `None` where that overflows.
fn checked_shift(
    d: &Duration,
    whole: i64,
    frac_nanos: u32,
    negative: bool,
    base_secs: i64,
    base_nanos: u32,
) -> (r: Option<(i64, u32)>)
    ensures
        ({
            let sign = if negative {
                -1int
            } else {
                1int
            };
            &&& r is Some <==> spec_shift_defined(*d, whole, frac_nanos, sign, base_secs, base_nanos)
            &&& r matches Some(v) ==> v == spec_shift(
                *d,
                whole,
                frac_nanos,
                sign,
                base_secs,
                base_nanos,
            )
        }),
{
    let ghost sign: int = if negative {
        -1int
    } else {
        1int
    };
    let base = match civil_from_timestamp(base_secs, base_nanos) {
        Some(c) => c,
        None => CivilDateTime { year: 1970, month: 1, day: 1, hour: 0, minute: 0, second: 0, nano: 0 },
    };
    assert(base == base_datetime(base_secs, base_nanos));
    let sign128: i128 = if negative {
        -1
    } else {
        1
    };
    let mut dt = base;
    if d.year != 0 || d.month != 0 {
        let y12: i128 = d.year as i128 * 12;
        if y12 < i64::MIN as i128 || y12 > i64::MAX as i128 {
            return None;
        }
        let mt: i128 = y12 + d.month as i128;
        if mt < i64::MIN as i128 || mt > i64::MAX as i128 {
            return None;
        }
        let smt: i128 = sign128 * mt;
        if smt < i64::MIN as i128 || smt > i64::MAX as i128 {
            return None;
        }
        let months: i32 = (smt as i64) as i32;
        let total: i64 = base.year as i64 * 12 + (base.month - 1) as i64 + months as i64;
        if total < i32::MIN as i64 || total > i32::MAX as i64 {
            return None;
        }
        let shifted: i64 = total + 2_400_000_000;
        proof {
            lemma_fundamental_div_mod(total as int, 12);
            lemma_fundamental_div_mod_converse(
                shifted as int,
                12,
                total as int / 12 + 200_000_000,
                total as int % 12,
            );
        }
        let year_of_total: i64 = shifted / 12 - 200_000_000;
        if year_of_total < MIN_YEAR as i64 || year_of_total > MAX_YEAR as i64 {
            return None;
        }
        dt = add_months(base, months);
    }
    assert(dt == moved_datetime(*d, sign, base));
    let dterm: i128 = d.day as i128 * 86400 + d.hour as i128 * 3600 + d.minute as i128 * 60
        + whole as i128;
    if dterm < i64::MIN as i128 || dterm > i64::MAX as i128 {
        return None;
    }
    let sdterm: i128 = sign128 * dterm;
    if sdterm < i64::MIN as i128 || sdterm > i64::MAX as i128 {
        return None;
    }
    let moved = chrono_timestamp(&dt);
    let total: i64 = if negative {
        base_nanos as i64 - frac_nanos as i64
    } else {
        base_nanos as i64 + frac_nanos as i64
    };
    assert(total == nanos_total(frac_nanos, sign, base_nanos));
    let lifted: i64 = total + 5_000_000_000;
    proof {
        lemma_fundamental_div_mod(total as int, 1_000_000_000);
        lemma_fundamental_div_mod_converse(
            lifted as int,
            1_000_000_000,
            total as int / 1_000_000_000 + 5,
            total as int % 1_000_000_000,
        );
    }
    let carry: i64 = lifted / 1_000_000_000 - 5;
    let nanos: u32 = (lifted % 1_000_000_000) as u32;
    let end: i128 = moved as i128 + sdterm + carry as i128;
    if end < i64::MIN as i128 || end > i64::MAX as i128 {
        return None;
    }
    Some((end as i64, nanos))
}

/// The end of an interval given by a start and a duration. `seconds_whole`
/// and `seconds_frac_nanos` are the whole seconds and the nanoseconds of the
/// fraction of the duration's seconds.
pub fn compute_end_from_start_and_duration(
    duration: &Duration,
    seconds_whole: i64,
    seconds_frac_nanos: u32,
    start_seconds: i64,
    start_nanos: u32,
) -> (r: (i64, u32))
    requires
        spec_shift_defined(
            *duration,
            seconds_whole,
            seconds_frac_nanos,
            forward_sign(*duration),
            start_seconds,
            start_nanos,
        ),
    ensures
        r == spec_shift(
            *duration,
            seconds_whole,
            seconds_frac_nanos,
            forward_sign(*duration),
            start_seconds,
            start_nanos,
        ),
{
    let r = checked_shift(
        duration,
        seconds_whole,
        seconds_frac_nanos,
        duration.sign < 0,
        start_seconds,
        start_nanos,
    );
    match r {
        Some(v) => v,
        None => (0, 0),
    }
}

/// The start of an interval given by a duration and an end.
pub fn compute_start_from_duration_and_end(
    duration: &Duration,
    seconds_whole: i64,
    seconds_frac_nanos: u32,
    end_seconds: i64,
    end_nanos: u32,
) -> (r: (i64, u32))
    requires
        spec_shift_defined(
            *duration,
            seconds_whole,
            seconds_frac_nanos,
            backward_sign(*duration),
            end_seconds,
            end_nanos,
        ),
    ensures
        r == spec_shift(
            *duration,
            seconds_whole,
            seconds_frac_nanos,
            backward_sign(*duration),
            end_seconds,
            end_nanos,
        ),
{
    let r = checked_shift(
        duration,
        seconds_whole,
        seconds_frac_nanos,
        duration.sign >= 0,
        end_seconds,
        end_nanos,
    );
    match r {
        Some(v) => v,
        None => (0, 0),
    }
}

/// Moving a timestamp by `sign` (1 or -1) times a duration: the years and
/// months move the date-time on the calendar, and then, counted in
/// nanoseconds, the result is that date-time's Unix time plus the base's
/// nanoseconds plus `sign` times the days, hours, minutes, whole seconds and
/// nanoseconds of the duration; the result's nanoseconds are below 10^9.
pub proof fn lemma_shift_moves(
    d: Duration,
    whole: i64,
    frac_nanos: u32,
    sign: int,
    base_secs: i64,
    base_nanos: u32,
)
    requires
        sign == 1 || sign == -1,
        spec_shift_defined(d, whole, frac_nanos, sign, base_secs, base_nanos),
    ensures
        ({
            let (es, en) = spec_shift(d, whole, frac_nanos, sign, base_secs, base_nanos);
            let base = base_datetime(base_secs, base_nanos);
            let moved = if d.year != 0 || d.month != 0 {
                spec_add_months(base, (sign * (d.year * 12 + d.month)) as i32)
            } else {
                base
            };
            &&& en < 1_000_000_000
            &&& es * 1_000_000_000 + en == spec_unix_seconds(moved) * 1_000_000_000 + base_nanos
                + sign * ((d.day * 86400 + d.hour * 3600 + d.minute * 60 + whole) * 1_000_000_000
                + frac_nanos)
        }),
{
    let q: int = 1_000_000_000;
    let t = nanos_total(frac_nanos, sign, base_nanos);
    lemma_fundamental_div_mod(t, q);
    vstd::arithmetic::div_mod::lemma_mod_bound(t, q);
    let (es, en) = spec_shift(d, whole, frac_nanos, sign, base_secs, base_nanos);
    let base = base_datetime(base_secs, base_nanos);
    let u = spec_unix_seconds(moved_datetime(d, sign, base));
    let dt = day_term(d, whole);
    assert(es == u + sign * dt + t / q);
    assert(en == t % q);
    assert(es * q + en == u * q + base_nanos + sign * (dt * q + frac_nanos)) by (nonlinear_arith)
        requires
            es == u + sign * dt + t / q,
            en == t % q,
            t == (t / q) * q + t % q,
            t == base_nanos + sign * frac_nanos,
            q == 1_000_000_000,
    ;
}

/// For a duration without years or months, moving a timestamp forward by the
/// duration and then back by it from the result returns the timestamp, when
/// both timestamps name date-times and neither move overflows.
pub proof fn lemma_shift_back_returns(
    d: Duration,
    whole: i64,
    frac_nanos: u32,
    start_secs: i64,
    start_nanos: u32,
)
    requires
        !has_months(d),
        start_nanos < 1_000_000_000,
        names_datetime(start_secs as int, start_nanos as int),
        spec_shift_defined(d, whole, frac_nanos, forward_sign(d), start_secs, start_nanos),
        ({
            let (es, en) = spec_shift(d, whole, frac_nanos, forward_sign(d), start_secs, start_nanos);
            &&& names_datetime(es as int, en as int)
            &&& spec_shift_defined(d, whole, frac_nanos, backward_sign(d), es, en)
        }),
    ensures
        ({
            let (es, en) = spec_shift(d, whole, frac_nanos, forward_sign(d), start_secs, start_nanos);
            spec_shift(d, whole, frac_nanos, backward_sign(d), es, en) == (start_secs, start_nanos)
        }),
{
    let s = forward_sign(d);
    let q: int = 1_000_000_000;
    let (es, en) = spec_shift(d, whole, frac_nanos, s, start_secs, start_nanos);
    lemma_names_datetime(start_secs as int, start_nanos as int);
    lemma_names_datetime(es as int, en as int);
    let t1 = nanos_total(frac_nanos, s, start_nanos);
    lemma_fundamental_div_mod(t1, q);
    assert(es == start_secs + s * day_term(d, whole) + t1 / q);
    assert(en == t1 % q);
    let t2 = nanos_total(frac_nanos, -s, en);
    lemma_fundamental_div_mod(t2, q);
    let (ss, sn) = spec_shift(d, whole, frac_nanos, -s, es, en);
    assert(ss == es - s * day_term(d, whole) + t2 / q);
    assert(sn == t2 % q);
    let v = ss * q + sn;
    assert(v == start_secs * q + start_nanos) by (nonlinear_arith)
        requires
            v == ss * q + sn,
            ss == es - s * day_term(d, whole) + t2 / q,
            sn == t2 % q,
            t2 == (t2 / q) * q + t2 % q,
            t2 == en - s * frac_nanos,
            es == start_secs + s * day_term(d, whole) + t1 / q,
            en == t1 % q,
            t1 == (t1 / q) * q + t1 % q,
            t1 == start_nanos + s * frac_nanos,
    ;
    lemma_fundamental_div_mod_converse(v, q, ss as int, sn as int);
    lemma_fundamental_div_mod_converse(v, q, start_secs as int, start_nanos as int);
}

/// Whether moving a timestamp by the duration (backwards when `backward`)
/// stays free of overflow.
pub fn shift_is_defined(
    duration: &Duration,
    seconds_whole: i64,
    seconds_frac_nanos: u32,
    backward: bool,
    base_seconds: i64,
    base_nanos: u32,
) -> (r: bool)
    ensures
        r == spec_shift_defined(
            *duration,
            seconds_whole,
            seconds_frac_nanos,
            if backward {
                backward_sign(*duration)
            } else {
                forward_sign(*duration)
            },
            base_seconds,
            base_nanos,
        ),
{
    let negative = if backward {
        duration.sign >= 0
    } else {
        duration.sign < 0
    };
    checked_shift(duration, seconds_whole, seconds_frac_nanos, negative, base_seconds, base_nanos)
        .is_some()
}

// ---------------------------------------------------------------------------
// The duration between two endpoints
// ---------------------------------------------------------------------------

/// The IEEE-754 bit pattern `b` is a float whose value is the natural number `n`.
pub open spec fn f64_bits_denote(b: nat, n: nat) -> bool {
    if n == 0 {
        b == 0
    } else {
        let e = b / pow2(52) - 1023;
        let m = b % pow2(52);
        b < pow2(63) && 0 <= e <= 52 && pow2(52) + m == n * pow2((52 - e) as nat)
    }
}

/// The bit pattern of the float `n as f64`, for `n` below 2^53 (where the
/// conversion is exact).
pub fn f64_bits_of_nat(n: u64) -> (b: u64)
    requires
        n < 0x20_0000_0000_0000,
    ensures
        f64_bits_denote(b as nat, n as nat),
{
    if n == 0 {
        return 0;
    }
    let mut e: u64 = 0;
    let mut p: u64 = 1;
    proof {
        vstd::arithmetic::power2::lemma2_to64();
        vstd::arithmetic::power2::lemma2_to64_rest();
    }
    while p <= n / 2
        invariant
            p as nat == pow2(e as nat),
            1 <= p <= n,
            n < 0x20_0000_0000_0000,
            e <= 52,
        decreases n - p,
    {
        proof {
            vstd::arithmetic::power2::lemma_pow2_unfold((e + 1) as nat);
            vstd::arithmetic::power2::lemma2_to64();
        vstd::arithmetic::power2::lemma2_to64_rest();
            assert(pow2(52) == 0x10_0000_0000_0000);
        }
        p = p * 2;
        e = e + 1;
    }
    proof {
        vstd::arithmetic::power2::lemma2_to64();
        vstd::arithmetic::power2::lemma2_to64_rest();
        lemma_pow2_adds(e as nat, (52 - e) as nat);
        lemma_pow2_pos((52 - e) as nat);
        vstd::arithmetic::div_mod::lemma_div_multiples_vanish(
            pow2((52 - e) as nat) as int,
            p as int,
        );
    }
    assert(pow2(e as nat) * pow2((52 - e) as nat) == pow2(52));
    assert(pow2(52) == 0x10_0000_0000_0000);
    assert(pow2(63) == 0x8000_0000_0000_0000);
    assert(p * pow2((52 - e) as nat) == 0x10_0000_0000_0000);
    let q: u64 = 0x10_0000_0000_0000 / p;
    assert(q as nat == pow2((52 - e) as nat));
    assert(p * q == 0x10_0000_0000_0000);
    assert((n - p) * q < p * q) by (nonlinear_arith)
        requires
            n < 2 * p,
            p <= n,
            q > 0,
    ;
    let m: u64 = (n - p) * q;
    assert(p * q + m == n * q) by (nonlinear_arith)
        requires
            m == (n - p) * q,
    ;
    assert(m < 0x10_0000_0000_0000);
    assert((1023 + e) * 0x10_0000_0000_0000 <= 1075 * 0x10_0000_0000_0000);
    let b: u64 = (1023 + e) * 0x10_0000_0000_0000 + m;
    proof {
        lemma_fundamental_div_mod_converse(b as int, pow2(52) as int, (1023 + e) as int, m as int);
        assert(pow2(52) + m == n * pow2((52 - e) as nat));
    }
    b
}

/// The duration between two endpoints, counted in days (modulo 256, as the
/// `u8` day count of a duration keeps them with `as u8`), hours, minutes and
/// seconds; no calendar part.
pub open spec fn spec_duration_from_endpoints(start_seconds: i64, end_seconds: i64) -> (
    i8,
    int,
    int,
    int,
    int,
) {
    let diff = end_seconds - start_seconds;
    let a = if diff >= 0 {
        diff
    } else {
        -diff
    };
    let rem = a % 86400;
    (
        if diff >= 0 {
            1i8
        } else {
            -1i8
        },
        (a / 86400) % 256,
        rem / 3600,
        (rem % 3600) / 60,
        (rem % 3600) % 60,
    )
}

/// The duration from a start to an end.
pub fn compute_duration_from_endpoints(
    start_seconds: i64,
    start_nanos: u32,
    end_seconds: i64,
    end_nanos: u32,
) -> (d: Duration)
    requires
        in_i64(end_seconds - start_seconds),
    ensures
        ({
            let (sign, day, hour, minute, second) = spec_duration_from_endpoints(
                start_seconds,
                end_seconds,
            );
            &&& d.sign == sign
            &&& d.year == 0
            &&& d.month == 0
            &&& d.day == day
            &&& d.hour == hour
            &&& d.minute == minute
            &&& f64_bits_denote(d.second_bits as nat, second as nat)
        }),
{
    let diff = end_seconds - start_seconds;
    let sign: i8 = if diff >= 0 {
        1
    } else {
        -1
    };
    let abs_diff: u64 = if diff >= 0 {
        diff as u64
    } else {
        ((-(diff + 1)) as u64) + 1
    };
    let days = ((abs_diff / 86400) % 256) as u8;
    let remainder = abs_diff % 86400;
    let hours = (remainder / 3600) as u8;
    let remainder = remainder % 3600;
    let minutes = (remainder / 60) as u8;
    let secs = f64_bits_of_nat(remainder % 60);
    Duration { sign, year: 0, month: 0, day: days, hour: hours, minute: minutes, second_bits: secs }
}

} // verus!

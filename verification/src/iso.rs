//! ISO 8601 interval text: `start/end`, `start/duration` and `duration/end`.
//!
//! Dates are `YYYY-MM-DD`, date-times `YYYY-MM-DDTHH:MM:SS[.fff]Z`, and
//! durations `[-]PnYnMnDTnHnMnS`. The seconds of a duration are a float;
//! parsing keeps their text, and completing an interval takes their value
//! (see [`SecondsValue`]).
use vstd::prelude::*;
use crate::calendar::{
    CivilDateTime, chrono_parse_date, chrono_parse_datetime, spec_chrono_parse_date,
    spec_chrono_parse_datetime, spec_unix_seconds, chrono_timestamp, CivilDate,
    lemma_names_datetime, names_datetime, spec_civil_from_timestamp, spec_date_text,
};
use crate::interval_text::{spec_endpoint_text, spec_interval_text};
use crate::time::{spec_datetime_text, spec_fraction_text, spec_time_text, time_of, TimeOfDay};
use crate::duration::{
    f64_bits_is_zero, spec_duration_string, spec_part, spec_signed_duration_text, Duration,
};
use crate::text::{
    abs, digit_char, lemma_zero_padded_digits, spec_decimal, spec_digits, spec_zero_padded, zeros,
};
use crate::endpoints::{
    SecondsValue, backward_sign, compute_duration_from_endpoints,
    compute_end_from_start_and_duration, compute_start_from_duration_and_end, forward_sign,
    in_i64, shift_is_defined, spec_duration_from_endpoints, spec_shift, spec_shift_defined,
    f64_bits_denote,
};
use crate::interval::{
    DateTimeInterval, INTERVAL_COMPONENT_DATE, INTERVAL_COMPONENT_DATETIME,
    INTERVAL_FLAG_DURATION_END, INTERVAL_FLAG_EXPLICIT, INTERVAL_FLAG_START_DURATION,
};

verus! {

// ---------------------------------------------------------------------------
// Errors
// ---------------------------------------------------------------------------

/// Why an interval text was refused; each carries the text it is about.
#[derive(Debug)]
pub enum IntervalParseError {
    Empty,
    MissingSeparator(String),
    InvalidDate(String),
    InvalidDateTime(String),
    InvalidDuration(String),
    TwoDurations(String),
    NoDates(String),
}

/// An error of interval parsing, with its text as characters.
pub enum ParseErrorView {
    Empty,
    MissingSeparator(Seq<char>),
    InvalidDate(Seq<char>),
    InvalidDateTime(Seq<char>),
    InvalidDuration(Seq<char>),
    TwoDurations(Seq<char>),
    NoDates(Seq<char>),
}

impl View for IntervalParseError {
    type V = ParseErrorView;

    open spec fn view(&self) -> ParseErrorView {
        match self {
            IntervalParseError::Empty => ParseErrorView::Empty,
            IntervalParseError::MissingSeparator(s) => ParseErrorView::MissingSeparator(s@),
            IntervalParseError::InvalidDate(s) => ParseErrorView::InvalidDate(s@),
            IntervalParseError::InvalidDateTime(s) => ParseErrorView::InvalidDateTime(s@),
            IntervalParseError::InvalidDuration(s) => ParseErrorView::InvalidDuration(s@),
            IntervalParseError::TwoDurations(s) => ParseErrorView::TwoDurations(s@),
            IntervalParseError::NoDates(s) => ParseErrorView::NoDates(s@),
        }
    }
}

// ---------------------------------------------------------------------------
// Numbers in text
// ---------------------------------------------------------------------------

pub open spec fn is_digit(c: char) -> bool {
    '0' <= c <= '9'
}

pub open spec fn digit_value(c: char) -> nat {
    (c as int - '0' as int) as nat
}

pub open spec fn all_digits(t: Seq<char>) -> bool {
    forall|i: int| 0 <= i < t.len() ==> is_digit(#[trigger] t[i])
}

/// The number written by a text of decimal digits.
pub open spec fn decimal_value(t: Seq<char>) -> nat
    decreases t.len(),
{
    if t.len() == 0 {
        0
    } else {
        decimal_value(t.drop_last()) * 10 + digit_value(t.last())
    }
}

/// `t.parse()` into an unsigned range `0..=max`, for a text without a sign:
/// it succeeds when the text is a non-empty run of digits whose number is at
/// most `max`.
pub open spec fn parse_unsigned(t: Seq<char>, max: nat) -> Option<nat> {
    if t.len() > 0 && all_digits(t) && decimal_value(t) <= max {
        Some(decimal_value(t))
    } else {
        None
    }
}

/// Whether `t.parse::<f64>()` succeeds, for a text made of digits and dots:
/// Rust's float grammar (`Digit+ | Digit+ '.' Digit* | Digit* '.' Digit+`)
/// accepts exactly the texts with at most one dot and at least one digit.
pub open spec fn float_text_ok(t: Seq<char>) -> bool {
    (forall|i: int, j: int| 0 <= i < j < t.len() && t[i] == '.' ==> t[j] != '.') && exists|i: int|
        0 <= i < t.len() && is_digit(#[trigger] t[i])
}

proof fn lemma_decimal_value_grows(t: Seq<char>, k: int)
    requires
        0 <= k <= t.len(),
    ensures
        decimal_value(t.take(k)) <= decimal_value(t),
    decreases t.len() - k,
{
    if k < t.len() {
        lemma_decimal_value_grows(t, k + 1);
        assert(t.take(k + 1).drop_last() =~= t.take(k));
    } else {
        assert(t.take(k) =~= t);
    }
}

/// `s[from..to].parse()` into `0..=max`, for a text without a sign.
fn parse_decimal(s: &str, from: usize, to: usize, max: u64) -> (r: Option<u64>)
    requires
        from <= to <= s@.len(),
    ensures
        r matches Some(v) ==> parse_unsigned(s@.subrange(from as int, to as int), max as nat)
            == Some(v as nat),
        r is None ==> parse_unsigned(s@.subrange(from as int, to as int), max as nat) is None,
{
    let ghost t = s@.subrange(from as int, to as int);
    if from == to {
        return None;
    }
    let mut acc: u128 = 0;
    let mut k: usize = from;
    while k < to
        invariant
            from <= k <= to <= s@.len(),
            t == s@.subrange(from as int, to as int),
            all_digits(t.take(k - from)),
            acc == decimal_value(t.take(k - from)),
            acc <= max,
        decreases to - k,
    {
        let c = s.get_char(k);
        assert(t[k - from] == c);
        if !('0' <= c && c <= '9') {
            assert(!all_digits(t));
            return None;
        }
        let d = (c as u32 - '0' as u32) as u128;
        assert(t.take(k - from + 1).drop_last() =~= t.take(k - from));
        assert(t.take(k - from + 1).last() == c);
        acc = acc * 10 + d;
        k = k + 1;
        if acc > max as u128 {
            proof {
                if all_digits(t) {
                    lemma_decimal_value_grows(t, k - from);
                }
            }
            return None;
        }
    }
    assert(t.take(to - from) =~= t);
    Some(acc as u64)
}

// ---------------------------------------------------------------------------
// Durations
// ---------------------------------------------------------------------------

/// Calendar fields read so far from a duration's date part.
pub struct DateFields {
    pub year: i64,
    pub month: u8,
    pub day: u8,
}

/// Time fields read so far from a duration's time part; the seconds are
/// kept as their text.
pub struct TimeFields {
    pub hour: u8,
    pub minute: u8,
    pub seconds: Option<Seq<char>>,
}

/// Reads a duration's date part: digits collect into a number, which `Y`,
/// `M` and `D` assign to the year, month and day; anything else is refused.
/// Gives the fields and the digits not yet assigned.
pub open spec fn date_scan(chars: Seq<char>, f: DateFields, buf: Seq<char>) -> Option<
    (DateFields, Seq<char>),
>
    decreases chars.len(),
{
    if chars.len() == 0 {
        Some((f, buf))
    } else {
        let c = chars[0];
        let rest = chars.drop_first();
        if c == 'Y' {
            match parse_unsigned(buf, i64::MAX as nat) {
                Some(v) => date_scan(rest, DateFields { year: v as i64, ..f }, Seq::empty()),
                None => None,
            }
        } else if c == 'M' {
            match parse_unsigned(buf, u8::MAX as nat) {
                Some(v) => date_scan(rest, DateFields { month: v as u8, ..f }, Seq::empty()),
                None => None,
            }
        } else if c == 'D' {
            match parse_unsigned(buf, u8::MAX as nat) {
                Some(v) => date_scan(rest, DateFields { day: v as u8, ..f }, Seq::empty()),
                None => None,
            }
        } else if is_digit(c) {
            date_scan(rest, f, buf.push(c))
        } else {
            None
        }
    }
}

/// Reads a duration's time part: digits and dots collect, `H` and `M` assign
/// the hours and minutes (refused unless the text is a number that fits
/// `u8`), `S` keeps the seconds' text (refused unless it reads as a float).
pub open spec fn time_scan(chars: Seq<char>, f: TimeFields, buf: Seq<char>) -> Option<
    (TimeFields, Seq<char>),
>
    decreases chars.len(),
{
    if chars.len() == 0 {
        Some((f, buf))
    } else {
        let c = chars[0];
        let rest = chars.drop_first();
        if c == 'H' {
            match parse_unsigned(buf, u8::MAX as nat) {
                Some(v) => time_scan(rest, TimeFields { hour: v as u8, ..f }, Seq::empty()),
                None => None,
            }
        } else if c == 'M' {
            match parse_unsigned(buf, u8::MAX as nat) {
                Some(v) => time_scan(rest, TimeFields { minute: v as u8, ..f }, Seq::empty()),
                None => None,
            }
        } else if c == 'S' {
            if float_text_ok(buf) {
                time_scan(rest, TimeFields { seconds: Some(buf), ..f }, Seq::empty())
            } else {
                None
            }
        } else if is_digit(c) || c == '.' {
            time_scan(rest, f, buf.push(c))
        } else {
            None
        }
    }
}

/// The index of the first `c` in `s` at or after `from`, or the length of `s`.
pub open spec fn index_of_from(s: Seq<char>, c: char, from: int) -> int
    decreases s.len() - from,
{
    if from >= s.len() {
        s.len() as int
    } else if s[from] == c {
        from
    } else {
        index_of_from(s, c, from + 1)
    }
}

/// A parsed duration whose seconds are still text.
#[derive(Debug)]
pub struct DurationText {
    pub sign: i8,
    pub year: i64,
    pub month: u8,
    pub day: u8,
    pub hour: u8,
    pub minute: u8,
    /// The text of the seconds (digits and at most one dot), if given.
    pub seconds: Option<String>,
}

/// A parsed duration with the text of its seconds as characters.
pub struct DurationTextView {
    pub sign: i8,
    pub year: i64,
    pub month: u8,
    pub day: u8,
    pub hour: u8,
    pub minute: u8,
    pub seconds: Option<Seq<char>>,
}

impl View for DurationText {
    type V = DurationTextView;

    open spec fn view(&self) -> DurationTextView {
        DurationTextView {
            sign: self.sign,
            year: self.year,
            month: self.month,
            day: self.day,
            hour: self.hour,
            minute: self.minute,
            seconds: match self.seconds {
                Some(t) => Some(t@),
                None => None,
            },
        }
    }
}

/// An ISO 8601 duration `[-]P[nY][nM][nD][T[nH][nM][nS]]`. Designators may
/// repeat (the last wins) and come in any order; at least one number with its
/// designator is required (`P` alone is refused), the text after `T` may not
/// be empty, and digits left without a designator are refused.
pub open spec fn spec_parse_iso_duration(s: Seq<char>) -> Option<DurationTextView> {
    let neg = s.len() > 0 && s[0] == '-';
    let rest = if neg {
        s.drop_first()
    } else {
        s
    };
    if !(rest.len() > 0 && rest[0] == 'P') {
        None
    } else {
        let r = rest.drop_first();
        let t = index_of_from(r, 'T', 0);
        let date_part = r.take(t);
        match date_scan(date_part, DateFields { year: 0, month: 0, day: 0 }, Seq::empty()) {
            None => None,
            Some((df, dbuf)) => if dbuf.len() > 0 {
                None
            } else {
                let base = DurationTextView {
                    sign: if neg {
                        -1i8
                    } else {
                        1i8
                    },
                    year: df.year,
                    month: df.month,
                    day: df.day,
                    hour: 0,
                    minute: 0,
                    seconds: None,
                };
                if t >= r.len() {
                    if r.len() == 0 {
                        None
                    } else {
                        Some(base)
                    }
                } else {
                    let time_part = r.skip(t + 1);
                    if time_part.len() == 0 {
                        None
                    } else {
                        match time_scan(
                            time_part,
                            TimeFields { hour: 0, minute: 0, seconds: None },
                            Seq::empty(),
                        ) {
                            None => None,
                            Some((tf, tbuf)) => if tbuf.len() > 0 {
                                None
                            } else {
                                Some(
                                    DurationTextView {
                                        hour: tf.hour,
                                        minute: tf.minute,
                                        seconds: tf.seconds,
                                        ..base
                                    },
                                )
                            },
                        }
                    }
                }
            },
        }
    }
}

/// The index of the first `c` in `s` at or after `from` (or the length).
fn find_char(s: &str, c: char, from: usize) -> (r: usize)
    requires
        from <= s@.len(),
    ensures
        r == index_of_from(s@, c, from as int),
        from <= r <= s@.len(),
{
    let n = s.unicode_len();
    let mut k = from;
    while k < n
        invariant
            from <= k <= n,
            n == s@.len(),
            index_of_from(s@, c, from as int) == index_of_from(s@, c, k as int),
        decreases n - k,
    {
        if s.get_char(k) == c {
            return k;
        }
        k = k + 1;
    }
    k
}

/// Parses an ISO 8601 duration; any refusal is `InvalidDuration` with the text.
pub fn parse_iso_duration(s: &str) -> (r: Result<DurationText, IntervalParseError>)
    ensures
        match spec_parse_iso_duration(s@) {
            Some(v) => r matches Ok(d) && d@ == v,
            None => r matches Err(e) && e@ == ParseErrorView::InvalidDuration(s@),
        },
{
    let n = s.unicode_len();
    let neg = n > 0 && s.get_char(0) == '-';
    let start: usize = if neg {
        1
    } else {
        0
    };
    let ghost rest = if neg {
        s@.drop_first()
    } else {
        s@
    };
    assert(rest =~= s@.skip(start as int));
    if start >= n || s.get_char(start) != 'P' {
        return Err(IntervalParseError::InvalidDuration(String::from_str(s)));
    }
    let p0 = start + 1;
    let ghost r = rest.drop_first();
    assert(r =~= s@.skip(p0 as int));
    let t = find_char(s, 'T', p0);
    proof {
        lemma_index_of_skip(s@, 'T', p0 as int, 0);
    }
    assert(index_of_from(r, 'T', 0) == t - p0);
    let ghost date_part = r.take(t - p0);
    assert(date_part =~= s@.subrange(p0 as int, t as int));
    // The date part.
    let mut year: i64 = 0;
    let mut month: u8 = 0;
    let mut day: u8 = 0;
    let mut bs: usize = p0;
    let mut j: usize = p0;
    assert(s@.subrange(p0 as int, p0 as int) =~= Seq::<char>::empty());
    assert(s@.subrange(p0 as int, t as int) =~= date_part);
    while j < t
        invariant
            p0 <= bs <= j <= t <= n,
            date_scan(date_part, DateFields { year: 0, month: 0, day: 0 }, Seq::empty()) is None
                ==> spec_parse_iso_duration(s@) is None,
            n == s@.len(),
            date_part == s@.subrange(p0 as int, t as int),
            date_scan(date_part, DateFields { year: 0, month: 0, day: 0 }, Seq::empty())
                == date_scan(
                s@.subrange(j as int, t as int),
                DateFields { year, month, day },
                s@.subrange(bs as int, j as int),
            ),
        decreases t - j,
    {
        let c = s.get_char(j);
        let ghost chars = s@.subrange(j as int, t as int);
        assert(chars[0] == c);
        assert(chars.drop_first() =~= s@.subrange(j + 1, t as int));
        if c == 'Y' {
            match parse_decimal(s, bs, j, i64::MAX as u64) {
                Some(v) => {
                    year = v as i64;
                    bs = j + 1;
                },
                None => {
                    return Err(IntervalParseError::InvalidDuration(String::from_str(s)));
                },
            }
        } else if c == 'M' {
            match parse_decimal(s, bs, j, 255) {
                Some(v) => {
                    month = v as u8;
                    bs = j + 1;
                },
                None => {
                    return Err(IntervalParseError::InvalidDuration(String::from_str(s)));
                },
            }
        } else if c == 'D' {
            match parse_decimal(s, bs, j, 255) {
                Some(v) => {
                    day = v as u8;
                    bs = j + 1;
                },
                None => {
                    return Err(IntervalParseError::InvalidDuration(String::from_str(s)));
                },
            }
        } else if '0' <= c && c <= '9' {
            assert(s@.subrange(bs as int, j as int).push(c) =~= s@.subrange(bs as int, j + 1));
        } else {
            return Err(IntervalParseError::InvalidDuration(String::from_str(s)));
        }
        assert(s@.subrange(j + 1, j + 1) =~= Seq::<char>::empty());
        j = j + 1;
    }
    assert(s@.subrange(t as int, t as int) =~= Seq::<char>::empty());
    if bs < t {
        return Err(IntervalParseError::InvalidDuration(String::from_str(s)));
    }
    let sign: i8 = if neg {
        -1
    } else {
        1
    };
    if t >= n {
        if t == p0 {
            return Err(IntervalParseError::InvalidDuration(String::from_str(s)));
        }
        return Ok(
            DurationText { sign, year, month, day, hour: 0, minute: 0, seconds: None },
        );
    }
    // The time part.
    let q0 = t + 1;
    let ghost time_part = r.skip(t - p0 + 1);
    assert(time_part =~= s@.subrange(q0 as int, n as int));
    if q0 >= n {
        return Err(IntervalParseError::InvalidDuration(String::from_str(s)));
    }
    let mut hour: u8 = 0;
    let mut minute: u8 = 0;
    let mut sec: Option<(usize, usize)> = None;
    let mut bs: usize = q0;
    let mut j: usize = q0;
    assert(s@.subrange(q0 as int, q0 as int) =~= Seq::<char>::empty());
    while j < n
        invariant
            q0 <= bs <= j <= n,
            time_scan(time_part, TimeFields { hour: 0, minute: 0, seconds: None }, Seq::empty())
                is None ==> spec_parse_iso_duration(s@) is None,
            n == s@.len(),
            time_part == s@.subrange(q0 as int, n as int),
            sec matches Some((a, b)) ==> a <= b <= n,
            time_scan(time_part, TimeFields { hour: 0, minute: 0, seconds: None }, Seq::empty())
                == time_scan(
                s@.subrange(j as int, n as int),
                TimeFields {
                    hour,
                    minute,
                    seconds: match sec {
                        Some((a, b)) => Some(s@.subrange(a as int, b as int)),
                        None => None,
                    },
                },
                s@.subrange(bs as int, j as int),
            ),
        decreases n - j,
    {
        let c = s.get_char(j);
        let ghost chars = s@.subrange(j as int, n as int);
        assert(chars[0] == c);
        assert(chars.drop_first() =~= s@.subrange(j + 1, n as int));
        if c == 'H' {
            match parse_decimal(s, bs, j, 255) {
                Some(v) => {
                    hour = v as u8;
                    bs = j + 1;
                },
                None => {
                    return Err(IntervalParseError::InvalidDuration(String::from_str(s)));
                },
            }
        } else if c == 'M' {
            match parse_decimal(s, bs, j, 255) {
                Some(v) => {
                    minute = v as u8;
                    bs = j + 1;
                },
                None => {
                    return Err(IntervalParseError::InvalidDuration(String::from_str(s)));
                },
            }
        } else if c == 'S' {
            if float_text(s, bs, j) {
                sec = Some((bs, j));
                bs = j + 1;
            } else {
                return Err(IntervalParseError::InvalidDuration(String::from_str(s)));
            }
        } else if ('0' <= c && c <= '9') || c == '.' {
            assert(s@.subrange(bs as int, j as int).push(c) =~= s@.subrange(bs as int, j + 1));
        } else {
            return Err(IntervalParseError::InvalidDuration(String::from_str(s)));
        }
        assert(s@.subrange(j + 1, j + 1) =~= Seq::<char>::empty());
        j = j + 1;
    }
    assert(s@.subrange(n as int, n as int) =~= Seq::<char>::empty());
    if bs < n {
        return Err(IntervalParseError::InvalidDuration(String::from_str(s)));
    }
    let seconds = match sec {
        Some((a, b)) => Some(String::from_str(s.substring_char(a, b))),
        None => None,
    };
    Ok(DurationText { sign, year, month, day, hour, minute, seconds })
}

proof fn lemma_index_of_skip(s: Seq<char>, c: char, p: int, k: int)
    requires
        0 <= p <= s.len(),
        0 <= k <= s.len() - p,
    ensures
        index_of_from(s.skip(p), c, k) == index_of_from(s, c, p + k) - p,
    decreases s.len() - p - k,
{
    if k < s.len() - p {
        lemma_index_of_skip(s, c, p, k + 1);
    }
}

// ---------------------------------------------------------------------------
// Reading back the text of a duration
// ---------------------------------------------------------------------------

proof fn lemma_digit_char(d: nat)
    requires
        d < 10,
    ensures
        is_digit(digit_char(d)),
        digit_value(digit_char(d)) == d,
{
}

proof fn lemma_digits_read_back(n: nat)
    ensures
        spec_digits(n).len() > 0,
        all_digits(spec_digits(n)),
        decimal_value(spec_digits(n)) == n,
    decreases n,
{
    if n < 10 {
        lemma_digit_char(n);
        let t = spec_digits(n);
        assert(t.drop_last() =~= Seq::<char>::empty());
        assert(decimal_value(t.drop_last()) == 0);
        assert(t.last() == digit_char(n));
    } else {
        lemma_digit_char(n % 10);
        lemma_digits_read_back(n / 10);
        let t = spec_digits(n);
        assert(t.drop_last() =~= spec_digits(n / 10));
        assert(t.last() == digit_char(n % 10));
        assert(decimal_value(t) == decimal_value(t.drop_last()) * 10 + digit_value(t.last()));
        assert forall|i: int| 0 <= i < t.len() implies is_digit(#[trigger] t[i]) by {
            if i < t.len() - 1 {
                assert(t[i] == spec_digits(n / 10)[i]);
            }
        }
    }
}

proof fn lemma_decimal_is_digits(n: int)
    requires
        n >= 0,
    ensures
        spec_decimal(n) == spec_digits(n as nat),
{
    assert(spec_decimal(n) =~= spec_digits(n as nat));
}

proof fn lemma_date_scan_concat(a: Seq<char>, b: Seq<char>, f: DateFields, buf: Seq<char>)
    ensures
        date_scan(a + b, f, buf) == match date_scan(a, f, buf) {
            None => None,
            Some((f2, buf2)) => date_scan(b, f2, buf2),
        },
    decreases a.len(),
{
    if a.len() == 0 {
        assert(a + b =~= b);
    } else {
        let c = a[0];
        assert((a + b)[0] == c);
        assert((a + b).drop_first() =~= a.drop_first() + b);
        let r = a.drop_first();
        if c == 'Y' {
            if let Some(v) = parse_unsigned(buf, i64::MAX as nat) {
                lemma_date_scan_concat(r, b, DateFields { year: v as i64, ..f }, Seq::empty());
            }
        } else if c == 'M' {
            if let Some(v) = parse_unsigned(buf, u8::MAX as nat) {
                lemma_date_scan_concat(r, b, DateFields { month: v as u8, ..f }, Seq::empty());
            }
        } else if c == 'D' {
            if let Some(v) = parse_unsigned(buf, u8::MAX as nat) {
                lemma_date_scan_concat(r, b, DateFields { day: v as u8, ..f }, Seq::empty());
            }
        } else if is_digit(c) {
            lemma_date_scan_concat(r, b, f, buf.push(c));
        }
    }
}

proof fn lemma_date_scan_digits(a: Seq<char>, f: DateFields, buf: Seq<char>)
    requires
        all_digits(a),
    ensures
        date_scan(a, f, buf) == Some((f, buf + a)),
    decreases a.len(),
{
    if a.len() == 0 {
        assert(buf + a =~= buf);
    } else {
        assert(is_digit(a[0]));
        let r = a.drop_first();
        assert forall|i: int| 0 <= i < r.len() implies is_digit(#[trigger] r[i]) by {
            assert(r[i] == a[i + 1]);
        }
        lemma_date_scan_digits(r, f, buf.push(a[0]));
        assert(buf.push(a[0]) + r =~= buf + a);
    }
}

proof fn lemma_time_scan_concat(a: Seq<char>, b: Seq<char>, f: TimeFields, buf: Seq<char>)
    ensures
        time_scan(a + b, f, buf) == match time_scan(a, f, buf) {
            None => None,
            Some((f2, buf2)) => time_scan(b, f2, buf2),
        },
    decreases a.len(),
{
    if a.len() == 0 {
        assert(a + b =~= b);
    } else {
        let c = a[0];
        assert((a + b)[0] == c);
        assert((a + b).drop_first() =~= a.drop_first() + b);
        let r = a.drop_first();
        if c == 'H' {
            if let Some(v) = parse_unsigned(buf, u8::MAX as nat) {
                lemma_time_scan_concat(r, b, TimeFields { hour: v as u8, ..f }, Seq::empty());
            }
        } else if c == 'M' {
            if let Some(v) = parse_unsigned(buf, u8::MAX as nat) {
                lemma_time_scan_concat(r, b, TimeFields { minute: v as u8, ..f }, Seq::empty());
            }
        } else if c == 'S' {
            if float_text_ok(buf) {
                lemma_time_scan_concat(r, b, TimeFields { seconds: Some(buf), ..f }, Seq::empty());
            }
        } else if is_digit(c) || c == '.' {
            lemma_time_scan_concat(r, b, f, buf.push(c));
        }
    }
}

/// The characters of a seconds text: digits and dots.
pub open spec fn digits_and_dots(t: Seq<char>) -> bool {
    forall|i: int| 0 <= i < t.len() ==> is_digit(#[trigger] t[i]) || t[i] == '.'
}

proof fn lemma_time_scan_digits(a: Seq<char>, f: TimeFields, buf: Seq<char>)
    requires
        digits_and_dots(a),
    ensures
        time_scan(a, f, buf) == Some((f, buf + a)),
    decreases a.len(),
{
    if a.len() == 0 {
        assert(buf + a =~= buf);
    } else {
        assert(is_digit(a[0]) || a[0] == '.');
        let r = a.drop_first();
        assert forall|i: int| 0 <= i < r.len() implies is_digit(#[trigger] r[i]) || r[i] == '.' by {
            assert(r[i] == a[i + 1]);
        }
        lemma_time_scan_digits(r, f, buf.push(a[0]));
        assert(buf.push(a[0]) + r =~= buf + a);
    }
}

proof fn lemma_index_of_first(s: Seq<char>, c: char, from: int, k: int)
    requires
        0 <= from <= k <= s.len(),
        forall|i: int| from <= i < k ==> s[i] != c,
        k == s.len() || s[k] == c,
    ensures
        index_of_from(s, c, from) == k,
    decreases k - from,
{
    if from < k {
        lemma_index_of_first(s, c, from + 1, k);
    }
}

/// The characters of a part of a duration's text are digits and its unit.
proof fn lemma_part_chars(n: int, unit: char)
    requires
        n >= 0,
    ensures
        forall|i: int|
            0 <= i < spec_part(n, unit).len() ==> is_digit(#[trigger] spec_part(n, unit)[i])
                || spec_part(n, unit)[i] == unit,
{
    if n != 0 {
        lemma_decimal_is_digits(n);
        lemma_digits_read_back(n as nat);
        let p = spec_part(n, unit);
        assert forall|i: int| 0 <= i < p.len() implies is_digit(#[trigger] p[i]) || p[i] == unit by {
            if i < p.len() - 1 {
                assert(p[i] == spec_digits(n as nat)[i]);
            }
        }
    }
}

proof fn lemma_date_part_scan(n: int, unit: char, max: nat, f: DateFields, g: DateFields)
    requires
        0 <= n <= max,
        unit == 'Y' || unit == 'M' || unit == 'D',
        max == (if unit == 'Y' {
            i64::MAX as nat
        } else {
            u8::MAX as nat
        }),
        n == 0 ==> g == f,
        n != 0 && unit == 'Y' ==> g == (DateFields { year: n as i64, ..f }),
        n != 0 && unit == 'M' ==> g == (DateFields { month: n as u8, ..f }),
        n != 0 && unit == 'D' ==> g == (DateFields { day: n as u8, ..f }),
    ensures
        date_scan(spec_part(n, unit), f, Seq::empty()) == Some((g, Seq::<char>::empty())),
{
    if n == 0 {
        assert(spec_part(n, unit) =~= Seq::<char>::empty());
    } else {
        lemma_decimal_is_digits(n);
        let ds = spec_digits(n as nat);
        lemma_digits_read_back(n as nat);
        assert(spec_part(n, unit) =~= ds + seq![unit]);
        lemma_date_scan_concat(ds, seq![unit], f, Seq::empty());
        lemma_date_scan_digits(ds, f, Seq::empty());
        assert(Seq::<char>::empty() + ds =~= ds);
        let one = seq![unit];
        assert(one.drop_first() =~= Seq::<char>::empty());
        assert(parse_unsigned(ds, max) == Some(n as nat));
        assert(date_scan(Seq::<char>::empty(), g, Seq::<char>::empty()) == Some((g, Seq::<char>::empty())));
        assert(date_scan(one, f, ds) == date_scan(one.drop_first(), g, Seq::<char>::empty()));
    }
}

proof fn lemma_time_part_scan(n: int, unit: char, f: TimeFields, g: TimeFields)
    requires
        0 <= n <= u8::MAX,
        unit == 'H' || unit == 'M',
        n == 0 ==> g == f,
        n != 0 && unit == 'H' ==> g == (TimeFields { hour: n as u8, ..f }),
        n != 0 && unit == 'M' ==> g == (TimeFields { minute: n as u8, ..f }),
    ensures
        time_scan(spec_part(n, unit), f, Seq::empty()) == Some((g, Seq::<char>::empty())),
{
    if n == 0 {
        assert(spec_part(n, unit) =~= Seq::<char>::empty());
    } else {
        lemma_decimal_is_digits(n);
        let ds = spec_digits(n as nat);
        lemma_digits_read_back(n as nat);
        assert(spec_part(n, unit) =~= ds + seq![unit]);
        lemma_time_scan_concat(ds, seq![unit], f, Seq::empty());
        assert(digits_and_dots(ds));
        lemma_time_scan_digits(ds, f, Seq::empty());
        assert(Seq::<char>::empty() + ds =~= ds);
        let one = seq![unit];
        assert(one.drop_first() =~= Seq::<char>::empty());
        assert(parse_unsigned(ds, u8::MAX as nat) == Some(n as nat));
        assert(time_scan(Seq::<char>::empty(), g, Seq::<char>::empty()) == Some((g, Seq::<char>::empty())));
        assert(time_scan(one, f, ds) == time_scan(one.drop_first(), g, Seq::<char>::empty()));
    }
}

/// The date part of a duration's text, after the `P`.
pub open spec fn date_text(d: Duration) -> Seq<char> {
    spec_part(d.year as int, 'Y') + spec_part(d.month as int, 'M') + spec_part(d.day as int, 'D')
}

/// The time part of a duration's text, after the `T`.
pub open spec fn time_text(d: Duration, t: Seq<char>) -> Seq<char> {
    spec_part(d.hour as int, 'H') + spec_part(d.minute as int, 'M') + if !f64_bits_is_zero(
        d.second_bits,
    ) {
        t.push('S')
    } else {
        Seq::empty()
    }
}

proof fn lemma_date_text_scans(d: Duration)
    requires
        d.year >= 0,
    ensures
        date_scan(date_text(d), DateFields { year: 0, month: 0, day: 0 }, Seq::empty()) == Some(
            (DateFields { year: d.year, month: d.month, day: d.day }, Seq::<char>::empty()),
        ),
        forall|i: int| 0 <= i < date_text(d).len() ==> #[trigger] date_text(d)[i] != 'T',
        (d.year != 0 || d.month != 0 || d.day != 0) ==> date_text(d).len() > 0,
{
    let py = spec_part(d.year as int, 'Y');
    let pm = spec_part(d.month as int, 'M');
    let pd = spec_part(d.day as int, 'D');
    let date = date_text(d);
    lemma_part_chars(d.year as int, 'Y');
    lemma_part_chars(d.month as int, 'M');
    lemma_part_chars(d.day as int, 'D');
    assert forall|i: int| 0 <= i < date.len() implies #[trigger] date[i] != 'T' by {
        if i < py.len() {
            assert(date[i] == py[i]);
        } else if i < py.len() + pm.len() {
            assert(date[i] == pm[i - py.len()]);
        } else {
            assert(date[i] == pd[i - py.len() - pm.len()]);
        }
    }
    let f0 = DateFields { year: 0, month: 0, day: 0 };
    let f1 = if d.year != 0 {
        DateFields { year: d.year, ..f0 }
    } else {
        f0
    };
    let f2 = if d.month != 0 {
        DateFields { month: d.month, ..f1 }
    } else {
        f1
    };
    let f3 = if d.day != 0 {
        DateFields { day: d.day, ..f2 }
    } else {
        f2
    };
    lemma_date_part_scan(d.year as int, 'Y', i64::MAX as nat, f0, f1);
    lemma_date_part_scan(d.month as int, 'M', u8::MAX as nat, f1, f2);
    lemma_date_part_scan(d.day as int, 'D', u8::MAX as nat, f2, f3);
    lemma_date_scan_concat(py + pm, pd, f0, Seq::empty());
    lemma_date_scan_concat(py, pm, f0, Seq::empty());
    lemma_decimal_is_digits(d.year as int);
    lemma_decimal_is_digits(d.month as int);
    lemma_decimal_is_digits(d.day as int);
    lemma_digits_read_back(d.year as nat);
    lemma_digits_read_back(d.month as nat);
    lemma_digits_read_back(d.day as nat);
}

proof fn lemma_time_text_scans(d: Duration, t: Seq<char>)
    requires
        !f64_bits_is_zero(d.second_bits) ==> digits_and_dots(t) && float_text_ok(t),
    ensures
        time_scan(time_text(d, t), TimeFields { hour: 0, minute: 0, seconds: None }, Seq::empty())
            == Some(
            (
                TimeFields {
                    hour: d.hour,
                    minute: d.minute,
                    seconds: if f64_bits_is_zero(d.second_bits) {
                        None
                    } else {
                        Some(t)
                    },
                },
                Seq::<char>::empty(),
            ),
        ),
        (d.hour != 0 || d.minute != 0 || !f64_bits_is_zero(d.second_bits)) ==> time_text(d, t).len()
            > 0,
{
    let ph = spec_part(d.hour as int, 'H');
    let pmi = spec_part(d.minute as int, 'M');
    let sec = if !f64_bits_is_zero(d.second_bits) {
        t.push('S')
    } else {
        Seq::empty()
    };
    let g0 = TimeFields { hour: 0, minute: 0, seconds: None };
    let g1 = if d.hour != 0 {
        TimeFields { hour: d.hour, ..g0 }
    } else {
        g0
    };
    let g2 = if d.minute != 0 {
        TimeFields { minute: d.minute, ..g1 }
    } else {
        g1
    };
    lemma_time_part_scan(d.hour as int, 'H', g0, g1);
    lemma_time_part_scan(d.minute as int, 'M', g1, g2);
    lemma_time_scan_concat(ph + pmi, sec, g0, Seq::empty());
    lemma_time_scan_concat(ph, pmi, g0, Seq::empty());
    if !f64_bits_is_zero(d.second_bits) {
        let g3 = TimeFields { seconds: Some(t), ..g2 };
        lemma_time_scan_concat(t, seq!['S'], g2, Seq::empty());
        lemma_time_scan_digits(t, g2, Seq::empty());
        assert(Seq::<char>::empty() + t =~= t);
        let one = seq!['S'];
        assert(one.drop_first() =~= Seq::<char>::empty());
        assert(time_scan(Seq::<char>::empty(), g3, Seq::<char>::empty()) == Some((g3, Seq::<char>::empty())));
        assert(time_scan(one, g2, t) == time_scan(one.drop_first(), g3, Seq::<char>::empty()));
        assert(sec =~= t + one);
    } else {
        assert(sec =~= Seq::<char>::empty());
        assert(time_scan(sec, g2, Seq::<char>::empty()) == Some((g2, Seq::<char>::empty())));
    }
    lemma_decimal_is_digits(d.hour as int);
    lemma_decimal_is_digits(d.minute as int);
    lemma_digits_read_back(d.hour as nat);
    lemma_digits_read_back(d.minute as nat);
}

#[verifier::rlimit(60)]
proof fn lemma_unsigned_duration_text_reads_back(d: Duration, t: Seq<char>)
    requires
        d.sign == 1,
        d.year >= 0,
        !f64_bits_is_zero(d.second_bits) ==> digits_and_dots(t) && float_text_ok(t),
        d.year != 0 || d.month != 0 || d.day != 0 || d.hour != 0 || d.minute != 0
            || !f64_bits_is_zero(d.second_bits),
    ensures
        spec_parse_iso_duration(spec_duration_string(d, t)) == Some(
            (DurationTextView {
                sign: 1,
                year: d.year,
                month: d.month,
                day: d.day,
                hour: d.hour,
                minute: d.minute,
                seconds: if f64_bits_is_zero(d.second_bits) {
                    None
                } else {
                    Some(t)
                },
            }),
        ),
{
    let date = date_text(d);
    lemma_date_text_scans(d);
    let s = spec_duration_string(d, t);
    if d.hour == 0 && d.minute == 0 && f64_bits_is_zero(d.second_bits) {
        assert(s =~= seq!['P'] + date);
        let r = s.drop_first();
        assert(r =~= date);
        lemma_index_of_first(r, 'T', 0, r.len() as int);
        assert(r.take(r.len() as int) =~= date);
    } else {
        let time = time_text(d, t);
        lemma_time_text_scans(d, t);
        assert(s =~= seq!['P'] + date + seq!['T'] + time);
        let r = s.drop_first();
        assert(r =~= date + seq!['T'] + time);
        assert(r[date.len() as int] == 'T');
        assert forall|i: int| 0 <= i < date.len() implies r[i] != 'T' by {
            assert(r[i] == date[i]);
        }
        lemma_index_of_first(r, 'T', 0, date.len() as int);
        assert(r.take(date.len() as int) =~= date);
        assert(r.skip(date.len() as int + 1) =~= time);
    }
}

proof fn lemma_parse_negated(s: Seq<char>)
    requires
        s.len() > 0,
        s[0] == 'P',
    ensures
        spec_parse_iso_duration(seq!['-'] + s) == match spec_parse_iso_duration(s) {
            Some(v) => Some(DurationTextView { sign: -1i8, ..v }),
            None => None,
        },
{
    assert((seq!['-'] + s).drop_first() =~= s);
}

/// The text of a duration whose sign is 1 or -1, whose year is not negative,
/// with a part that is not zero and seconds written as digits with at most
/// one dot, parses back to its sign, its parts and the seconds' text.
pub proof fn lemma_duration_text_reads_back(d: Duration, t: Seq<char>)
    requires
        d.sign == 1 || d.sign == -1,
        d.year >= 0,
        !f64_bits_is_zero(d.second_bits) ==> digits_and_dots(t) && float_text_ok(t),
        d.year != 0 || d.month != 0 || d.day != 0 || d.hour != 0 || d.minute != 0
            || !f64_bits_is_zero(d.second_bits),
    ensures
        spec_parse_iso_duration(spec_signed_duration_text(d, t)) == Some(
            (DurationTextView {
                sign: d.sign,
                year: d.year,
                month: d.month,
                day: d.day,
                hour: d.hour,
                minute: d.minute,
                seconds: if f64_bits_is_zero(d.second_bits) {
                    None
                } else {
                    Some(t)
                },
            }),
        ),
{
    let p = Duration { sign: 1, ..d };
    lemma_unsigned_duration_text_reads_back(p, t);
    let s = spec_duration_string(d, t);
    assert(spec_duration_string(p, t) == s);
    if d.sign == 1 {
        assert(spec_signed_duration_text(d, t) =~= s);
    } else {
        assert(spec_signed_duration_text(d, t) =~= seq!['-'] + s);
        lemma_parse_negated(s);
    }
}

/// Whether `s[from..to]`, made of digits and dots, reads as a float.
fn float_text(s: &str, from: usize, to: usize) -> (r: bool)
    requires
        from <= to <= s@.len(),
    ensures
        r == float_text_ok(s@.subrange(from as int, to as int)),
{
    let ghost t = s@.subrange(from as int, to as int);
    let mut dots: usize = 0;
    let mut digit = false;
    let mut first_dot: usize = 0;
    let mut k = from;
    while k < to
        invariant
            from <= k <= to <= s@.len(),
            t == s@.subrange(from as int, to as int),
            dots <= 1,
            dots == 0 ==> forall|i: int| 0 <= i < k - from ==> t[i] != '.',
            dots == 1 ==> from <= first_dot < k && t[first_dot - from] == '.' && forall|i: int|
                0 <= i < k - from && i != first_dot - from ==> t[i] != '.',
            digit == exists|i: int| 0 <= i < k - from && is_digit(#[trigger] t[i]),
        decreases to - k,
    {
        let c = s.get_char(k);
        assert(t[k - from] == c);
        if c == '.' {
            if dots == 1 {
                assert(t[first_dot - from] == '.' && t[k - from] == '.');
                return false;
            }
            dots = 1;
            first_dot = k;
        }
        if '0' <= c && c <= '9' {
            digit = true;
        }
        k = k + 1;
    }
    digit
}

// ---------------------------------------------------------------------------
// Dates and date-times
// ---------------------------------------------------------------------------

pub open spec fn fmt_datetime_fraction() -> Seq<char> {
    "%Y-%m-%dT%H:%M:%S%.f"@
}

pub open spec fn fmt_datetime() -> Seq<char> {
    "%Y-%m-%dT%H:%M:%S"@
}

pub open spec fn fmt_date() -> Seq<char> {
    "%Y-%m-%d"@
}

/// The text ends in exactly one `Z`.
pub open spec fn ends_in_one_z(s: Seq<char>) -> bool {
    s.len() > 0 && s.last() == 'Z' && !(s.len() > 1 && s[s.len() - 2] == 'Z')
}

/// An interval endpoint: Unix seconds, nanoseconds and component type.
#[derive(Clone, Copy, Debug, PartialEq, Eq, Structural)]
pub struct Endpoint {
    pub seconds: i64,
    pub nanos: u32,
    pub component: u8,
}

pub open spec fn datetime_endpoint(c: CivilDateTime) -> Endpoint {
    Endpoint {
        seconds: spec_unix_seconds(c) as i64,
        nanos: c.nano,
        component: INTERVAL_COMPONENT_DATETIME,
    }
}

pub open spec fn midnight(d: CivilDate) -> CivilDateTime {
    CivilDateTime {
        year: d.year,
        month: d.month,
        day: d.day,
        hour: 0,
        minute: 0,
        second: 0,
        nano: 0,
    }
}

pub open spec fn date_endpoint(d: CivilDate) -> Endpoint {
    Endpoint {
        seconds: spec_unix_seconds(midnight(d)) as i64,
        nanos: 0,
        component: INTERVAL_COMPONENT_DATE,
    }
}

/// A text with a `T` is a date-time, which must end in exactly one `Z`; the
/// text before the `Z` is read with fractional seconds, else without. Other
/// texts are dates.
pub open spec fn spec_parse_endpoint(s: Seq<char>) -> Result<Endpoint, ParseErrorView> {
    if index_of_from(s, 'T', 0) < s.len() {
        let t = s.drop_last();
        if !ends_in_one_z(s) {
            Err(ParseErrorView::InvalidDateTime(s))
        } else {
            match spec_chrono_parse_datetime(t, fmt_datetime_fraction()) {
                Some(c) => Ok(datetime_endpoint(c)),
                None => match spec_chrono_parse_datetime(t, fmt_datetime()) {
                    Some(c) => Ok(datetime_endpoint(c)),
                    None => Err(ParseErrorView::InvalidDateTime(s)),
                },
            }
        }
    } else {
        match spec_chrono_parse_date(s, fmt_date()) {
            Some(d) => Ok(date_endpoint(d)),
            None => Err(ParseErrorView::InvalidDate(s)),
        }
    }
}

/// The date-time that an endpoint's timestamp names.
pub open spec fn endpoint_civil(e: Endpoint) -> CivilDateTime {
    spec_civil_from_timestamp(e.seconds as int, e.nanos as int).unwrap()
}

/// An endpoint that its text reads back as: its timestamp names a date-time
/// in the years 0 to 9999, it is a date or a date-time, and a date is at
/// midnight.
pub open spec fn printable_endpoint(e: Endpoint) -> bool {
    &&& names_datetime(e.seconds as int, e.nanos as int)
    &&& 0 <= endpoint_civil(e).year <= 9999
    &&& (e.component == INTERVAL_COMPONENT_DATE || e.component == INTERVAL_COMPONENT_DATETIME)
    &&& e.component == INTERVAL_COMPONENT_DATE ==> {
        &&& e.nanos == 0
        &&& endpoint_civil(e).hour == 0
        &&& endpoint_civil(e).minute == 0
        &&& endpoint_civil(e).second == 0
    }
}

/// The characters of a date's text are digits and `-`, the first a digit.
proof fn lemma_date_text_chars(y: int, m: int, d: int)
    requires
        y >= 0,
        m >= 0,
        d >= 0,
    ensures
        spec_date_text(y, m, d).len() > 0,
        is_digit(spec_date_text(y, m, d)[0]),
        forall|i: int|
            0 <= i < spec_date_text(y, m, d).len() ==> is_digit(#[trigger] spec_date_text(y, m, d)[i])
                || spec_date_text(y, m, d)[i] == '-',
{
    let a = spec_zero_padded(y, 4);
    let b = spec_zero_padded(m, 2);
    let c = spec_zero_padded(d, 2);
    lemma_zero_padded_digits(y, 4);
    lemma_zero_padded_digits(m, 2);
    lemma_zero_padded_digits(d, 2);
    let t = spec_date_text(y, m, d);
    assert(t =~= a + seq!['-'] + b + seq!['-'] + c);
    assert(t[0] == a[0]);
    assert forall|i: int| 0 <= i < t.len() implies is_digit(#[trigger] t[i]) || t[i] == '-' by {
        if i < a.len() {
            assert(t[i] == a[i]);
        } else if i == a.len() {
        } else if i < a.len() + 1 + b.len() {
            assert(t[i] == b[i - a.len() - 1]);
        } else if i == a.len() + 1 + b.len() {
        } else {
            assert(t[i] == c[i - a.len() - 2 - b.len()]);
        }
    }
}

/// The characters of a time's text are digits, `:` and `.`, the last a digit.
proof fn lemma_time_text_chars(t: TimeOfDay)
    requires
        t.valid(),
    ensures
        spec_time_text(t).len() > 0,
        is_digit(spec_time_text(t).last()),
        forall|i: int|
            0 <= i < spec_time_text(t).len() ==> is_digit(#[trigger] spec_time_text(t)[i])
                || spec_time_text(t)[i] == ':' || spec_time_text(t)[i] == '.',
{
    let leap = t.nano >= 1_000_000_000;
    let sec = t.second + (if leap { 1int } else { 0int });
    let n = if leap { t.nano - 1_000_000_000 } else { t.nano as int };
    let a = spec_zero_padded(t.hour as int, 2);
    let b = spec_zero_padded(t.minute as int, 2);
    let c = spec_zero_padded(sec, 2);
    let f = spec_fraction_text(n);
    lemma_zero_padded_digits(t.hour as int, 2);
    lemma_zero_padded_digits(t.minute as int, 2);
    lemma_zero_padded_digits(sec, 2);
    let g = if n == 0 {
        Seq::<char>::empty()
    } else if n % 1_000_000 == 0 {
        spec_zero_padded(n / 1_000_000, 3)
    } else if n % 1_000 == 0 {
        spec_zero_padded(n / 1_000, 6)
    } else {
        spec_zero_padded(n, 9)
    };
    if n != 0 {
        if n % 1_000_000 == 0 {
            lemma_zero_padded_digits(n / 1_000_000, 3);
        } else if n % 1_000 == 0 {
            lemma_zero_padded_digits(n / 1_000, 6);
        } else {
            lemma_zero_padded_digits(n, 9);
        }
        assert(f =~= seq!['.'] + g);
    } else {
        assert(f =~= Seq::<char>::empty());
    }
    let x = spec_time_text(t);
    let head = a + seq![':'] + b + seq![':'] + c;
    assert(x =~= head + f);
    assert forall|i: int| 0 <= i < head.len() implies is_digit(#[trigger] head[i]) || head[i] == ':' by {
        if i < a.len() {
            assert(head[i] == a[i]);
        } else if i == a.len() {
        } else if i < a.len() + 1 + b.len() {
            assert(head[i] == b[i - a.len() - 1]);
        } else if i == a.len() + 1 + b.len() {
        } else {
            assert(head[i] == c[i - a.len() - 2 - b.len()]);
        }
    }
    assert forall|i: int| 0 <= i < f.len() implies is_digit(#[trigger] f[i]) || f[i] == '.' by {
        if i > 0 {
            assert(f[i] == g[i - 1]);
        }
    }
    assert forall|i: int| 0 <= i < x.len() implies is_digit(#[trigger] x[i]) || x[i] == ':' || x[i] == '.' by {
        if i < head.len() {
            assert(x[i] == head[i]);
        } else {
            assert(x[i] == f[i - head.len()]);
        }
    }
    if n == 0 {
        assert(x.last() == c.last());
    } else {
        assert(x.last() == g.last());
    }
}

/// The shape of a printable endpoint's text: no `/`, a digit first; a date
/// has no `T`; a date-time has a `T`, ends in exactly one `Z`, and before
/// the `Z` is the date-time's text.
proof fn lemma_endpoint_text_shape(e: Endpoint)
    requires
        printable_endpoint(e),
    ensures
        ({
            let c = endpoint_civil(e);
            let x = spec_endpoint_text(c, e.component);
            &&& c.valid()
            &&& spec_unix_seconds(c) == e.seconds
            &&& c.nano == e.nanos
            &&& x.len() > 0
            &&& is_digit(x[0])
            &&& forall|i: int| 0 <= i < x.len() ==> #[trigger] x[i] != '/'
            &&& e.component == INTERVAL_COMPONENT_DATE ==> index_of_from(x, 'T', 0) >= x.len()
            &&& e.component != INTERVAL_COMPONENT_DATE ==> {
                &&& index_of_from(x, 'T', 0) < x.len()
                &&& ends_in_one_z(x)
                &&& x.drop_last() == spec_datetime_text(c)
            }
        }),
{
    lemma_names_datetime(e.seconds as int, e.nanos as int);
    let c = endpoint_civil(e);
    let x = spec_endpoint_text(c, e.component);
    let dt = spec_date_text(c.year as int, c.month as int, c.day as int);
    lemma_date_text_chars(c.year as int, c.month as int, c.day as int);
    if e.component == INTERVAL_COMPONENT_DATE {
        assert(x == dt);
        assert forall|i: int| 0 <= i < x.len() implies #[trigger] x[i] != '/' by {
            assert(is_digit(x[i]) || x[i] == '-');
        }
        assert forall|i: int| 0 <= i < x.len() implies x[i] != 'T' by {
            assert(is_digit(x[i]) || x[i] == '-');
        }
        lemma_index_of_first(x, 'T', 0, x.len() as int);
    } else {
        let tt = spec_time_text(time_of(c));
        lemma_time_text_chars(time_of(c));
        assert(x =~= dt + seq!['T'] + tt + seq!['Z']);
        assert(x[0] == dt[0]);
        assert forall|i: int| 0 <= i < x.len() implies #[trigger] x[i] != '/' by {
            if i < dt.len() {
                assert(x[i] == dt[i]);
            } else if i == dt.len() {
            } else if i < dt.len() + 1 + tt.len() {
                assert(x[i] == tt[i - dt.len() - 1]);
            }
        }
        assert forall|i: int| 0 <= i < dt.len() implies x[i] != 'T' by {
            assert(x[i] == dt[i]);
        }
        lemma_index_of_first(x, 'T', 0, dt.len() as int);
        assert(x[x.len() - 2] == tt.last());
        assert(x.drop_last() =~= spec_datetime_text(c));
    }
}

/// Parses a date (`YYYY-MM-DD`) or a date-time (`YYYY-MM-DDTHH:MM:SS[.fff]Z`).
///
/// The text of a printable endpoint reads back as that endpoint.
pub fn parse_date_or_datetime(s: &str) -> (r: Result<Endpoint, IntervalParseError>)
    ensures
        match spec_parse_endpoint(s@) {
            Ok(e) => r matches Ok(x) && x == e,
            Err(v) => r matches Err(x) && x@ == v,
        },
        forall|e: Endpoint|
            printable_endpoint(e) && s@ == #[trigger] spec_endpoint_text(endpoint_civil(e), e.component)
                ==> (r matches Ok(x) && x == e),
{
    proof {
        reveal_strlit("%Y-%m-%dT%H:%M:%S%.f");
        reveal_strlit("%Y-%m-%dT%H:%M:%S");
        reveal_strlit("%Y-%m-%d");
    }
    let n = s.unicode_len();
    if find_char(s, 'T', 0) < n {
        let one_z = n > 0 && s.get_char(n - 1) == 'Z' && !(n > 1 && s.get_char(n - 2) == 'Z');
        if !one_z {
            proof {
                assert forall|e: Endpoint|
                    printable_endpoint(e) && s@ == #[trigger] spec_endpoint_text(
                        endpoint_civil(e),
                        e.component,
                    ) implies false by {
                    lemma_endpoint_text_shape(e);
                }
            }
            return Err(IntervalParseError::InvalidDateTime(String::from_str(s)));
        }
        let trimmed = s.substring_char(0, n - 1);
        assert(trimmed@ =~= s@.drop_last());
        let first = chrono_parse_datetime(trimmed, "%Y-%m-%dT%H:%M:%S%.f");
        let parsed = match first {
            Some(c) => Some(c),
            None => chrono_parse_datetime(trimmed, "%Y-%m-%dT%H:%M:%S"),
        };
        let result = match parsed {
            Some(c) => Ok(
                Endpoint {
                    seconds: chrono_timestamp(&c),
                    nanos: c.nano,
                    component: INTERVAL_COMPONENT_DATETIME,
                },
            ),
            None => Err(IntervalParseError::InvalidDateTime(String::from_str(s))),
        };
        proof {
            assert forall|e: Endpoint|
                printable_endpoint(e) && s@ == #[trigger] spec_endpoint_text(
                    endpoint_civil(e),
                    e.component,
                ) implies (result matches Ok(x) && x == e) by {
                lemma_endpoint_text_shape(e);
                let c = endpoint_civil(e);
                assert(trimmed@ == spec_datetime_text(c));
                assert(first == Some(c));
            }
        }
        result
    } else {
        let parsed = chrono_parse_date(s, "%Y-%m-%d");
        let result = match parsed {
            Some(d) => {
                let c = CivilDateTime {
                    year: d.year,
                    month: d.month,
                    day: d.day,
                    hour: 0,
                    minute: 0,
                    second: 0,
                    nano: 0,
                };
                Ok(
                    Endpoint {
                        seconds: chrono_timestamp(&c),
                        nanos: 0,
                        component: INTERVAL_COMPONENT_DATE,
                    },
                )
            },
            None => Err(IntervalParseError::InvalidDate(String::from_str(s))),
        };
        proof {
            assert forall|e: Endpoint|
                printable_endpoint(e) && s@ == #[trigger] spec_endpoint_text(
                    endpoint_civil(e),
                    e.component,
                ) implies (result matches Ok(x) && x == e) by {
                lemma_endpoint_text_shape(e);
                let c = endpoint_civil(e);
                let d = CivilDate { year: c.year, month: c.month, day: c.day };
                assert(s@ == spec_date_text(d.year as int, d.month as int, d.day as int));
                assert(parsed == Some(d));
                assert(c == CivilDateTime {
                    year: d.year,
                    month: d.month,
                    day: d.day,
                    hour: 0,
                    minute: 0,
                    second: 0,
                    nano: 0,
                });
            }
        }
        result
    }
}

// ---------------------------------------------------------------------------
// Intervals
// ---------------------------------------------------------------------------

/// A text that starts a duration: `P` or `-P`.
pub open spec fn is_duration_text(t: Seq<char>) -> bool {
    (t.len() >= 1 && t[0] == 'P') || (t.len() >= 2 && t[0] == '-' && t[1] == 'P')
}

fn starts_duration(t: &str) -> (r: bool)
    ensures
        r == is_duration_text(t@),
{
    let n = t.unicode_len();
    (n >= 1 && t.get_char(0) == 'P') || (n >= 2 && t.get_char(0) == '-' && t.get_char(1) == 'P')
}

/// A parsed interval text, before the duration's seconds are read as a float.
#[derive(Debug)]
pub enum IntervalForm {
    Explicit { start: Endpoint, end: Endpoint },
    StartDuration { start: Endpoint, duration: DurationText },
    DurationEnd { duration: DurationText, end: Endpoint },
}

pub enum IntervalFormView {
    Explicit { start: Endpoint, end: Endpoint },
    StartDuration { start: Endpoint, duration: DurationTextView },
    DurationEnd { duration: DurationTextView, end: Endpoint },
}

impl View for IntervalForm {
    type V = IntervalFormView;

    open spec fn view(&self) -> IntervalFormView {
        match self {
            IntervalForm::Explicit { start, end } => IntervalFormView::Explicit {
                start: *start,
                end: *end,
            },
            IntervalForm::StartDuration { start, duration } => IntervalFormView::StartDuration {
                start: *start,
                duration: duration@,
            },
            IntervalForm::DurationEnd { duration, end } => IntervalFormView::DurationEnd {
                duration: duration@,
                end: *end,
            },
        }
    }
}

/// The form of an interval text: the text up to the first `/` and the text
/// after it are each a duration (starting `P` or `-P`) or an endpoint. Two
/// durations are refused; a duration is read before the endpoint with it;
/// with two endpoints the start is read first.
pub open spec fn spec_parse_interval_form(s: Seq<char>) -> Result<IntervalFormView, ParseErrorView> {
    if s.len() == 0 {
        Err(ParseErrorView::Empty)
    } else {
        let k = index_of_from(s, '/', 0);
        if k >= s.len() {
            Err(ParseErrorView::MissingSeparator(s))
        } else {
            let left = s.take(k);
            let right = s.skip(k + 1);
            let ld = is_duration_text(left);
            let rd = is_duration_text(right);
            if ld && rd {
                Err(ParseErrorView::TwoDurations(s))
            } else if ld {
                match spec_parse_iso_duration(left) {
                    None => Err(ParseErrorView::InvalidDuration(left)),
                    Some(d) => match spec_parse_endpoint(right) {
                        Err(e) => Err(e),
                        Ok(end) => Ok(IntervalFormView::DurationEnd { duration: d, end }),
                    },
                }
            } else if rd {
                match spec_parse_endpoint(left) {
                    Err(e) => Err(e),
                    Ok(start) => match spec_parse_iso_duration(right) {
                        None => Err(ParseErrorView::InvalidDuration(right)),
                        Some(d) => Ok(IntervalFormView::StartDuration { start, duration: d }),
                    },
                }
            } else {
                match spec_parse_endpoint(left) {
                    Err(e) => Err(e),
                    Ok(start) => match spec_parse_endpoint(right) {
                        Err(e) => Err(e),
                        Ok(end) => Ok(IntervalFormView::Explicit { start, end }),
                    },
                }
            }
        }
    }
}

/// Parses an ISO 8601 interval text into its form.
pub fn parse_interval_form(s: &str) -> (r: Result<IntervalForm, IntervalParseError>)
    ensures
        match spec_parse_interval_form(s@) {
            Ok(v) => r matches Ok(x) && x@ == v,
            Err(v) => r matches Err(x) && x@ == v,
        },
        forall|f: IntervalFormView, sv: SecondsValue, iv: DateTimeInterval, t: Seq<char>|
            #[trigger] printed_interval(f, sv, iv, t, s@) ==> (r matches Ok(x)
                && spec_complete_interval(x@, sv, iv)),
{
    let n = s.unicode_len();
    if n == 0 {
        proof {
            assert forall|f: IntervalFormView, sv: SecondsValue, iv: DateTimeInterval, t: Seq<char>|
                #[trigger] printed_interval(f, sv, iv, t, s@) implies false by {
                lemma_printed_interval_shape(f, sv, iv, t, s@);
            }
        }
        return Err(IntervalParseError::Empty);
    }
    let k = find_char(s, '/', 0);
    if k >= n {
        proof {
            assert forall|f: IntervalFormView, sv: SecondsValue, iv: DateTimeInterval, t: Seq<char>|
                #[trigger] printed_interval(f, sv, iv, t, s@) implies false by {
                lemma_printed_interval_shape(f, sv, iv, t, s@);
            }
        }
        return Err(IntervalParseError::MissingSeparator(String::from_str(s)));
    }
    let left = s.substring_char(0, k);
    let right = s.substring_char(k + 1, n);
    assert(left@ =~= s@.take(k as int));
    assert(right@ =~= s@.skip(k + 1));
    let ld = starts_duration(left);
    let rd = starts_duration(right);
    if ld && rd {
        proof {
            assert forall|f: IntervalFormView, sv: SecondsValue, iv: DateTimeInterval, t: Seq<char>|
                #[trigger] printed_interval(f, sv, iv, t, s@) implies false by {
                lemma_printed_interval_shape(f, sv, iv, t, s@);
            }
        }
        return Err(IntervalParseError::TwoDurations(String::from_str(s)));
    }
    if ld {
        let duration = match parse_iso_duration(left) {
            Ok(d) => d,
            Err(e) => {
                proof {
                    assert forall|f: IntervalFormView, sv: SecondsValue, iv: DateTimeInterval, t: Seq<char>|
                        #[trigger] printed_interval(f, sv, iv, t, s@) implies false by {
                        lemma_printed_interval_shape(f, sv, iv, t, s@);
                    }
                }
                return Err(e);
            },
        };
        let result = match parse_date_or_datetime(right) {
            Ok(end) => Ok(IntervalForm::DurationEnd { duration, end }),
            Err(e) => Err(e),
        };
        proof {
            assert forall|f: IntervalFormView, sv: SecondsValue, iv: DateTimeInterval, t: Seq<char>|
                #[trigger] printed_interval(f, sv, iv, t, s@) implies (result matches Ok(x)
                    && spec_complete_interval(x@, sv, iv)) by {
                lemma_printed_interval_shape(f, sv, iv, t, s@);
                lemma_printed_completes(f, sv, iv, t, s@);
            }
        }
        result
    } else if rd {
        let start = match parse_date_or_datetime(left) {
            Ok(e) => e,
            Err(e) => {
                proof {
                    assert forall|f: IntervalFormView, sv: SecondsValue, iv: DateTimeInterval, t: Seq<char>|
                        #[trigger] printed_interval(f, sv, iv, t, s@) implies false by {
                        lemma_printed_interval_shape(f, sv, iv, t, s@);
                    }
                }
                return Err(e);
            },
        };
        let result = match parse_iso_duration(right) {
            Ok(duration) => Ok(IntervalForm::StartDuration { start, duration }),
            Err(e) => Err(e),
        };
        proof {
            assert forall|f: IntervalFormView, sv: SecondsValue, iv: DateTimeInterval, t: Seq<char>|
                #[trigger] printed_interval(f, sv, iv, t, s@) implies (result matches Ok(x)
                    && spec_complete_interval(x@, sv, iv)) by {
                lemma_printed_interval_shape(f, sv, iv, t, s@);
                lemma_printed_completes(f, sv, iv, t, s@);
            }
        }
        result
    } else {
        let start = match parse_date_or_datetime(left) {
            Ok(e) => e,
            Err(e) => {
                proof {
                    assert forall|f: IntervalFormView, sv: SecondsValue, iv: DateTimeInterval, t: Seq<char>|
                        #[trigger] printed_interval(f, sv, iv, t, s@) implies false by {
                        lemma_printed_interval_shape(f, sv, iv, t, s@);
                    }
                }
                return Err(e);
            },
        };
        let result = match parse_date_or_datetime(right) {
            Ok(end) => Ok(IntervalForm::Explicit { start, end }),
            Err(e) => Err(e),
        };
        proof {
            assert forall|f: IntervalFormView, sv: SecondsValue, iv: DateTimeInterval, t: Seq<char>|
                #[trigger] printed_interval(f, sv, iv, t, s@) implies (result matches Ok(x)
                    && spec_complete_interval(x@, sv, iv)) by {
                lemma_printed_interval_shape(f, sv, iv, t, s@);
                lemma_printed_completes(f, sv, iv, t, s@);
            }
        }
        result
    }
}

/// The duration of a parsed duration text whose seconds have the given value.
pub open spec fn duration_of(d: DurationTextView, seconds: SecondsValue) -> Duration {
    Duration {
        sign: d.sign,
        year: d.year,
        month: d.month,
        day: d.day,
        hour: d.hour,
        minute: d.minute,
        second_bits: seconds.bits,
    }
}

/// Completing the interval overflows nowhere.
pub open spec fn spec_complete_defined(form: IntervalFormView, seconds: SecondsValue) -> bool {
    match form {
        IntervalFormView::Explicit { start, end } => in_i64(end.seconds - start.seconds),
        IntervalFormView::StartDuration { start, duration } => {
            let d = duration_of(duration, seconds);
            spec_shift_defined(
                d,
                seconds.whole,
                seconds.frac_nanos,
                forward_sign(d),
                start.seconds,
                start.nanos,
            )
        },
        IntervalFormView::DurationEnd { duration, end } => {
            let d = duration_of(duration, seconds);
            spec_shift_defined(
                d,
                seconds.whole,
                seconds.frac_nanos,
                backward_sign(d),
                end.seconds,
                end.nanos,
            )
        },
    }
}

/// The interval of a parsed form. Explicit: the endpoints as given, the flag
/// `INTERVAL_FLAG_EXPLICIT` and the duration between them. Start and
/// duration: the end computed from them, with the start's component type.
/// Duration and end: the start computed from them, with the end's type.
pub open spec fn spec_complete_interval(
    form: IntervalFormView,
    seconds: SecondsValue,
    iv: DateTimeInterval,
) -> bool {
    match form {
        IntervalFormView::Explicit { start, end } => {
            let (sign, day, hour, minute, second) = spec_duration_from_endpoints(
                start.seconds,
                end.seconds,
            );
            &&& iv.start_seconds == start.seconds
            &&& iv.start_nanos == start.nanos
            &&& iv.end_seconds == end.seconds
            &&& iv.end_nanos == end.nanos
            &&& iv.start_type == start.component
            &&& iv.end_type == end.component
            &&& iv.flag == INTERVAL_FLAG_EXPLICIT
            &&& iv.duration.sign == sign
            &&& iv.duration.year == 0
            &&& iv.duration.month == 0
            &&& iv.duration.day == day
            &&& iv.duration.hour == hour
            &&& iv.duration.minute == minute
            &&& f64_bits_denote(iv.duration.second_bits as nat, second as nat)
        },
        IntervalFormView::StartDuration { start, duration } => {
            let d = duration_of(duration, seconds);
            let (es, en) = spec_shift(
                d,
                seconds.whole,
                seconds.frac_nanos,
                forward_sign(d),
                start.seconds,
                start.nanos,
            );
            iv == DateTimeInterval {
                start_seconds: start.seconds,
                start_nanos: start.nanos,
                end_seconds: es,
                end_nanos: en,
                start_type: start.component,
                end_type: start.component,
                flag: INTERVAL_FLAG_START_DURATION,
                duration: d,
            }
        },
        IntervalFormView::DurationEnd { duration, end } => {
            let d = duration_of(duration, seconds);
            let (ss, sn) = spec_shift(
                d,
                seconds.whole,
                seconds.frac_nanos,
                backward_sign(d),
                end.seconds,
                end.nanos,
            );
            iv == DateTimeInterval {
                start_seconds: ss,
                start_nanos: sn,
                end_seconds: end.seconds,
                end_nanos: end.nanos,
                start_type: end.component,
                end_type: end.component,
                flag: INTERVAL_FLAG_DURATION_END,
                duration: d,
            }
        },
    }
}

fn duration_from_text(d: &DurationText, seconds: SecondsValue) -> (r: Duration)
    ensures
        r == duration_of(d@, seconds),
{
    Duration {
        sign: d.sign,
        year: d.year,
        month: d.month,
        day: d.day,
        hour: d.hour,
        minute: d.minute,
        second_bits: seconds.bits,
    }
}

/// Completes a parsed interval. `seconds` is the value of the duration's
/// seconds text (`SecondsValue::zero()` when it has none); an explicit
/// interval does not use it.
pub fn complete_interval(form: &IntervalForm, seconds: SecondsValue) -> (iv: DateTimeInterval)
    requires
        spec_complete_defined(form@, seconds),
    ensures
        spec_complete_interval(form@, seconds, iv),
{
    match form {
        IntervalForm::Explicit { start, end } => {
            let duration = compute_duration_from_endpoints(
                start.seconds,
                start.nanos,
                end.seconds,
                end.nanos,
            );
            DateTimeInterval {
                start_seconds: start.seconds,
                start_nanos: start.nanos,
                end_seconds: end.seconds,
                end_nanos: end.nanos,
                start_type: start.component,
                end_type: end.component,
                flag: INTERVAL_FLAG_EXPLICIT,
                duration,
            }
        },
        IntervalForm::StartDuration { start, duration } => {
            let d = duration_from_text(duration, seconds);
            let (end_seconds, end_nanos) = compute_end_from_start_and_duration(
                &d,
                seconds.whole,
                seconds.frac_nanos,
                start.seconds,
                start.nanos,
            );
            DateTimeInterval {
                start_seconds: start.seconds,
                start_nanos: start.nanos,
                end_seconds,
                end_nanos,
                start_type: start.component,
                end_type: start.component,
                flag: INTERVAL_FLAG_START_DURATION,
                duration: d,
            }
        },
        IntervalForm::DurationEnd { duration, end } => {
            let d = duration_from_text(duration, seconds);
            let (start_seconds, start_nanos) = compute_start_from_duration_and_end(
                &d,
                seconds.whole,
                seconds.frac_nanos,
                end.seconds,
                end.nanos,
            );
            DateTimeInterval {
                start_seconds,
                start_nanos,
                end_seconds: end.seconds,
                end_nanos: end.nanos,
                start_type: end.component,
                end_type: end.component,
                flag: INTERVAL_FLAG_DURATION_END,
                duration: d,
            }
        },
    }
}

/// Whether completing a parsed interval overflows nowhere.
pub fn complete_interval_is_defined(form: &IntervalForm, seconds: SecondsValue) -> (r: bool)
    ensures
        r == spec_complete_defined(form@, seconds),
{
    match form {
        IntervalForm::Explicit { start, end } => {
            let diff = end.seconds as i128 - start.seconds as i128;
            diff >= i64::MIN as i128 && diff <= i64::MAX as i128
        },
        IntervalForm::StartDuration { start, duration } => {
            let d = duration_from_text(duration, seconds);
            shift_is_defined(&d, seconds.whole, seconds.frac_nanos, false, start.seconds, start.nanos)
        },
        IntervalForm::DurationEnd { duration, end } => {
            let d = duration_from_text(duration, seconds);
            shift_is_defined(&d, seconds.whole, seconds.frac_nanos, true, end.seconds, end.nanos)
        },
    }
}

// ---------------------------------------------------------------------------
// Reading back the text of an interval
// ---------------------------------------------------------------------------

/// A duration whose signed text reads back: sign 1 or -1, a year that is not
/// negative, a part that is not zero, and seconds (when not zero) written as
/// `t`, digits with at most one dot.
pub open spec fn printable_duration(d: Duration, t: Seq<char>) -> bool {
    &&& (d.sign == 1 || d.sign == -1)
    &&& d.year >= 0
    &&& (d.year != 0 || d.month != 0 || d.day != 0 || d.hour != 0 || d.minute != 0
        || !f64_bits_is_zero(d.second_bits))
    &&& !f64_bits_is_zero(d.second_bits) ==> digits_and_dots(t) && float_text_ok(t)
}

/// The parsed form of a duration's signed text.
pub open spec fn duration_view(d: Duration, t: Seq<char>) -> DurationTextView {
    DurationTextView {
        sign: d.sign,
        year: d.year,
        month: d.month,
        day: d.day,
        hour: d.hour,
        minute: d.minute,
        seconds: if f64_bits_is_zero(d.second_bits) {
            None
        } else {
            Some(t)
        },
    }
}

pub open spec fn start_endpoint(iv: DateTimeInterval) -> Endpoint {
    Endpoint { seconds: iv.start_seconds, nanos: iv.start_nanos, component: iv.start_type }
}

pub open spec fn end_endpoint(iv: DateTimeInterval) -> Endpoint {
    Endpoint { seconds: iv.end_seconds, nanos: iv.end_nanos, component: iv.end_type }
}

/// The text of an interval: its endpoints as the date-times their
/// timestamps name, and the duration's seconds written as `t`.
pub open spec fn printed_text(iv: DateTimeInterval, t: Seq<char>) -> Seq<char> {
    spec_interval_text(iv, endpoint_civil(start_endpoint(iv)), endpoint_civil(end_endpoint(iv)), t)
}

/// `text` is the text of the interval `iv` completed from the form `f` with
/// the seconds value `sv`, where every part that the text shows reads back:
/// both timestamps name date-times, the endpoints shown are printable, and
/// so is the duration when it is shown.
pub open spec fn printed_interval(
    f: IntervalFormView,
    sv: SecondsValue,
    iv: DateTimeInterval,
    t: Seq<char>,
    text: Seq<char>,
) -> bool {
    &&& spec_complete_interval(f, sv, iv)
    &&& names_datetime(iv.start_seconds as int, iv.start_nanos as int)
    &&& names_datetime(iv.end_seconds as int, iv.end_nanos as int)
    &&& match f {
        IntervalFormView::Explicit { .. } => printable_endpoint(start_endpoint(iv))
            && printable_endpoint(end_endpoint(iv)),
        IntervalFormView::StartDuration { .. } => printable_endpoint(start_endpoint(iv))
            && printable_duration(iv.duration, t),
        IntervalFormView::DurationEnd { .. } => printable_endpoint(end_endpoint(iv))
            && printable_duration(iv.duration, t),
    }
    &&& text == printed_text(iv, t)
}

/// The characters of a duration's signed text: no `/`, and it starts a
/// duration.
proof fn lemma_duration_text_shape(d: Duration, t: Seq<char>)
    requires
        printable_duration(d, t),
    ensures
        is_duration_text(spec_signed_duration_text(d, t)),
        forall|i: int|
            0 <= i < spec_signed_duration_text(d, t).len() ==> #[trigger] spec_signed_duration_text(
                d,
                t,
            )[i] != '/',
{
    let x = spec_signed_duration_text(d, t);
    let pre: Seq<char> = if d.sign < 0 {
        seq!['-']
    } else {
        Seq::empty()
    };
    let u = spec_duration_string(d, t);
    let date = date_text(d);
    let time = time_text(d, t);
    lemma_part_chars(d.year as int, 'Y');
    lemma_part_chars(d.month as int, 'M');
    lemma_part_chars(d.day as int, 'D');
    lemma_part_chars(d.hour as int, 'H');
    lemma_part_chars(d.minute as int, 'M');
    let py = spec_part(d.year as int, 'Y');
    let pm = spec_part(d.month as int, 'M');
    let pd = spec_part(d.day as int, 'D');
    let ph = spec_part(d.hour as int, 'H');
    let pmi = spec_part(d.minute as int, 'M');
    let sec: Seq<char> = if !f64_bits_is_zero(d.second_bits) {
        t.push('S')
    } else {
        Seq::empty()
    };
    assert forall|i: int| 0 <= i < date.len() implies #[trigger] date[i] != '/' by {
        if i < py.len() {
            assert(date[i] == py[i]);
        } else if i < py.len() + pm.len() {
            assert(date[i] == pm[i - py.len()]);
        } else {
            assert(date[i] == pd[i - py.len() - pm.len()]);
        }
    }
    assert forall|i: int| 0 <= i < time.len() implies #[trigger] time[i] != '/' by {
        if i < ph.len() {
            assert(time[i] == ph[i]);
        } else if i < ph.len() + pmi.len() {
            assert(time[i] == pmi[i - ph.len()]);
        } else {
            let j = i - ph.len() - pmi.len();
            assert(time[i] == sec[j]);
            if j < t.len() {
                assert(sec[j] == t[j]);
            }
        }
    }
    if d.hour == 0 && d.minute == 0 && f64_bits_is_zero(d.second_bits) {
        assert(u =~= seq!['P'] + date);
        assert forall|i: int| 0 <= i < u.len() implies #[trigger] u[i] != '/' by {
            if i > 0 {
                assert(u[i] == date[i - 1]);
            }
        }
    } else {
        assert(u =~= seq!['P'] + date + seq!['T'] + time);
        assert forall|i: int| 0 <= i < u.len() implies #[trigger] u[i] != '/' by {
            if 0 < i <= date.len() {
                assert(u[i] == date[i - 1]);
            } else if i > date.len() + 1 {
                assert(u[i] == time[i - date.len() - 2]);
            }
        }
    }
    assert(x =~= pre + u);
    assert forall|i: int| 0 <= i < x.len() implies #[trigger] x[i] != '/' by {
        if i >= pre.len() {
            assert(x[i] == u[i - pre.len()]);
        }
    }
    if d.sign < 0 {
        assert(x[1] == u[0]);
    }
}

/// The text of a printed interval splits at its first `/` into the texts
/// of what it shows, and each reads back.
#[verifier::rlimit(50)]
proof fn lemma_printed_interval_shape(
    f: IntervalFormView,
    sv: SecondsValue,
    iv: DateTimeInterval,
    t: Seq<char>,
    text: Seq<char>,
)
    requires
        printed_interval(f, sv, iv, t, text),
    ensures
        ({
            let sx = spec_endpoint_text(endpoint_civil(start_endpoint(iv)), iv.start_type);
            let ex = spec_endpoint_text(endpoint_civil(end_endpoint(iv)), iv.end_type);
            let dx = spec_signed_duration_text(iv.duration, t);
            let left = match f {
                IntervalFormView::DurationEnd { .. } => dx,
                _ => sx,
            };
            let right = match f {
                IntervalFormView::StartDuration { .. } => dx,
                _ => ex,
            };
            &&& text.len() > 0
            &&& index_of_from(text, '/', 0) == left.len()
            &&& left.len() < text.len()
            &&& text.take(left.len() as int) == left
            &&& text.skip(left.len() as int + 1) == right
            &&& match f {
                IntervalFormView::Explicit { .. } => !is_duration_text(sx) && !is_duration_text(ex),
                IntervalFormView::StartDuration { .. } => !is_duration_text(sx) && is_duration_text(dx)
                    && spec_parse_iso_duration(dx) == Some(duration_view(iv.duration, t)),
                IntervalFormView::DurationEnd { .. } => is_duration_text(dx) && !is_duration_text(ex)
                    && spec_parse_iso_duration(dx) == Some(duration_view(iv.duration, t)),
            }
        }),
{
    let sx = spec_endpoint_text(endpoint_civil(start_endpoint(iv)), iv.start_type);
    let ex = spec_endpoint_text(endpoint_civil(end_endpoint(iv)), iv.end_type);
    let dx = spec_signed_duration_text(iv.duration, t);
    let (left, right) = match f {
        IntervalFormView::Explicit { .. } => {
            lemma_endpoint_text_shape(start_endpoint(iv));
            lemma_endpoint_text_shape(end_endpoint(iv));
            (sx, ex)
        },
        IntervalFormView::StartDuration { .. } => {
            lemma_endpoint_text_shape(start_endpoint(iv));
            lemma_duration_text_shape(iv.duration, t);
            lemma_duration_text_reads_back(iv.duration, t);
            (sx, dx)
        },
        IntervalFormView::DurationEnd { .. } => {
            lemma_endpoint_text_shape(end_endpoint(iv));
            lemma_duration_text_shape(iv.duration, t);
            lemma_duration_text_reads_back(iv.duration, t);
            (dx, ex)
        },
    };
    assert(text =~= left + seq!['/'] + right);
    assert forall|i: int| 0 <= i < left.len() implies text[i] != '/' by {
        assert(text[i] == left[i]);
    }
    lemma_index_of_first(text, '/', 0, left.len() as int);
    assert(text.take(left.len() as int) =~= left);
    assert(text.skip(left.len() as int + 1) =~= right);
}

/// Completing the form that a printed interval's text reads back as, with
/// the same seconds value, gives the interval.
proof fn lemma_printed_completes(
    f: IntervalFormView,
    sv: SecondsValue,
    iv: DateTimeInterval,
    t: Seq<char>,
    text: Seq<char>,
)
    requires
        printed_interval(f, sv, iv, t, text),
    ensures
        match f {
            IntervalFormView::Explicit { .. } => spec_complete_interval(
                (IntervalFormView::Explicit { start: start_endpoint(iv), end: end_endpoint(iv) }),
                sv,
                iv,
            ),
            IntervalFormView::StartDuration { .. } => spec_complete_interval(
                (IntervalFormView::StartDuration {
                    start: start_endpoint(iv),
                    duration: duration_view(iv.duration, t),
                }),
                sv,
                iv,
            ),
            IntervalFormView::DurationEnd { .. } => spec_complete_interval(
                (IntervalFormView::DurationEnd {
                    duration: duration_view(iv.duration, t),
                    end: end_endpoint(iv),
                }),
                sv,
                iv,
            ),
        },
{
    match f {
        IntervalFormView::Explicit { start, end } => {
            assert(start == start_endpoint(iv));
            assert(end == end_endpoint(iv));
        },
        IntervalFormView::StartDuration { start, duration } => {
            assert(start == start_endpoint(iv));
            assert(duration_of(duration_view(iv.duration, t), sv) == duration_of(duration, sv));
        },
        IntervalFormView::DurationEnd { duration, end } => {
            assert(end == end_endpoint(iv));
            assert(duration_of(duration_view(iv.duration, t), sv) == duration_of(duration, sv));
        },
    }
}

// ---------------------------------------------------------------------------
// Reading the text of a time of day
// ---------------------------------------------------------------------------

/// 10 to the power `k`.
pub open spec fn pow10(k: nat) -> nat
    decreases k,
{
    if k == 0 {
        1
    } else {
        10 * pow10((k - 1) as nat)
    }
}

proof fn lemma_decimal_concat(a: Seq<char>, b: Seq<char>)
    ensures
        decimal_value(a + b) == decimal_value(a) * pow10(b.len()) + decimal_value(b),
    decreases b.len(),
{
    if b.len() == 0 {
        assert(a + b =~= a);
        assert(decimal_value(b) == 0);
        assert(pow10(0) == 1);
    } else {
        let ab = a + b;
        assert(ab.drop_last() =~= a + b.drop_last());
        assert(ab.last() == b.last());
        lemma_decimal_concat(a, b.drop_last());
        let da = decimal_value(a);
        let p = pow10((b.len() - 1) as nat);
        let db = decimal_value(b.drop_last());
        assert(pow10(b.len()) == 10 * p);
        assert(decimal_value(ab) == decimal_value(ab.drop_last()) * 10 + digit_value(ab.last()));
        assert(decimal_value(b) == db * 10 + digit_value(b.last()));
        assert((da * p + db) * 10 == da * (10 * p) + db * 10) by (nonlinear_arith);
    }
}

proof fn lemma_zeros_value(k: nat)
    ensures
        all_digits(zeros(k)),
        decimal_value(zeros(k)) == 0,
    decreases k,
{
    if k > 0 {
        assert(zeros(k).drop_last() =~= zeros((k - 1) as nat));
        lemma_zeros_value((k - 1) as nat);
    }
}

proof fn lemma_digits_len_pow(n: nat, k: nat)
    requires
        n < pow10(k),
        k >= 1,
    ensures
        spec_digits(n).len() <= k,
    decreases n,
{
    if n >= 10 {
        assert(k >= 2) by {
            if k == 1 {
                assert(pow10(1) == 10) by {
                    reveal_with_fuel(pow10, 2);
                }
            }
        }
        assert(n / 10 < pow10((k - 1) as nat));
        lemma_digits_len_pow(n / 10, (k - 1) as nat);
    }
}

/// A number below 10^w, zero-padded to `w` digits, is exactly `w` digits
/// that read back as the number.
proof fn lemma_zero_padded_reads(v: int, w: nat)
    requires
        0 <= v < pow10(w),
        w >= 1,
    ensures
        spec_zero_padded(v, w).len() == w,
        all_digits(spec_zero_padded(v, w)),
        decimal_value(spec_zero_padded(v, w)) == v,
{
    lemma_digits_len_pow(v as nat, w);
    lemma_digits_read_back(v as nat);
    let ds = spec_digits(v as nat);
    let z = zeros((w - ds.len()) as nat);
    assert(abs(v) == v as nat);
    assert(spec_zero_padded(v, w) =~= z + ds);
    lemma_zeros_value((w - ds.len()) as nat);
    lemma_decimal_concat(z, ds);
    let t = z + ds;
    assert forall|i: int| 0 <= i < t.len() implies is_digit(#[trigger] t[i]) by {
        if i < z.len() {
            assert(t[i] == z[i]);
        } else {
            assert(t[i] == ds[i - z.len()]);
        }
    }
}

/// The text of a time of day reads back: two digits of hours, `:`, two of
/// minutes, `:`, two of seconds (60 for a leap second); then nothing when the
/// fraction of the second is zero, else `.` and three, six or nine digits,
/// as few as show the fraction, which they give in nanoseconds.
pub proof fn lemma_time_text_reads(t: TimeOfDay)
    requires
        t.valid(),
    ensures
        ({
            let x = spec_time_text(t);
            let leap = t.nano >= 1_000_000_000;
            let n = if leap {
                t.nano - 1_000_000_000
            } else {
                t.nano as int
            };
            let sec = t.second + (if leap {
                1int
            } else {
                0int
            });
            &&& x.len() >= 8
            &&& all_digits(x.subrange(0, 2)) && decimal_value(x.subrange(0, 2)) == t.hour
            &&& x[2] == ':'
            &&& all_digits(x.subrange(3, 5)) && decimal_value(x.subrange(3, 5)) == t.minute
            &&& x[5] == ':'
            &&& all_digits(x.subrange(6, 8)) && decimal_value(x.subrange(6, 8)) == sec
            &&& (n == 0 <==> x.len() == 8)
            &&& n != 0 ==> {
                &&& x[8] == '.'
                &&& (x.len() == 12 || x.len() == 15 || x.len() == 18)
                &&& all_digits(x.skip(9))
                &&& decimal_value(x.skip(9)) * pow10((18 - x.len()) as nat) == n
                &&& x.len() == 15 ==> n % 1_000_000 != 0
                &&& x.len() == 18 ==> n % 1_000 != 0
            }
        }),
{
    reveal_with_fuel(pow10, 10);
    let leap = t.nano >= 1_000_000_000;
    let n = if leap { t.nano - 1_000_000_000 } else { t.nano as int };
    let sec = t.second + (if leap { 1int } else { 0int });
    let a = spec_zero_padded(t.hour as int, 2);
    let b = spec_zero_padded(t.minute as int, 2);
    let c = spec_zero_padded(sec, 2);
    lemma_zero_padded_reads(t.hour as int, 2);
    lemma_zero_padded_reads(t.minute as int, 2);
    lemma_zero_padded_reads(sec, 2);
    let f = spec_fraction_text(n);
    let x = spec_time_text(t);
    assert(x =~= a + seq![':'] + b + seq![':'] + c + f);
    assert(x.subrange(0, 2) =~= a);
    assert(x.subrange(3, 5) =~= b);
    assert(x.subrange(6, 8) =~= c);
    assert(pow10(3) == 1000);
    assert(pow10(6) == 1_000_000);
    assert(pow10(9) == 1_000_000_000);
    assert(pow10(0) == 1);
    assert(0 <= n < 1_000_000_000);
    if n == 0 {
        assert(f =~= Seq::<char>::empty());
        assert(x.len() == 8);
    } else {
        assert(x.len() > 8);
        assert(x.len() == 9 + f.len() - 1);
        if n % 1_000_000 == 0 {
            let g = spec_zero_padded(n / 1_000_000, 3);
            lemma_zero_padded_reads(n / 1_000_000, 3);
            assert(f =~= seq!['.'] + g);
            assert(x.skip(9) =~= g);
            assert(x.len() == 12);
            assert(x[8] == '.');
            assert(decimal_value(g) * 1_000_000 == n);
            assert((18 - x.len()) as nat == 6);
            assert(decimal_value(x.skip(9)) * pow10((18 - x.len()) as nat) == n);
        } else if n % 1_000 == 0 {
            let g = spec_zero_padded(n / 1_000, 6);
            lemma_zero_padded_reads(n / 1_000, 6);
            assert(f =~= seq!['.'] + g);
            assert(x.skip(9) =~= g);
            assert(x.len() == 15);
            assert(x[8] == '.');
            assert(decimal_value(g) * 1_000 == n);
            assert((18 - x.len()) as nat == 3);
            assert(decimal_value(x.skip(9)) * pow10((18 - x.len()) as nat) == n);
        } else {
            let g = spec_zero_padded(n, 9);
            lemma_zero_padded_reads(n, 9);
            assert(f =~= seq!['.'] + g);
            assert(x.skip(9) =~= g);
            assert(x.len() == 18);
            assert(x[8] == '.');
            assert((18 - x.len()) as nat == 0);
            assert(decimal_value(x.skip(9)) * pow10((18 - x.len()) as nat) == n);
        }
    }
}

} // verus!

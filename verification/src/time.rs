//! Times of day (`xsd:time`), stored as their text.
use chrono::Timelike;
use vstd::prelude::*;
use vstd::utf8::{decode_utf8, encode_utf8, valid_utf8};
use crate::binary::{
    copy_bytes, lemma_string_lexical_roundtrip, string_from_lexical, string_from_utf8,
    string_to_lexical,
};
use crate::calendar::{spec_date_text, valid_time, CivilDateTime};
use crate::text::spec_zero_padded;

verus! {

/// A time of day, as plain numbers; `nano` from 10^9 on is a leap second
/// (only at second 59).
#[derive(Clone, Copy, Debug, PartialEq, Eq, Structural)]
pub struct TimeOfDay {
    pub hour: u32,
    pub minute: u32,
    pub second: u32,
    pub nano: u32,
}

impl TimeOfDay {
    pub open spec fn valid(self) -> bool {
        valid_time(self.hour as int, self.minute as int, self.second as int, self.nano as int)
    }
}

/// The text of the nanoseconds of a second: nothing for zero, else a dot and
/// three, six or nine digits, as few as show the value.
pub open spec fn spec_fraction_text(n: int) -> Seq<char> {
    if n == 0 {
        Seq::empty()
    } else if n % 1_000_000 == 0 {
        seq!['.'] + spec_zero_padded(n / 1_000_000, 3)
    } else if n % 1_000 == 0 {
        seq!['.'] + spec_zero_padded(n / 1_000, 6)
    } else {
        seq!['.'] + spec_zero_padded(n, 9)
    }
}

/// `HH:MM:SS[.fff]`, a leap second written as second 60.
pub open spec fn spec_time_text(t: TimeOfDay) -> Seq<char> {
    let leap = t.nano >= 1_000_000_000;
    spec_zero_padded(t.hour as int, 2) + seq![':'] + spec_zero_padded(t.minute as int, 2) + seq![
        ':',
    ] + spec_zero_padded(
        t.second + (if leap {
            1int
        } else {
            0int
        }),
        2,
    ) + spec_fraction_text(
        if leap {
            t.nano - 1_000_000_000
        } else {
            t.nano as int
        },
    )
}

/// The time of day of a date-time.
pub open spec fn time_of(c: CivilDateTime) -> TimeOfDay {
    TimeOfDay { hour: c.hour, minute: c.minute, second: c.second, nano: c.nano }
}

/// `YYYY-MM-DDTHH:MM:SS[.fff]`: the date, `T` and the time of day.
pub open spec fn spec_datetime_text(c: CivilDateTime) -> Seq<char> {
    spec_date_text(c.year as int, c.month as int, c.day as int) + seq!['T'] + spec_time_text(
        time_of(c),
    )
}

/// What `text.parse::<chrono::NaiveTime>()` gives.
pub uninterp spec fn spec_chrono_parse_time(text: Seq<char>) -> Option<TimeOfDay>;

/// Calls `to_string()` on a `chrono::NaiveTime`. Trusted: the text is
/// `HH:MM:SS` with a leap second as 60, followed by the fraction of the
/// second in three, six or nine digits when it is not zero.
#[verifier::external_body]
pub(crate) fn chrono_time_to_string(t: TimeOfDay) -> (r: String)
    requires
        t.valid(),
    ensures
        r@ == spec_time_text(t),
{
    chrono::NaiveTime::from_hms_nano_opt(t.hour, t.minute, t.second, t.nano).unwrap().to_string()
}

/// Calls `chrono::NaiveTime::format(fmt).to_string()` with the format
/// `%H:%M:%S%.fZ` (the one format it is given; an invalid format would make
/// `to_string()` panic). Trusted: the text is a function of the time and the
/// format, namely the time's `to_string()` text followed by `Z`.
#[verifier::external_body]
fn chrono_format_time(t: TimeOfDay, fmt: &str) -> (r: String)
    requires
        t.valid(),
        fmt@ == "%H:%M:%S%.fZ"@,
    ensures
        r@ == spec_time_text(t).push('Z'),
{
    chrono::NaiveTime::from_hms_nano_opt(t.hour, t.minute, t.second, t.nano).unwrap().format(
        fmt,
    ).to_string()
}

/// Calls `str::parse::<chrono::NaiveTime>`. Trusted: the result is a
/// function of the text, a parsed time is a valid one, and the text that
/// `to_string()` gives for a time parses back as that time (`chrono` reads
/// with the same `%H:%M:%S%.f` format it writes, a second 60 as a leap
/// second).
#[verifier::external_body]
fn chrono_parse_time(text: &str) -> (r: Option<TimeOfDay>)
    ensures
        r == spec_chrono_parse_time(text@),
        r matches Some(t) ==> t.valid(),
        forall|t: TimeOfDay| t.valid() && text@ == spec_time_text(t) ==> r == Some(t),
{
    text.parse::<chrono::NaiveTime>().ok().map(
        |t: chrono::NaiveTime|
            TimeOfDay { hour: t.hour(), minute: t.minute(), second: t.second(), nano: t.nanosecond() },
    )
}

/// The stored form of a time holds a time: it is UTF-8 text that parses.
pub open spec fn time_lexical_ok(b: Seq<u8>) -> bool {
    valid_utf8(b) && spec_chrono_parse_time(decode_utf8(b)) is Some
}

/// The time held by a stored form.
pub open spec fn spec_time_from_lexical(b: Seq<u8>) -> TimeOfDay {
    spec_chrono_parse_time(decode_utf8(b)).unwrap()
}

impl TimeOfDay {
    /// The stored form: the UTF-8 bytes of the time's text.
    pub fn to_lexical(&self) -> (r: Vec<u8>)
        requires
            self.valid(),
        ensures
            r@ == encode_utf8(spec_time_text(*self)),
    {
        let s = chrono_time_to_string(*self);
        string_to_lexical(s.as_str())
    }

    /// Reads the time held by a stored form.
    pub fn from_lexical(b: &[u8]) -> (t: TimeOfDay)
        requires
            time_lexical_ok(b@),
        ensures
            t == spec_time_from_lexical(b@),
            t.valid(),
    {
        let s = string_from_lexical(b);
        match chrono_parse_time(s.as_str()) {
            Some(t) => t,
            None => TimeOfDay { hour: 0, minute: 0, second: 0, nano: 0 },
        }
    }

    /// Reads the time held by a stored form, or `None` when the bytes are not
    /// UTF-8 or do not parse as a time.
    ///
    /// The stored form of a valid time reads back as that time.
    pub fn try_from_lexical(b: &[u8]) -> (r: Option<TimeOfDay>)
        ensures
            r is Some <==> time_lexical_ok(b@),
            r matches Some(t) ==> t == spec_time_from_lexical(b@),
            forall|t: TimeOfDay| #[trigger] t.valid() && b@ == encode_utf8(spec_time_text(t)) ==> r == Some(t),
    {
        proof {
            assert forall|t: TimeOfDay| #[trigger] t.valid() && b@ == encode_utf8(spec_time_text(t)) implies valid_utf8(b@) && decode_utf8(b@) == spec_time_text(t) by {
                lemma_string_lexical_roundtrip(spec_time_text(t));
            }
        }
        match string_from_utf8(copy_bytes(b)) {
            Some(s) => {
                if chrono_parse_time(s.as_str()).is_some() {
                    Some(TimeOfDay::from_lexical(b))
                } else {
                    None
                }
            },
            None => None,
        }
    }

    /// The text `HH:MM:SS[.fff]Z` of the time held by a stored form.
    pub fn string_from_lexical(b: &[u8]) -> (s: String)
        requires
            time_lexical_ok(b@),
        ensures
            s@ == spec_time_text(spec_time_from_lexical(b@)).push('Z'),
    {
        let t = TimeOfDay::from_lexical(b);
        proof {
            reveal_strlit("%H:%M:%S%.fZ");
        }
        chrono_format_time(t, "%H:%M:%S%.fZ")
    }
}

} // verus!

//! ISO 8601 durations: their stored form and their text.
//!
//! The seconds of a duration are a 64-bit float; the library holds them as
//! the float's IEEE-754 bit pattern (`second_bits`).
use vstd::prelude::*;
use crate::bigendian::skip_bytes;
use crate::lexical::{
    f64_bits_from_lexical, f64_bits_to_lexical, i64_from_lexical, i64_to_lexical, i8_from_lexical,
    i8_to_lexical, lemma_f64_lexical_roundtrip, lemma_i64_lexical_roundtrip,
    lemma_i8_lexical_roundtrip, lemma_u8_lexical_roundtrip, spec_f64_bits_from_lexical,
    spec_f64_lexical, spec_i64_from_lexical, spec_i64_lexical, spec_i8_from_lexical,
    spec_i8_lexical, spec_u8_from_lexical, spec_u8_lexical, u8_from_lexical, u8_to_lexical,
    f64_bits_is_nan, lemma_f64_lexical_canonical, lemma_i64_lexical_canonical,
    lemma_i8_lexical_canonical, lemma_u8_lexical_canonical,
};
use crate::text::{push_decimal, push_str, spec_decimal};

verus! {

/// An ISO 8601 duration: a sign, calendar parts and time parts.
#[derive(Clone, Copy, Debug, PartialEq, Eq, Structural)]
pub struct Duration {
    pub sign: i8,
    pub year: i64,
    pub month: u8,
    pub day: u8,
    pub hour: u8,
    pub minute: u8,
    /// IEEE-754 bit pattern of the seconds (an `f64`).
    pub second_bits: u64,
}

/// The float with this bit pattern compares equal to `0.0` (it is +0.0 or -0.0).
pub open spec fn f64_bits_is_zero(b: u64) -> bool {
    b & 0x7fff_ffff_ffff_ffff == 0
}

/// The bit pattern is a NaN with the sign bit set: the one kind of seconds
/// value whose stored form does not read back.
pub open spec fn f64_bits_is_negative_nan(b: u64) -> bool {
    b & 0x8000_0000_0000_0000 != 0 && f64_bits_is_nan(b)
}

/// `"{n}{unit}"` when `n` is not zero, else nothing.
pub open spec fn spec_part(n: int, unit: char) -> Seq<char> {
    if n != 0 {
        spec_decimal(n).push(unit)
    } else {
        Seq::empty()
    }
}

/// The ISO 8601 text of a duration, given the text of its seconds (the
/// `Display` text of the float). The sign is not written. Zero parts are
/// left out; the time part, after `T`, is left out when hours, minutes and
/// seconds are all zero.
pub open spec fn spec_duration_string(d: Duration, second_text: Seq<char>) -> Seq<char> {
    let date = seq!['P'] + spec_part(d.year as int, 'Y') + spec_part(d.month as int, 'M')
        + spec_part(d.day as int, 'D');
    if d.hour == 0 && d.minute == 0 && f64_bits_is_zero(d.second_bits) {
        date
    } else {
        let second = if !f64_bits_is_zero(d.second_bits) {
            second_text.push('S')
        } else {
            Seq::empty()
        };
        date + seq!['T'] + spec_part(d.hour as int, 'H') + spec_part(d.minute as int, 'M') + second
    }
}

/// The text of a duration with its sign: `-` before a negative one.
pub open spec fn spec_signed_duration_text(d: Duration, second_text: Seq<char>) -> Seq<char> {
    (if d.sign < 0 {
        seq!['-']
    } else {
        Seq::empty()
    }) + spec_duration_string(d, second_text)
}

impl Duration {
    /// The stored form: sign, year, month, day, hour, minute and seconds, in
    /// that order (21 bytes).
    pub open spec fn spec_lexical(self) -> Seq<u8> {
        spec_i8_lexical(self.sign) + spec_i64_lexical(self.year) + spec_u8_lexical(self.month)
            + spec_u8_lexical(self.day) + spec_u8_lexical(self.hour) + spec_u8_lexical(
            self.minute,
        ) + spec_f64_lexical(self.second_bits)
    }

    /// The duration read from the front of a stored form.
    pub open spec fn spec_from_lexical(s: Seq<u8>) -> Duration {
        Duration {
            sign: spec_i8_from_lexical(s),
            year: spec_i64_from_lexical(s.skip(1)),
            month: spec_u8_from_lexical(s.skip(9)),
            day: spec_u8_from_lexical(s.skip(10)),
            hour: spec_u8_from_lexical(s.skip(11)),
            minute: spec_u8_from_lexical(s.skip(12)),
            second_bits: spec_f64_bits_from_lexical(s.skip(13)),
        }
    }

    pub fn to_lexical(&self) -> (r: Vec<u8>)
        ensures
            r@ == self.spec_lexical(),
    {
        let mut r = i8_to_lexical(self.sign);
        let mut year = i64_to_lexical(self.year);
        r.append(&mut year);
        let mut month = u8_to_lexical(self.month);
        r.append(&mut month);
        let mut day = u8_to_lexical(self.day);
        r.append(&mut day);
        let mut hour = u8_to_lexical(self.hour);
        r.append(&mut hour);
        let mut minute = u8_to_lexical(self.minute);
        r.append(&mut minute);
        let mut second = f64_bits_to_lexical(self.second_bits);
        r.append(&mut second);
        r
    }

    /// Reads a duration from the first 21 bytes of `b`.
    pub fn from_lexical(b: &[u8]) -> (d: Duration)
        requires
            b@.len() >= 21,
        ensures
            d == Duration::spec_from_lexical(b@),
    {
        let sign = i8_from_lexical(b);
        let year = i64_from_lexical(skip_bytes(b, 1));
        let month = u8_from_lexical(skip_bytes(b, 9));
        let day = u8_from_lexical(skip_bytes(b, 10));
        let hour = u8_from_lexical(skip_bytes(b, 11));
        let minute = u8_from_lexical(skip_bytes(b, 12));
        let second_bits = f64_bits_from_lexical(skip_bytes(b, 13));
        Duration { sign, year, month, day, hour, minute, second_bits }
    }
}

/// Reading back the stored form of a duration gives the same duration, unless
/// its seconds are a NaN with the sign bit set.
pub proof fn lemma_duration_lexical_roundtrip(d: Duration)
    requires
        !f64_bits_is_negative_nan(d.second_bits),
    ensures
        d.spec_lexical().len() == 21,
        Duration::spec_from_lexical(d.spec_lexical()) == d,
{
    lemma_i8_lexical_roundtrip(d.sign);
    lemma_i64_lexical_roundtrip(d.year);
    lemma_u8_lexical_roundtrip(d.month);
    lemma_u8_lexical_roundtrip(d.day);
    lemma_u8_lexical_roundtrip(d.hour);
    lemma_u8_lexical_roundtrip(d.minute);
    lemma_f64_lexical_roundtrip(d.second_bits);
    let s = d.spec_lexical();
    assert(s.take(1) =~= spec_i8_lexical(d.sign).take(1));
    assert(s.skip(1).take(8) =~= spec_i64_lexical(d.year).take(8));
    assert(s.skip(9).take(1) =~= spec_u8_lexical(d.month).take(1));
    assert(s.skip(10).take(1) =~= spec_u8_lexical(d.day).take(1));
    assert(s.skip(11).take(1) =~= spec_u8_lexical(d.hour).take(1));
    assert(s.skip(12).take(1) =~= spec_u8_lexical(d.minute).take(1));
    assert(s.skip(13).take(8) =~= spec_f64_lexical(d.second_bits).take(8));
}

/// Every 21-byte string is the stored form of the duration read from it,
/// unless its seconds are a NaN with the sign bit set.
pub proof fn lemma_duration_lexical_canonical(s: Seq<u8>)
    requires
        s.len() >= 21,
        !f64_bits_is_negative_nan(Duration::spec_from_lexical(s).second_bits),
    ensures
        Duration::spec_from_lexical(s).spec_lexical() == s.take(21),
{
    lemma_i8_lexical_canonical(s);
    lemma_i64_lexical_canonical(s.skip(1));
    lemma_u8_lexical_canonical(s.skip(9));
    lemma_u8_lexical_canonical(s.skip(10));
    lemma_u8_lexical_canonical(s.skip(11));
    lemma_u8_lexical_canonical(s.skip(12));
    lemma_f64_lexical_canonical(s.skip(13));
    let d = Duration::spec_from_lexical(s);
    assert(d.spec_lexical() =~= s.take(21));
}

fn push_part(out: &mut String, n: i64, unit: &str)
    requires
        unit@.len() == 1,
    ensures
        final(out)@ == old(out)@ + spec_part(n as int, unit@[0]),
{
    if n != 0 {
        push_decimal(out, n);
        push_str(out, unit);
        assert(unit@ =~= seq![unit@[0]]);
    }
}

/// The ISO 8601 text of a duration; `second_text` is the text of its seconds.
pub fn duration_string(duration: &Duration, second_text: &str) -> (s: String)
    ensures
        s@ == spec_duration_string(*duration, second_text@),
{
    proof {
        reveal_strlit("P");
        reveal_strlit("T");
        reveal_strlit("Y");
        reveal_strlit("M");
        reveal_strlit("D");
        reveal_strlit("H");
        reveal_strlit("S");
    }
    let mut out = String::new();
    push_str(&mut out, "P");
    push_part(&mut out, duration.year, "Y");
    push_part(&mut out, duration.month as i64, "M");
    push_part(&mut out, duration.day as i64, "D");
    let second_zero = duration.second_bits & 0x7fff_ffff_ffff_ffff == 0;
    if duration.hour == 0 && duration.minute == 0 && second_zero {
        out
    } else {
        push_str(&mut out, "T");
        push_part(&mut out, duration.hour as i64, "H");
        push_part(&mut out, duration.minute as i64, "M");
        if !second_zero {
            push_str(&mut out, second_text);
            push_str(&mut out, "S");
        }
        out
    }
}

/// An `xsd:yearMonthDuration`, stored as a duration.
#[derive(Clone, Copy, Debug, PartialEq, Eq, Structural)]
pub struct YearMonthDuration(pub Duration);

/// An `xsd:dayTimeDuration`, stored as a duration.
#[derive(Clone, Copy, Debug, PartialEq, Eq, Structural)]
pub struct DayTimeDuration(pub Duration);

impl YearMonthDuration {
    pub fn to_lexical(&self) -> (r: Vec<u8>)
        ensures
            r@ == self.0.spec_lexical(),
    {
        self.0.to_lexical()
    }

    pub fn from_lexical(b: &[u8]) -> (d: YearMonthDuration)
        requires
            b@.len() >= 21,
        ensures
            d.0 == Duration::spec_from_lexical(b@),
    {
        YearMonthDuration(Duration::from_lexical(b))
    }
}

impl DayTimeDuration {
    pub fn to_lexical(&self) -> (r: Vec<u8>)
        ensures
            r@ == self.0.spec_lexical(),
    {
        self.0.to_lexical()
    }

    pub fn from_lexical(b: &[u8]) -> (d: DayTimeDuration)
        requires
            b@.len() >= 21,
        ensures
            d.0 == Duration::spec_from_lexical(b@),
    {
        DayTimeDuration(Duration::from_lexical(b))
    }
}

} // verus!

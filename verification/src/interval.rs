//! Date-time intervals: materialized start and end, the duration as given,
//! and the form the interval was written in.
//!
//! Stored form (48 bytes): a sorting prefix of 24 bytes, start seconds
//! (`i64`, sign-flipped), start nanoseconds (`u32`), end seconds and end
//! nanoseconds, then a metadata suffix of 24 bytes: start and end component
//! types, the form flag and the duration (21 bytes).
use vstd::prelude::*;
use crate::bigendian::{lemma_concat_eq, lemma_lex_concat, lex_lt, skip_bytes};
use crate::duration::{
    f64_bits_is_negative_nan, lemma_duration_lexical_canonical, lemma_duration_lexical_roundtrip,
    Duration,
};
use crate::lexical::{
    i64_from_lexical, i64_to_lexical, lemma_i64_lexical_order, lemma_i64_lexical_roundtrip,
    lemma_u32_lexical_order, lemma_u32_lexical_roundtrip, lemma_u8_lexical_roundtrip,
    spec_i64_from_lexical, spec_i64_lexical, spec_u32_from_lexical, spec_u32_lexical,
    spec_u8_from_lexical, spec_u8_lexical, u32_from_lexical, u32_to_lexical, u8_from_lexical,
    u8_to_lexical, lemma_i64_lexical_canonical, lemma_u32_lexical_canonical,
    lemma_u8_lexical_canonical,
};

verus! {

/// Component type of an interval endpoint written as a date (`xsd:date`).
pub const INTERVAL_COMPONENT_DATE: u8 = 0;

/// Component type of an interval endpoint written as a date-time (`xsd:dateTime`).
pub const INTERVAL_COMPONENT_DATETIME: u8 = 1;

/// The interval was written as `start/end`.
pub const INTERVAL_FLAG_EXPLICIT: u8 = 0;

/// The interval was written as `start/duration`.
pub const INTERVAL_FLAG_START_DURATION: u8 = 1;

/// The interval was written as `duration/end`.
pub const INTERVAL_FLAG_DURATION_END: u8 = 2;

/// A date-time interval with materialized start and end (Unix seconds and
/// nanoseconds), the duration as given, and the form it was written in.
#[derive(Clone, Copy, Debug, PartialEq, Eq, Structural)]
pub struct DateTimeInterval {
    pub start_seconds: i64,
    pub start_nanos: u32,
    pub end_seconds: i64,
    pub end_nanos: u32,
    pub start_type: u8,
    pub end_type: u8,
    pub flag: u8,
    pub duration: Duration,
}

impl DateTimeInterval {
    /// The 24-byte sorting prefix: start then end timestamp.
    pub open spec fn spec_sort_prefix(self) -> Seq<u8> {
        spec_i64_lexical(self.start_seconds) + spec_u32_lexical(self.start_nanos)
            + spec_i64_lexical(self.end_seconds) + spec_u32_lexical(self.end_nanos)
    }

    /// The 24-byte metadata suffix: component types, flag and duration.
    pub open spec fn spec_metadata(self) -> Seq<u8> {
        spec_u8_lexical(self.start_type) + spec_u8_lexical(self.end_type) + spec_u8_lexical(
            self.flag,
        ) + self.duration.spec_lexical()
    }

    /// The stored form (48 bytes).
    pub open spec fn spec_lexical(self) -> Seq<u8> {
        self.spec_sort_prefix() + self.spec_metadata()
    }

    /// The interval read from the front of a stored form.
    pub open spec fn spec_from_lexical(s: Seq<u8>) -> DateTimeInterval {
        DateTimeInterval {
            start_seconds: spec_i64_from_lexical(s),
            start_nanos: spec_u32_from_lexical(s.skip(8)),
            end_seconds: spec_i64_from_lexical(s.skip(12)),
            end_nanos: spec_u32_from_lexical(s.skip(20)),
            start_type: spec_u8_from_lexical(s.skip(24)),
            end_type: spec_u8_from_lexical(s.skip(25)),
            flag: spec_u8_from_lexical(s.skip(26)),
            duration: Duration::spec_from_lexical(s.skip(27)),
        }
    }

    /// Order of intervals by start, then end (seconds, then nanoseconds).
    pub open spec fn spec_timestamps_lt(self, other: DateTimeInterval) -> bool {
        self.start_seconds < other.start_seconds || (self.start_seconds == other.start_seconds && (
        self.start_nanos < other.start_nanos || (self.start_nanos == other.start_nanos && (
        self.end_seconds < other.end_seconds || (self.end_seconds == other.end_seconds
            && self.end_nanos < other.end_nanos)))))
    }

    /// The intervals have the same start and end.
    pub open spec fn spec_same_timestamps(self, other: DateTimeInterval) -> bool {
        self.start_seconds == other.start_seconds && self.start_nanos == other.start_nanos
            && self.end_seconds == other.end_seconds && self.end_nanos == other.end_nanos
    }

    pub fn to_lexical(&self) -> (r: Vec<u8>)
        ensures
            r@ == self.spec_lexical(),
    {
        let mut r = i64_to_lexical(self.start_seconds);
        let mut a = u32_to_lexical(self.start_nanos);
        r.append(&mut a);
        let mut b = i64_to_lexical(self.end_seconds);
        r.append(&mut b);
        let mut c = u32_to_lexical(self.end_nanos);
        r.append(&mut c);
        let mut d = u8_to_lexical(self.start_type);
        r.append(&mut d);
        let mut e = u8_to_lexical(self.end_type);
        r.append(&mut e);
        let mut f = u8_to_lexical(self.flag);
        r.append(&mut f);
        let mut g = self.duration.to_lexical();
        r.append(&mut g);
        assert(r@ =~= self.spec_lexical());
        r
    }

    /// Reads an interval from the first 48 bytes of `b`.
    pub fn from_lexical(b: &[u8]) -> (iv: DateTimeInterval)
        requires
            b@.len() >= 48,
        ensures
            iv == DateTimeInterval::spec_from_lexical(b@),
    {
        let start_seconds = i64_from_lexical(b);
        let start_nanos = u32_from_lexical(skip_bytes(b, 8));
        let end_seconds = i64_from_lexical(skip_bytes(b, 12));
        let end_nanos = u32_from_lexical(skip_bytes(b, 20));
        let start_type = u8_from_lexical(skip_bytes(b, 24));
        let end_type = u8_from_lexical(skip_bytes(b, 25));
        let flag = u8_from_lexical(skip_bytes(b, 26));
        let duration = Duration::from_lexical(skip_bytes(b, 27));
        DateTimeInterval {
            start_seconds,
            start_nanos,
            end_seconds,
            end_nanos,
            start_type,
            end_type,
            flag,
            duration,
        }
    }
}

/// The stored form of an interval is 48 bytes and reads back as the same
/// interval, unless the duration's seconds are a NaN with the sign bit set.
pub proof fn lemma_interval_lexical_roundtrip(iv: DateTimeInterval)
    requires
        !f64_bits_is_negative_nan(iv.duration.second_bits),
    ensures
        iv.spec_lexical().len() == 48,
        DateTimeInterval::spec_from_lexical(iv.spec_lexical()) == iv,
{
    lemma_i64_lexical_roundtrip(iv.start_seconds);
    lemma_u32_lexical_roundtrip(iv.start_nanos);
    lemma_i64_lexical_roundtrip(iv.end_seconds);
    lemma_u32_lexical_roundtrip(iv.end_nanos);
    lemma_u8_lexical_roundtrip(iv.start_type);
    lemma_u8_lexical_roundtrip(iv.end_type);
    lemma_u8_lexical_roundtrip(iv.flag);
    lemma_duration_lexical_roundtrip(iv.duration);
    let s = iv.spec_lexical();
    assert(s.take(8) =~= spec_i64_lexical(iv.start_seconds).take(8));
    assert(s.skip(8).take(4) =~= spec_u32_lexical(iv.start_nanos).take(4));
    assert(s.skip(12).take(8) =~= spec_i64_lexical(iv.end_seconds).take(8));
    assert(s.skip(20).take(4) =~= spec_u32_lexical(iv.end_nanos).take(4));
    assert(s.skip(24).take(1) =~= spec_u8_lexical(iv.start_type).take(1));
    assert(s.skip(25).take(1) =~= spec_u8_lexical(iv.end_type).take(1));
    assert(s.skip(26).take(1) =~= spec_u8_lexical(iv.flag).take(1));
    assert(s.skip(27) =~= iv.duration.spec_lexical());
}

/// Stored intervals sort by start, then by end; the metadata suffix decides
/// only between intervals with the same start and end.
pub proof fn lemma_interval_lexical_order(a: DateTimeInterval, b: DateTimeInterval)
    ensures
        lex_lt(a.spec_lexical(), b.spec_lexical()) <==> (a.spec_timestamps_lt(b) || (
        a.spec_same_timestamps(b) && lex_lt(a.spec_metadata(), b.spec_metadata()))),
        a.spec_lexical().take(24) == b.spec_lexical().take(24) <==> a.spec_same_timestamps(b),
{
    lemma_i64_lexical_roundtrip(a.start_seconds);
    lemma_i64_lexical_roundtrip(b.start_seconds);
    lemma_i64_lexical_order(a.start_seconds, b.start_seconds);
    lemma_u32_lexical_roundtrip(a.start_nanos);
    lemma_u32_lexical_roundtrip(b.start_nanos);
    lemma_u32_lexical_order(a.start_nanos, b.start_nanos);
    lemma_i64_lexical_roundtrip(a.end_seconds);
    lemma_i64_lexical_roundtrip(b.end_seconds);
    lemma_i64_lexical_order(a.end_seconds, b.end_seconds);
    lemma_u32_lexical_roundtrip(a.end_nanos);
    lemma_u32_lexical_roundtrip(b.end_nanos);
    lemma_u32_lexical_order(a.end_nanos, b.end_nanos);
    let a1 = spec_i64_lexical(a.start_seconds);
    let a2 = spec_u32_lexical(a.start_nanos);
    let a3 = spec_i64_lexical(a.end_seconds);
    let a4 = spec_u32_lexical(a.end_nanos);
    let b1 = spec_i64_lexical(b.start_seconds);
    let b2 = spec_u32_lexical(b.start_nanos);
    let b3 = spec_i64_lexical(b.end_seconds);
    let b4 = spec_u32_lexical(b.end_nanos);
    lemma_lex_concat(a.spec_sort_prefix(), a.spec_metadata(), b.spec_sort_prefix(), b.spec_metadata());
    lemma_lex_concat(a1 + a2 + a3, a4, b1 + b2 + b3, b4);
    lemma_concat_eq(a1 + a2 + a3, a4, b1 + b2 + b3, b4);
    lemma_lex_concat(a1 + a2, a3, b1 + b2, b3);
    lemma_concat_eq(a1 + a2, a3, b1 + b2, b3);
    lemma_lex_concat(a1, a2, b1, b2);
    lemma_concat_eq(a1, a2, b1, b2);
    if a1 == b1 {
        assert(a.start_seconds == b.start_seconds);
    }
    if a2 == b2 {
        assert(a.start_nanos == b.start_nanos);
    }
    if a3 == b3 {
        assert(a.end_seconds == b.end_seconds);
    }
    if a4 == b4 {
        assert(a.end_nanos == b.end_nanos);
    }
    assert(a.spec_lexical().take(24) =~= a.spec_sort_prefix());
    assert(b.spec_lexical().take(24) =~= b.spec_sort_prefix());
}

/// Reading an interval from stored bytes and storing it again gives back the
/// 48 bytes it was read from, unless the duration's seconds read from them
/// are a NaN with the sign bit set.
pub proof fn lemma_interval_lexical_canonical(s: Seq<u8>)
    requires
        s.len() >= 48,
        !f64_bits_is_negative_nan(DateTimeInterval::spec_from_lexical(s).duration.second_bits),
    ensures
        DateTimeInterval::spec_from_lexical(s).spec_lexical() == s.take(48),
{
    lemma_i64_lexical_canonical(s);
    lemma_u32_lexical_canonical(s.skip(8));
    lemma_i64_lexical_canonical(s.skip(12));
    lemma_u32_lexical_canonical(s.skip(20));
    lemma_u8_lexical_canonical(s.skip(24));
    lemma_u8_lexical_canonical(s.skip(25));
    lemma_u8_lexical_canonical(s.skip(26));
    lemma_duration_lexical_canonical(s.skip(27));
    let iv = DateTimeInterval::spec_from_lexical(s);
    assert(s.skip(8).take(4) =~= s.subrange(8, 12));
    assert(iv.spec_lexical() =~= s.take(48));
}

} // verus!

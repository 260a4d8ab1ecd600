//! Calendar values with a time-zone offset: their stored forms and their text.
use vstd::prelude::*;
use crate::bigendian::{lemma_concat_eq, lemma_lex_concat, lex_lt, skip_bytes};
use crate::lexical::{
    i16_from_lexical, i16_to_lexical, i64_from_lexical, i64_to_lexical, lemma_i16_lexical_order,
    lemma_i16_lexical_roundtrip, lemma_i64_lexical_order, lemma_i64_lexical_roundtrip,
    lemma_u8_lexical_order, lemma_u8_lexical_roundtrip, spec_i16_from_lexical, spec_i16_lexical,
    spec_i64_from_lexical, spec_i64_lexical, spec_u8_from_lexical, spec_u8_lexical,
    u8_from_lexical, u8_to_lexical,
};
use crate::text::{push_str, push_zero_padded, spec_zero_padded};

verus! {

/// Rust's `/` on integers: the quotient rounded toward zero.
pub open spec fn trunc_div(a: int, b: int) -> int {
    if a >= 0 {
        a / b
    } else {
        -((-a) / b)
    }
}

/// Rust's `%` on integers: the remainder of `trunc_div`, with the sign of `a`.
pub open spec fn trunc_rem(a: int, b: int) -> int {
    a - b * trunc_div(a, b)
}

/// The text of a time-zone offset given in minutes: empty for zero, else
/// `format!("+{hours:02}:{minutes:02}")`, or `format!("-{hours:02}:{minutes:02}")`
/// when the hours are negative, with `hours = offset / 60` and
/// `minutes = offset % 60` in Rust's integer division.
pub open spec fn spec_offset_string(offset: i16) -> Seq<char> {
    if offset == 0 {
        Seq::empty()
    } else {
        let hours = trunc_div(offset as int, 60);
        let minutes = trunc_rem(offset as int, 60);
        (if hours < 0 {
            seq!['-']
        } else {
            seq!['+']
        }) + spec_zero_padded(hours, 2) + seq![':'] + spec_zero_padded(minutes, 2)
    }
}

/// The text of a time-zone offset given in minutes.
pub fn offset_string(offset: i16) -> (s: String)
    ensures
        s@ == spec_offset_string(offset),
{
    let mut out = String::new();
    if offset != 0 {
        let o = offset as i32;
        let hours: i32 = if o >= 0 {
            o / 60
        } else {
            -((-o) / 60)
        };
        let minutes: i32 = o - 60 * hours;
        proof {
            reveal_strlit("-");
            reveal_strlit("+");
            reveal_strlit(":");
        }
        if hours < 0 {
            push_str(&mut out, "-");
        } else {
            push_str(&mut out, "+");
        }
        push_zero_padded(&mut out, hours as i64, 2);
        push_str(&mut out, ":");
        push_zero_padded(&mut out, minutes as i64, 2);
    }
    out
}

/// An `xsd:date`: a calendar day with a time-zone offset in minutes.
#[derive(Clone, Copy, Debug, PartialEq, Eq, Structural)]
pub struct Date {
    pub year: i64,
    pub month: u8,
    pub day: u8,
    pub offset: i16,
}

impl Date {
    /// The stored form: the stored forms of the fields, in order (12 bytes).
    pub open spec fn spec_lexical(self) -> Seq<u8> {
        spec_i64_lexical(self.year) + spec_u8_lexical(self.month) + spec_u8_lexical(self.day) + spec_i16_lexical(self.offset)
    }

    /// The value read from the front of a stored form.
    pub open spec fn spec_from_lexical(s: Seq<u8>) -> Date {
        Date { year: spec_i64_from_lexical(s), month: spec_u8_from_lexical(s.skip(8)), day: spec_u8_from_lexical(s.skip(9)), offset: spec_i16_from_lexical(s.skip(10)) }
    }

    /// Field-by-field (lexicographic) order of values.
    pub open spec fn spec_lt(self, other: Date) -> bool {
        self.year < other.year || (self.year == other.year && (self.month < other.month || (self.month == other.month && (self.day < other.day || (self.day == other.day && (self.offset < other.offset))))))
    }

    /// The text of the value.
    pub open spec fn spec_text(self) -> Seq<char> {
        spec_zero_padded(self.year as int, 4) + seq!['-'] + spec_zero_padded(self.month as int, 2) + seq!['-'] + spec_zero_padded(self.day as int, 2) + spec_offset_string(self.offset)
    }

    pub fn to_lexical(&self) -> (r: Vec<u8>)
        ensures
            r@ == self.spec_lexical(),
    {
        let mut r = i64_to_lexical(self.year);
        let mut month = u8_to_lexical(self.month);
        r.append(&mut month);
        let mut day = u8_to_lexical(self.day);
        r.append(&mut day);
        let mut offset = i16_to_lexical(self.offset);
        r.append(&mut offset);
        r
    }

    /// Reads a value from the first 12 bytes of `b`.
    pub fn from_lexical(b: &[u8]) -> (v: Date)
        requires
            b@.len() >= 12,
        ensures
            v == Date::spec_from_lexical(b@),
    {
        let year = i64_from_lexical(b);
        let month = u8_from_lexical(skip_bytes(b, 8));
        let day = u8_from_lexical(skip_bytes(b, 9));
        let offset = i16_from_lexical(skip_bytes(b, 10));
        Date { year, month, day, offset }
    }

    /// The text of the value held by a stored form.
    pub fn string_from_lexical(b: &[u8]) -> (s: String)
        requires
            b@.len() >= 12,
        ensures
            s@ == Date::spec_from_lexical(b@).spec_text(),
    {
        let v = Date::from_lexical(b);
        let mut out = String::new();
        proof {
            reveal_strlit("-");
        }
        push_zero_padded(&mut out, v.year as i64, 4);
        push_str(&mut out, "-");
        push_zero_padded(&mut out, v.month as i64, 2);
        push_str(&mut out, "-");
        push_zero_padded(&mut out, v.day as i64, 2);
        let off = offset_string(v.offset);
        push_str(&mut out, off.as_str());
        out
    }
}

/// Reading back the stored form of an `xsd:date` gives the same value.
pub proof fn lemma_date_lexical_roundtrip(v: Date)
    ensures
        v.spec_lexical().len() == 12,
        Date::spec_from_lexical(v.spec_lexical()) == v,
{
    lemma_i64_lexical_roundtrip(v.year);
    lemma_u8_lexical_roundtrip(v.month);
    lemma_u8_lexical_roundtrip(v.day);
    lemma_i16_lexical_roundtrip(v.offset);
    let s = v.spec_lexical();
    assert(s.take(8) =~= spec_i64_lexical(v.year).take(8));
    assert(s.skip(8).take(1) =~= spec_u8_lexical(v.month).take(1));
    assert(s.skip(9).take(1) =~= spec_u8_lexical(v.day).take(1));
    assert(s.skip(10).take(2) =~= spec_i16_lexical(v.offset).take(2));
}

/// Stored forms of `xsd:date` values sort bytewise in field-by-field order.
pub proof fn lemma_date_lexical_order(a: Date, b: Date)
    ensures
        a.spec_lt(b) <==> lex_lt(a.spec_lexical(), b.spec_lexical()),
{
    lemma_i64_lexical_roundtrip(a.year);
    lemma_i64_lexical_roundtrip(b.year);
    lemma_i64_lexical_order(a.year, b.year);
    lemma_u8_lexical_roundtrip(a.month);
    lemma_u8_lexical_roundtrip(b.month);
    lemma_u8_lexical_order(a.month, b.month);
    lemma_u8_lexical_roundtrip(a.day);
    lemma_u8_lexical_roundtrip(b.day);
    lemma_u8_lexical_order(a.day, b.day);
    lemma_i16_lexical_roundtrip(a.offset);
    lemma_i16_lexical_roundtrip(b.offset);
    lemma_i16_lexical_order(a.offset, b.offset);
    lemma_lex_concat(spec_i64_lexical(a.year) + spec_u8_lexical(a.month) + spec_u8_lexical(a.day), spec_i16_lexical(a.offset), spec_i64_lexical(b.year) + spec_u8_lexical(b.month) + spec_u8_lexical(b.day), spec_i16_lexical(b.offset));
    lemma_concat_eq(spec_i64_lexical(a.year) + spec_u8_lexical(a.month) + spec_u8_lexical(a.day), spec_i16_lexical(a.offset), spec_i64_lexical(b.year) + spec_u8_lexical(b.month) + spec_u8_lexical(b.day), spec_i16_lexical(b.offset));
    lemma_lex_concat(spec_i64_lexical(a.year) + spec_u8_lexical(a.month), spec_u8_lexical(a.day), spec_i64_lexical(b.year) + spec_u8_lexical(b.month), spec_u8_lexical(b.day));
    lemma_concat_eq(spec_i64_lexical(a.year) + spec_u8_lexical(a.month), spec_u8_lexical(a.day), spec_i64_lexical(b.year) + spec_u8_lexical(b.month), spec_u8_lexical(b.day));
    lemma_lex_concat(spec_i64_lexical(a.year), spec_u8_lexical(a.month), spec_i64_lexical(b.year), spec_u8_lexical(b.month));
    lemma_concat_eq(spec_i64_lexical(a.year), spec_u8_lexical(a.month), spec_i64_lexical(b.year), spec_u8_lexical(b.month));
    if spec_i64_lexical(a.year) == spec_i64_lexical(b.year) {
        assert(a.year == b.year);
    }
    if spec_u8_lexical(a.month) == spec_u8_lexical(b.month) {
        assert(a.month == b.month);
    }
    if spec_u8_lexical(a.day) == spec_u8_lexical(b.day) {
        assert(a.day == b.day);
    }
    if spec_i16_lexical(a.offset) == spec_i16_lexical(b.offset) {
        assert(a.offset == b.offset);
    }
}

/// An `xsd:gYear`: a year with a time-zone offset in minutes.
#[derive(Clone, Copy, Debug, PartialEq, Eq, Structural)]
pub struct GYear {
    pub year: i64,
    pub offset: i16,
}

impl GYear {
    /// The stored form: the stored forms of the fields, in order (10 bytes).
    pub open spec fn spec_lexical(self) -> Seq<u8> {
        spec_i64_lexical(self.year) + spec_i16_lexical(self.offset)
    }

    /// The value read from the front of a stored form.
    pub open spec fn spec_from_lexical(s: Seq<u8>) -> GYear {
        GYear { year: spec_i64_from_lexical(s), offset: spec_i16_from_lexical(s.skip(8)) }
    }

    /// Field-by-field (lexicographic) order of values.
    pub open spec fn spec_lt(self, other: GYear) -> bool {
        self.year < other.year || (self.year == other.year && (self.offset < other.offset))
    }

    /// The text of the value.
    pub open spec fn spec_text(self) -> Seq<char> {
        spec_zero_padded(self.year as int, 4) + spec_offset_string(self.offset)
    }

    pub fn to_lexical(&self) -> (r: Vec<u8>)
        ensures
            r@ == self.spec_lexical(),
    {
        let mut r = i64_to_lexical(self.year);
        let mut offset = i16_to_lexical(self.offset);
        r.append(&mut offset);
        r
    }

    /// Reads a value from the first 10 bytes of `b`.
    pub fn from_lexical(b: &[u8]) -> (v: GYear)
        requires
            b@.len() >= 10,
        ensures
            v == GYear::spec_from_lexical(b@),
    {
        let year = i64_from_lexical(b);
        let offset = i16_from_lexical(skip_bytes(b, 8));
        GYear { year, offset }
    }

    /// The text of the value held by a stored form.
    pub fn string_from_lexical(b: &[u8]) -> (s: String)
        requires
            b@.len() >= 10,
        ensures
            s@ == GYear::spec_from_lexical(b@).spec_text(),
    {
        let v = GYear::from_lexical(b);
        let mut out = String::new();
        push_zero_padded(&mut out, v.year as i64, 4);
        let off = offset_string(v.offset);
        push_str(&mut out, off.as_str());
        out
    }
}

/// Reading back the stored form of an `xsd:gYear` gives the same value.
pub proof fn lemma_g_year_lexical_roundtrip(v: GYear)
    ensures
        v.spec_lexical().len() == 10,
        GYear::spec_from_lexical(v.spec_lexical()) == v,
{
    lemma_i64_lexical_roundtrip(v.year);
    lemma_i16_lexical_roundtrip(v.offset);
    let s = v.spec_lexical();
    assert(s.take(8) =~= spec_i64_lexical(v.year).take(8));
    assert(s.skip(8).take(2) =~= spec_i16_lexical(v.offset).take(2));
}

/// Stored forms of `xsd:gYear` values sort bytewise in field-by-field order.
pub proof fn lemma_g_year_lexical_order(a: GYear, b: GYear)
    ensures
        a.spec_lt(b) <==> lex_lt(a.spec_lexical(), b.spec_lexical()),
{
    lemma_i64_lexical_roundtrip(a.year);
    lemma_i64_lexical_roundtrip(b.year);
    lemma_i64_lexical_order(a.year, b.year);
    lemma_i16_lexical_roundtrip(a.offset);
    lemma_i16_lexical_roundtrip(b.offset);
    lemma_i16_lexical_order(a.offset, b.offset);
    lemma_lex_concat(spec_i64_lexical(a.year), spec_i16_lexical(a.offset), spec_i64_lexical(b.year), spec_i16_lexical(b.offset));
    lemma_concat_eq(spec_i64_lexical(a.year), spec_i16_lexical(a.offset), spec_i64_lexical(b.year), spec_i16_lexical(b.offset));
    if spec_i64_lexical(a.year) == spec_i64_lexical(b.year) {
        assert(a.year == b.year);
    }
    if spec_i16_lexical(a.offset) == spec_i16_lexical(b.offset) {
        assert(a.offset == b.offset);
    }
}

/// An `xsd:gMonth`: a month of every year with a time-zone offset in minutes.
#[derive(Clone, Copy, Debug, PartialEq, Eq, Structural)]
pub struct GMonth {
    pub month: u8,
    pub offset: i16,
}

impl GMonth {
    /// The stored form: the stored forms of the fields, in order (3 bytes).
    pub open spec fn spec_lexical(self) -> Seq<u8> {
        spec_u8_lexical(self.month) + spec_i16_lexical(self.offset)
    }

    /// The value read from the front of a stored form.
    pub open spec fn spec_from_lexical(s: Seq<u8>) -> GMonth {
        GMonth { month: spec_u8_from_lexical(s), offset: spec_i16_from_lexical(s.skip(1)) }
    }

    /// Field-by-field (lexicographic) order of values.
    pub open spec fn spec_lt(self, other: GMonth) -> bool {
        self.month < other.month || (self.month == other.month && (self.offset < other.offset))
    }

    /// The text of the value.
    pub open spec fn spec_text(self) -> Seq<char> {
        seq!['-', '-'] + spec_zero_padded(self.month as int, 2) + spec_offset_string(self.offset)
    }

    pub fn to_lexical(&self) -> (r: Vec<u8>)
        ensures
            r@ == self.spec_lexical(),
    {
        let mut r = u8_to_lexical(self.month);
        let mut offset = i16_to_lexical(self.offset);
        r.append(&mut offset);
        r
    }

    /// Reads a value from the first 3 bytes of `b`.
    pub fn from_lexical(b: &[u8]) -> (v: GMonth)
        requires
            b@.len() >= 3,
        ensures
            v == GMonth::spec_from_lexical(b@),
    {
        let month = u8_from_lexical(b);
        let offset = i16_from_lexical(skip_bytes(b, 1));
        GMonth { month, offset }
    }

    /// The text of the value held by a stored form.
    pub fn string_from_lexical(b: &[u8]) -> (s: String)
        requires
            b@.len() >= 3,
        ensures
            s@ == GMonth::spec_from_lexical(b@).spec_text(),
    {
        let v = GMonth::from_lexical(b);
        let mut out = String::new();
        proof {
            reveal_strlit("--");
        }
        push_str(&mut out, "--");
        push_zero_padded(&mut out, v.month as i64, 2);
        let off = offset_string(v.offset);
        push_str(&mut out, off.as_str());
        out
    }
}

/// Reading back the stored form of an `xsd:gMonth` gives the same value.
pub proof fn lemma_g_month_lexical_roundtrip(v: GMonth)
    ensures
        v.spec_lexical().len() == 3,
        GMonth::spec_from_lexical(v.spec_lexical()) == v,
{
    lemma_u8_lexical_roundtrip(v.month);
    lemma_i16_lexical_roundtrip(v.offset);
    let s = v.spec_lexical();
    assert(s.take(1) =~= spec_u8_lexical(v.month).take(1));
    assert(s.skip(1).take(2) =~= spec_i16_lexical(v.offset).take(2));
}

/// Stored forms of `xsd:gMonth` values sort bytewise in field-by-field order.
pub proof fn lemma_g_month_lexical_order(a: GMonth, b: GMonth)
    ensures
        a.spec_lt(b) <==> lex_lt(a.spec_lexical(), b.spec_lexical()),
{
    lemma_u8_lexical_roundtrip(a.month);
    lemma_u8_lexical_roundtrip(b.month);
    lemma_u8_lexical_order(a.month, b.month);
    lemma_i16_lexical_roundtrip(a.offset);
    lemma_i16_lexical_roundtrip(b.offset);
    lemma_i16_lexical_order(a.offset, b.offset);
    lemma_lex_concat(spec_u8_lexical(a.month), spec_i16_lexical(a.offset), spec_u8_lexical(b.month), spec_i16_lexical(b.offset));
    lemma_concat_eq(spec_u8_lexical(a.month), spec_i16_lexical(a.offset), spec_u8_lexical(b.month), spec_i16_lexical(b.offset));
    if spec_u8_lexical(a.month) == spec_u8_lexical(b.month) {
        assert(a.month == b.month);
    }
    if spec_i16_lexical(a.offset) == spec_i16_lexical(b.offset) {
        assert(a.offset == b.offset);
    }
}

/// An `xsd:gDay`: a day of every month with a time-zone offset in minutes.
#[derive(Clone, Copy, Debug, PartialEq, Eq, Structural)]
pub struct GDay {
    pub day: u8,
    pub offset: i16,
}

impl GDay {
    /// The stored form: the stored forms of the fields, in order (3 bytes).
    pub open spec fn spec_lexical(self) -> Seq<u8> {
        spec_u8_lexical(self.day) + spec_i16_lexical(self.offset)
    }

    /// The value read from the front of a stored form.
    pub open spec fn spec_from_lexical(s: Seq<u8>) -> GDay {
        GDay { day: spec_u8_from_lexical(s), offset: spec_i16_from_lexical(s.skip(1)) }
    }

    /// Field-by-field (lexicographic) order of values.
    pub open spec fn spec_lt(self, other: GDay) -> bool {
        self.day < other.day || (self.day == other.day && (self.offset < other.offset))
    }

    /// The text of the value.
    pub open spec fn spec_text(self) -> Seq<char> {
        seq!['-', '-', '-'] + spec_zero_padded(self.day as int, 2) + spec_offset_string(self.offset)
    }

    pub fn to_lexical(&self) -> (r: Vec<u8>)
        ensures
            r@ == self.spec_lexical(),
    {
        let mut r = u8_to_lexical(self.day);
        let mut offset = i16_to_lexical(self.offset);
        r.append(&mut offset);
        r
    }

    /// Reads a value from the first 3 bytes of `b`.
    pub fn from_lexical(b: &[u8]) -> (v: GDay)
        requires
            b@.len() >= 3,
        ensures
            v == GDay::spec_from_lexical(b@),
    {
        let day = u8_from_lexical(b);
        let offset = i16_from_lexical(skip_bytes(b, 1));
        GDay { day, offset }
    }

    /// The text of the value held by a stored form.
    pub fn string_from_lexical(b: &[u8]) -> (s: String)
        requires
            b@.len() >= 3,
        ensures
            s@ == GDay::spec_from_lexical(b@).spec_text(),
    {
        let v = GDay::from_lexical(b);
        let mut out = String::new();
        proof {
            reveal_strlit("---");
        }
        push_str(&mut out, "---");
        push_zero_padded(&mut out, v.day as i64, 2);
        let off = offset_string(v.offset);
        push_str(&mut out, off.as_str());
        out
    }
}

/// Reading back the stored form of an `xsd:gDay` gives the same value.
pub proof fn lemma_g_day_lexical_roundtrip(v: GDay)
    ensures
        v.spec_lexical().len() == 3,
        GDay::spec_from_lexical(v.spec_lexical()) == v,
{
    lemma_u8_lexical_roundtrip(v.day);
    lemma_i16_lexical_roundtrip(v.offset);
    let s = v.spec_lexical();
    assert(s.take(1) =~= spec_u8_lexical(v.day).take(1));
    assert(s.skip(1).take(2) =~= spec_i16_lexical(v.offset).take(2));
}

/// Stored forms of `xsd:gDay` values sort bytewise in field-by-field order.
pub proof fn lemma_g_day_lexical_order(a: GDay, b: GDay)
    ensures
        a.spec_lt(b) <==> lex_lt(a.spec_lexical(), b.spec_lexical()),
{
    lemma_u8_lexical_roundtrip(a.day);
    lemma_u8_lexical_roundtrip(b.day);
    lemma_u8_lexical_order(a.day, b.day);
    lemma_i16_lexical_roundtrip(a.offset);
    lemma_i16_lexical_roundtrip(b.offset);
    lemma_i16_lexical_order(a.offset, b.offset);
    lemma_lex_concat(spec_u8_lexical(a.day), spec_i16_lexical(a.offset), spec_u8_lexical(b.day), spec_i16_lexical(b.offset));
    lemma_concat_eq(spec_u8_lexical(a.day), spec_i16_lexical(a.offset), spec_u8_lexical(b.day), spec_i16_lexical(b.offset));
    if spec_u8_lexical(a.day) == spec_u8_lexical(b.day) {
        assert(a.day == b.day);
    }
    if spec_i16_lexical(a.offset) == spec_i16_lexical(b.offset) {
        assert(a.offset == b.offset);
    }
}

/// An `xsd:gYearMonth`: a month of a year with a time-zone offset in minutes.
#[derive(Clone, Copy, Debug, PartialEq, Eq, Structural)]
pub struct GYearMonth {
    pub year: i64,
    pub month: u8,
    pub offset: i16,
}

impl GYearMonth {
    /// The stored form: the stored forms of the fields, in order (11 bytes).
    pub open spec fn spec_lexical(self) -> Seq<u8> {
        spec_i64_lexical(self.year) + spec_u8_lexical(self.month) + spec_i16_lexical(self.offset)
    }

    /// The value read from the front of a stored form.
    pub open spec fn spec_from_lexical(s: Seq<u8>) -> GYearMonth {
        GYearMonth { year: spec_i64_from_lexical(s), month: spec_u8_from_lexical(s.skip(8)), offset: spec_i16_from_lexical(s.skip(9)) }
    }

    /// Field-by-field (lexicographic) order of values.
    pub open spec fn spec_lt(self, other: GYearMonth) -> bool {
        self.year < other.year || (self.year == other.year && (self.month < other.month || (self.month == other.month && (self.offset < other.offset))))
    }

    /// The text of the value.
    pub open spec fn spec_text(self) -> Seq<char> {
        spec_zero_padded(self.year as int, 4) + seq!['-'] + spec_zero_padded(self.month as int, 2) + spec_offset_string(self.offset)
    }

    pub fn to_lexical(&self) -> (r: Vec<u8>)
        ensures
            r@ == self.spec_lexical(),
    {
        let mut r = i64_to_lexical(self.year);
        let mut month = u8_to_lexical(self.month);
        r.append(&mut month);
        let mut offset = i16_to_lexical(self.offset);
        r.append(&mut offset);
        r
    }

    /// Reads a value from the first 11 bytes of `b`.
    pub fn from_lexical(b: &[u8]) -> (v: GYearMonth)
        requires
            b@.len() >= 11,
        ensures
            v == GYearMonth::spec_from_lexical(b@),
    {
        let year = i64_from_lexical(b);
        let month = u8_from_lexical(skip_bytes(b, 8));
        let offset = i16_from_lexical(skip_bytes(b, 9));
        GYearMonth { year, month, offset }
    }

    /// The text of the value held by a stored form.
    pub fn string_from_lexical(b: &[u8]) -> (s: String)
        requires
            b@.len() >= 11,
        ensures
            s@ == GYearMonth::spec_from_lexical(b@).spec_text(),
    {
        let v = GYearMonth::from_lexical(b);
        let mut out = String::new();
        proof {
            reveal_strlit("-");
        }
        push_zero_padded(&mut out, v.year as i64, 4);
        push_str(&mut out, "-");
        push_zero_padded(&mut out, v.month as i64, 2);
        let off = offset_string(v.offset);
        push_str(&mut out, off.as_str());
        out
    }
}

/// Reading back the stored form of an `xsd:gYearMonth` gives the same value.
pub proof fn lemma_g_year_month_lexical_roundtrip(v: GYearMonth)
    ensures
        v.spec_lexical().len() == 11,
        GYearMonth::spec_from_lexical(v.spec_lexical()) == v,
{
    lemma_i64_lexical_roundtrip(v.year);
    lemma_u8_lexical_roundtrip(v.month);
    lemma_i16_lexical_roundtrip(v.offset);
    let s = v.spec_lexical();
    assert(s.take(8) =~= spec_i64_lexical(v.year).take(8));
    assert(s.skip(8).take(1) =~= spec_u8_lexical(v.month).take(1));
    assert(s.skip(9).take(2) =~= spec_i16_lexical(v.offset).take(2));
}

/// Stored forms of `xsd:gYearMonth` values sort bytewise in field-by-field order.
pub proof fn lemma_g_year_month_lexical_order(a: GYearMonth, b: GYearMonth)
    ensures
        a.spec_lt(b) <==> lex_lt(a.spec_lexical(), b.spec_lexical()),
{
    lemma_i64_lexical_roundtrip(a.year);
    lemma_i64_lexical_roundtrip(b.year);
    lemma_i64_lexical_order(a.year, b.year);
    lemma_u8_lexical_roundtrip(a.month);
    lemma_u8_lexical_roundtrip(b.month);
    lemma_u8_lexical_order(a.month, b.month);
    lemma_i16_lexical_roundtrip(a.offset);
    lemma_i16_lexical_roundtrip(b.offset);
    lemma_i16_lexical_order(a.offset, b.offset);
    lemma_lex_concat(spec_i64_lexical(a.year) + spec_u8_lexical(a.month), spec_i16_lexical(a.offset), spec_i64_lexical(b.year) + spec_u8_lexical(b.month), spec_i16_lexical(b.offset));
    lemma_concat_eq(spec_i64_lexical(a.year) + spec_u8_lexical(a.month), spec_i16_lexical(a.offset), spec_i64_lexical(b.year) + spec_u8_lexical(b.month), spec_i16_lexical(b.offset));
    lemma_lex_concat(spec_i64_lexical(a.year), spec_u8_lexical(a.month), spec_i64_lexical(b.year), spec_u8_lexical(b.month));
    lemma_concat_eq(spec_i64_lexical(a.year), spec_u8_lexical(a.month), spec_i64_lexical(b.year), spec_u8_lexical(b.month));
    if spec_i64_lexical(a.year) == spec_i64_lexical(b.year) {
        assert(a.year == b.year);
    }
    if spec_u8_lexical(a.month) == spec_u8_lexical(b.month) {
        assert(a.month == b.month);
    }
    if spec_i16_lexical(a.offset) == spec_i16_lexical(b.offset) {
        assert(a.offset == b.offset);
    }
}

/// An `xsd:gMonthDay`: a day of a month of every year with a time-zone offset in minutes.
#[derive(Clone, Copy, Debug, PartialEq, Eq, Structural)]
pub struct GMonthDay {
    pub month: u8,
    pub day: u8,
    pub offset: i16,
}

impl GMonthDay {
    /// The stored form: the stored forms of the fields, in order (4 bytes).
    pub open spec fn spec_lexical(self) -> Seq<u8> {
        spec_u8_lexical(self.month) + spec_u8_lexical(self.day) + spec_i16_lexical(self.offset)
    }

    /// The value read from the front of a stored form.
    pub open spec fn spec_from_lexical(s: Seq<u8>) -> GMonthDay {
        GMonthDay { month: spec_u8_from_lexical(s), day: spec_u8_from_lexical(s.skip(1)), offset: spec_i16_from_lexical(s.skip(2)) }
    }

    /// Field-by-field (lexicographic) order of values.
    pub open spec fn spec_lt(self, other: GMonthDay) -> bool {
        self.month < other.month || (self.month == other.month && (self.day < other.day || (self.day == other.day && (self.offset < other.offset))))
    }

    /// The text of the value.
    pub open spec fn spec_text(self) -> Seq<char> {
        seq!['-', '-'] + spec_zero_padded(self.month as int, 2) + seq!['-'] + spec_zero_padded(self.day as int, 2) + spec_offset_string(self.offset)
    }

    pub fn to_lexical(&self) -> (r: Vec<u8>)
        ensures
            r@ == self.spec_lexical(),
    {
        let mut r = u8_to_lexical(self.month);
        let mut day = u8_to_lexical(self.day);
        r.append(&mut day);
        let mut offset = i16_to_lexical(self.offset);
        r.append(&mut offset);
        r
    }

    /// Reads a value from the first 4 bytes of `b`.
    pub fn from_lexical(b: &[u8]) -> (v: GMonthDay)
        requires
            b@.len() >= 4,
        ensures
            v == GMonthDay::spec_from_lexical(b@),
    {
        let month = u8_from_lexical(b);
        let day = u8_from_lexical(skip_bytes(b, 1));
        let offset = i16_from_lexical(skip_bytes(b, 2));
        GMonthDay { month, day, offset }
    }

    /// The text of the value held by a stored form.
    pub fn string_from_lexical(b: &[u8]) -> (s: String)
        requires
            b@.len() >= 4,
        ensures
            s@ == GMonthDay::spec_from_lexical(b@).spec_text(),
    {
        let v = GMonthDay::from_lexical(b);
        let mut out = String::new();
        proof {
            reveal_strlit("-");
            reveal_strlit("--");
        }
        push_str(&mut out, "--");
        push_zero_padded(&mut out, v.month as i64, 2);
        push_str(&mut out, "-");
        push_zero_padded(&mut out, v.day as i64, 2);
        let off = offset_string(v.offset);
        push_str(&mut out, off.as_str());
        out
    }
}

/// Reading back the stored form of an `xsd:gMonthDay` gives the same value.
pub proof fn lemma_g_month_day_lexical_roundtrip(v: GMonthDay)
    ensures
        v.spec_lexical().len() == 4,
        GMonthDay::spec_from_lexical(v.spec_lexical()) == v,
{
    lemma_u8_lexical_roundtrip(v.month);
    lemma_u8_lexical_roundtrip(v.day);
    lemma_i16_lexical_roundtrip(v.offset);
    let s = v.spec_lexical();
    assert(s.take(1) =~= spec_u8_lexical(v.month).take(1));
    assert(s.skip(1).take(1) =~= spec_u8_lexical(v.day).take(1));
    assert(s.skip(2).take(2) =~= spec_i16_lexical(v.offset).take(2));
}

/// Stored forms of `xsd:gMonthDay` values sort bytewise in field-by-field order.
pub proof fn lemma_g_month_day_lexical_order(a: GMonthDay, b: GMonthDay)
    ensures
        a.spec_lt(b) <==> lex_lt(a.spec_lexical(), b.spec_lexical()),
{
    lemma_u8_lexical_roundtrip(a.month);
    lemma_u8_lexical_roundtrip(b.month);
    lemma_u8_lexical_order(a.month, b.month);
    lemma_u8_lexical_roundtrip(a.day);
    lemma_u8_lexical_roundtrip(b.day);
    lemma_u8_lexical_order(a.day, b.day);
    lemma_i16_lexical_roundtrip(a.offset);
    lemma_i16_lexical_roundtrip(b.offset);
    lemma_i16_lexical_order(a.offset, b.offset);
    lemma_lex_concat(spec_u8_lexical(a.month) + spec_u8_lexical(a.day), spec_i16_lexical(a.offset), spec_u8_lexical(b.month) + spec_u8_lexical(b.day), spec_i16_lexical(b.offset));
    lemma_concat_eq(spec_u8_lexical(a.month) + spec_u8_lexical(a.day), spec_i16_lexical(a.offset), spec_u8_lexical(b.month) + spec_u8_lexical(b.day), spec_i16_lexical(b.offset));
    lemma_lex_concat(spec_u8_lexical(a.month), spec_u8_lexical(a.day), spec_u8_lexical(b.month), spec_u8_lexical(b.day));
    lemma_concat_eq(spec_u8_lexical(a.month), spec_u8_lexical(a.day), spec_u8_lexical(b.month), spec_u8_lexical(b.day));
    if spec_u8_lexical(a.month) == spec_u8_lexical(b.month) {
        assert(a.month == b.month);
    }
    if spec_u8_lexical(a.day) == spec_u8_lexical(b.day) {
        assert(a.day == b.day);
    }
    if spec_i16_lexical(a.offset) == spec_i16_lexical(b.offset) {
        assert(a.offset == b.offset);
    }
}

// ---------------------------------------------------------------------------
// The text of stored values
// ---------------------------------------------------------------------------

/// The offset text is empty exactly for a zero offset; any other offset
/// shows, starting with a sign. A positive offset is `+HH:MM` in whole hours
/// and the remaining minutes; a negative one takes the hours and minutes of
/// Rust's truncating division, each with its own minus sign, and is led by
/// `-` only when at least an hour.
pub proof fn lemma_offset_text_shows(offset: i16)
    ensures
        offset == 0 ==> spec_offset_string(offset).len() == 0,
        offset != 0 ==> spec_offset_string(offset).len() > 0 && (spec_offset_string(offset)[0]
            == '+' || spec_offset_string(offset)[0] == '-'),
        offset > 0 ==> spec_offset_string(offset) == seq!['+'] + spec_zero_padded(
            (offset as int) / 60,
            2,
        ) + seq![':'] + spec_zero_padded((offset as int) % 60, 2),
        offset < 0 ==> spec_offset_string(offset) == (if offset <= -60 {
            seq!['-']
        } else {
            seq!['+']
        }) + spec_zero_padded(-((-(offset as int)) / 60), 2) + seq![':'] + spec_zero_padded(
            -((-(offset as int)) % 60),
            2,
        ),
{
}

/// The text read from the stored form of an `xsd:date` is its year padded
/// to four digits, `-`, its month and day padded to two, then its offset.
pub proof fn lemma_date_stored_text(v: Date)
    ensures
        Date::spec_from_lexical(v.spec_lexical()).spec_text() == spec_zero_padded(v.year as int, 4)
            + seq!['-'] + spec_zero_padded(v.month as int, 2) + seq!['-'] + spec_zero_padded(
            v.day as int,
            2,
        ) + spec_offset_string(v.offset),
{
    lemma_date_lexical_roundtrip(v);
}

/// The text read from the stored form of an `xsd:gYear` is its year padded
/// to four digits, then its offset.
pub proof fn lemma_g_year_stored_text(v: GYear)
    ensures
        GYear::spec_from_lexical(v.spec_lexical()).spec_text() == spec_zero_padded(v.year as int, 4)
            + spec_offset_string(v.offset),
{
    lemma_g_year_lexical_roundtrip(v);
}

/// The text read from the stored form of an `xsd:gMonth` is `--`, its month
/// padded to two digits, then its offset.
pub proof fn lemma_g_month_stored_text(v: GMonth)
    ensures
        GMonth::spec_from_lexical(v.spec_lexical()).spec_text() == seq!['-', '-'] + spec_zero_padded(
            v.month as int,
            2,
        ) + spec_offset_string(v.offset),
{
    lemma_g_month_lexical_roundtrip(v);
}

/// The text read from the stored form of an `xsd:gDay` is `---`, its day
/// padded to two digits, then its offset.
pub proof fn lemma_g_day_stored_text(v: GDay)
    ensures
        GDay::spec_from_lexical(v.spec_lexical()).spec_text() == seq!['-', '-', '-']
            + spec_zero_padded(v.day as int, 2) + spec_offset_string(v.offset),
{
    lemma_g_day_lexical_roundtrip(v);
}

/// The text read from the stored form of an `xsd:gYearMonth` is its year
/// padded to four digits, `-`, its month padded to two, then its offset.
pub proof fn lemma_g_year_month_stored_text(v: GYearMonth)
    ensures
        GYearMonth::spec_from_lexical(v.spec_lexical()).spec_text() == spec_zero_padded(
            v.year as int,
            4,
        ) + seq!['-'] + spec_zero_padded(v.month as int, 2) + spec_offset_string(v.offset),
{
    lemma_g_year_month_lexical_roundtrip(v);
}

/// The text read from the stored form of an `xsd:gMonthDay` is `--`, its
/// month padded to two digits, `-`, its day padded to two, then its offset.
pub proof fn lemma_g_month_day_stored_text(v: GMonthDay)
    ensures
        GMonthDay::spec_from_lexical(v.spec_lexical()).spec_text() == seq!['-', '-']
            + spec_zero_padded(v.month as int, 2) + seq!['-'] + spec_zero_padded(v.day as int, 2)
            + spec_offset_string(v.offset),
{
    lemma_g_month_day_lexical_roundtrip(v);
}

} // verus!

//! Byte strings and text: binary values (shown as base64 or hex) and strings
//! (stored as their UTF-8 bytes).
use vstd::prelude::*;
use vstd::utf8::{decode_utf8, encode_utf8, encode_utf8_decode_utf8, encode_utf8_valid_utf8, valid_utf8};

verus! {

/// A copy of a byte slice.
pub fn copy_bytes(b: &[u8]) -> (r: Vec<u8>)
    ensures
        r@ == b@,
{
    let mut r: Vec<u8> = Vec::new();
    let mut i: usize = 0;
    while i < b.len()
        invariant
            i <= b@.len(),
            r@ == b@.take(i as int),
        decreases b@.len() - i,
    {
        assert(b@.take(i + 1) =~= b@.take(i as int).push(b@[i as int]));
        r.push(b[i]);
        i += 1;
    }
    assert(b@.take(b@.len() as int) =~= b@);
    r
}

// ---------------------------------------------------------------------------
// Strings
// ---------------------------------------------------------------------------

/// The stored form of a string: its UTF-8 bytes.
pub fn string_to_lexical(s: &str) -> (r: Vec<u8>)
    ensures
        r@ == encode_utf8(s@),
{
    copy_bytes(s.as_bytes())
}

/// Calls `String::from_utf8`. Trusted: it returns a string exactly when the
/// bytes are valid UTF-8, and then the string holds the characters they encode.
#[verifier::external_body]
pub(crate) fn string_from_utf8(v: Vec<u8>) -> (r: Option<String>)
    ensures
        r is Some <==> valid_utf8(v@),
        r matches Some(s) ==> s@ == decode_utf8(v@),
{
    String::from_utf8(v).ok()
}

/// The string held by a stored form (its UTF-8 bytes).
pub fn string_from_lexical(b: &[u8]) -> (s: String)
    requires
        valid_utf8(b@),
    ensures
        s@ == decode_utf8(b@),
{
    match string_from_utf8(copy_bytes(b)) {
        Some(s) => s,
        None => String::new(),
    }
}

/// The stored form of a string reads back as the same string.
pub proof fn lemma_string_lexical_roundtrip(s: Seq<char>)
    ensures
        valid_utf8(encode_utf8(s)),
        decode_utf8(encode_utf8(s)) == s,
{
    encode_utf8_valid_utf8(s);
    encode_utf8_decode_utf8(s);
}

// ---------------------------------------------------------------------------
// Base64 and hex
// ---------------------------------------------------------------------------

/// The base64 character for a 6-bit value (standard alphabet).
pub open spec fn base64_char(v: int) -> char {
    if v < 26 {
        (65 + v) as char
    } else if v < 52 {
        (97 + v - 26) as char
    } else if v < 62 {
        (48 + v - 52) as char
    } else if v == 62 {
        '+'
    } else {
        '/'
    }
}

/// Standard base64 with padding: every three bytes become four characters;
/// a last group of one or two bytes is padded with `=`.
pub open spec fn spec_base64(b: Seq<u8>) -> Seq<char>
    decreases b.len(),
{
    if b.len() == 0 {
        Seq::empty()
    } else {
        let b1: int = if b.len() > 1 {
            b[1] as int
        } else {
            0
        };
        let b2: int = if b.len() > 2 {
            b[2] as int
        } else {
            0
        };
        let n = b[0] * 65536 + b1 * 256 + b2;
        let c0 = base64_char(n / 262144);
        let c1 = base64_char((n / 4096) % 64);
        let c2 = if b.len() > 1 {
            base64_char((n / 64) % 64)
        } else {
            '='
        };
        let c3 = if b.len() > 2 {
            base64_char(n % 64)
        } else {
            '='
        };
        seq![c0, c1, c2, c3] + if b.len() > 3 {
            spec_base64(b.skip(3))
        } else {
            Seq::empty()
        }
    }
}

/// The lowercase hex character for a 4-bit value.
pub open spec fn hex_char(v: int) -> char {
    if v < 10 {
        (48 + v) as char
    } else {
        (97 + v - 10) as char
    }
}

/// Lowercase hex: two characters per byte, high half first.
pub open spec fn spec_hex(b: Seq<u8>) -> Seq<char>
    decreases b.len(),
{
    if b.len() == 0 {
        Seq::empty()
    } else {
        seq![hex_char(b[0] as int / 16), hex_char(b[0] as int % 16)] + spec_hex(b.drop_first())
    }
}

/// Calls `base64::display::Base64Display` with the `STANDARD` engine and
/// formats it. Trusted: the text is the standard, padded base64 of the bytes.
#[verifier::external_body]
fn base64_standard(bytes: &[u8]) -> (r: String)
    ensures
        r@ == spec_base64(bytes@),
{
    let wrapper = base64::display::Base64Display::new(
        bytes,
        &base64::engine::general_purpose::STANDARD,
    );
    format!("{wrapper}")
}

/// Calls `hex::encode`. Trusted: the text is the lowercase hex of the bytes.
#[verifier::external_body]
fn hex_encode(bytes: &[u8]) -> (r: String)
    ensures
        r@ == spec_hex(bytes@),
{
    hex::encode(bytes)
}

/// An `xsd:base64Binary` value: raw bytes, shown as base64.
#[derive(Debug)]
pub struct Base64Binary(pub Vec<u8>);

impl Base64Binary {
    /// The stored form: the bytes themselves.
    pub fn to_lexical(&self) -> (r: Vec<u8>)
        ensures
            r@ == self.0@,
    {
        copy_bytes(self.0.as_slice())
    }

    /// The value of a stored form: all of its bytes.
    pub fn from_lexical(b: &[u8]) -> (v: Base64Binary)
        ensures
            v.0@ == b@,
    {
        Base64Binary(copy_bytes(b))
    }

    /// The base64 text of the value held by a stored form.
    pub fn string_from_lexical(b: &[u8]) -> (s: String)
        ensures
            s@ == spec_base64(b@),
    {
        let v = copy_bytes(b);
        base64_standard(v.as_slice())
    }
}

/// An `xsd:hexBinary` value: raw bytes, shown as hex.
#[derive(Debug)]
pub struct HexBinary(pub Vec<u8>);

impl HexBinary {
    /// The stored form: the bytes themselves.
    pub fn to_lexical(&self) -> (r: Vec<u8>)
        ensures
            r@ == self.0@,
    {
        copy_bytes(self.0.as_slice())
    }

    /// The value of a stored form: all of its bytes.
    pub fn from_lexical(b: &[u8]) -> (v: HexBinary)
        ensures
            v.0@ == b@,
    {
        HexBinary(copy_bytes(b))
    }

    /// The hex text of the value held by a stored form.
    pub fn string_from_lexical(b: &[u8]) -> (s: String)
        ensures
            s@ == spec_hex(b@),
    {
        let v = copy_bytes(b);
        hex_encode(v.as_slice())
    }
}

} // verus!

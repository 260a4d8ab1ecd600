//! Storage ("lexical") forms of the fixed-width primitive values.
//!
//! Unsigned integers are stored big-endian; signed integers are stored
//! big-endian with the sign bit flipped, so that the bytewise order of the
//! stored forms is the numeric order of the values. Floating-point numbers
//! are handled through their IEEE-754 bit patterns: negative numbers have all
//! bits flipped, the others only the sign bit.
use vstd::prelude::*;
use crate::bigendian::{
    be_bytes, be_value, decode_be, encode_be, lemma_be_bytes_len, lemma_be_order, lemma_be_value_bound,
    lemma_be_value_of_bytes, lemma_bytes_of_be_value, lex_lt, pow256,
};

verus! {

pub const I8_BYTE_MASK: u8 = 0x80;
pub const I16_BYTE_MASK: u16 = 0x8000;
pub const I32_BYTE_MASK: u32 = 0x8000_0000;
pub const I64_BYTE_MASK: u64 = 0x8000_0000_0000_0000;
pub const F32_SIGN_MASK: u32 = 0x8000_0000;
pub const F32_COMPLEMENT: u32 = 0xffff_ffff;
pub const F64_SIGN_MASK: u64 = 0x8000_0000_0000_0000;
pub const F64_COMPLEMENT: u64 = 0xffff_ffff_ffff_ffff;

// ---------------------------------------------------------------------------
// Specifications of the stored forms
// ---------------------------------------------------------------------------

pub open spec fn spec_u8_lexical(v: u8) -> Seq<u8> {
    be_bytes(v as nat, 1)
}

pub open spec fn spec_u16_lexical(v: u16) -> Seq<u8> {
    be_bytes(v as nat, 2)
}

pub open spec fn spec_u32_lexical(v: u32) -> Seq<u8> {
    be_bytes(v as nat, 4)
}

pub open spec fn spec_u64_lexical(v: u64) -> Seq<u8> {
    be_bytes(v as nat, 8)
}

/// The stored form of an `i8`: the big-endian form of `v + 2^7`.
pub open spec fn spec_i8_lexical(v: i8) -> Seq<u8> {
    be_bytes((v + 0x80) as nat, 1)
}

pub open spec fn spec_i16_lexical(v: i16) -> Seq<u8> {
    be_bytes((v + 0x8000) as nat, 2)
}

pub open spec fn spec_i32_lexical(v: i32) -> Seq<u8> {
    be_bytes((v + 0x8000_0000) as nat, 4)
}

pub open spec fn spec_i64_lexical(v: i64) -> Seq<u8> {
    be_bytes((v + 0x8000_0000_0000_0000) as nat, 8)
}

pub open spec fn spec_u8_from_lexical(s: Seq<u8>) -> u8 {
    be_value(s.take(1)) as u8
}

pub open spec fn spec_u16_from_lexical(s: Seq<u8>) -> u16 {
    be_value(s.take(2)) as u16
}

pub open spec fn spec_u32_from_lexical(s: Seq<u8>) -> u32 {
    be_value(s.take(4)) as u32
}

pub open spec fn spec_u64_from_lexical(s: Seq<u8>) -> u64 {
    be_value(s.take(8)) as u64
}

pub open spec fn spec_i8_from_lexical(s: Seq<u8>) -> i8 {
    (be_value(s.take(1)) - 0x80) as i8
}

pub open spec fn spec_i16_from_lexical(s: Seq<u8>) -> i16 {
    (be_value(s.take(2)) - 0x8000) as i16
}

pub open spec fn spec_i32_from_lexical(s: Seq<u8>) -> i32 {
    (be_value(s.take(4)) - 0x8000_0000) as i32
}

pub open spec fn spec_i64_from_lexical(s: Seq<u8>) -> i64 {
    (be_value(s.take(8)) - 0x8000_0000_0000_0000) as i64
}

/// Plain two's complement big-endian reading of two bytes.
pub open spec fn spec_i16_twos_complement(s: Seq<u8>) -> i16 {
    let u = be_value(s.take(2));
    (if u < 0x8000 { u as int } else { u - 0x1_0000 }) as i16
}

pub open spec fn spec_bool_lexical(v: bool) -> Seq<u8> {
    if v {
        seq![1u8]
    } else {
        seq![0u8]
    }
}

// ---------------------------------------------------------------------------
// IEEE-754 bit patterns
// ---------------------------------------------------------------------------

/// The bit pattern of a 32-bit float is a NaN.
pub open spec fn f32_bits_is_nan(b: u32) -> bool {
    (b >> 23) & 0xff == 0xff && b & 0x7f_ffff != 0
}

/// `signum()` of the float is -1.0: its sign bit is set and it is not a NaN
/// (negative numbers, -0.0 and negative infinity).
pub open spec fn f32_bits_is_negative(b: u32) -> bool {
    b & F32_SIGN_MASK != 0 && !f32_bits_is_nan(b)
}

pub open spec fn f64_bits_is_nan(b: u64) -> bool {
    (b >> 52) & 0x7ff == 0x7ff && b & 0xf_ffff_ffff_ffff != 0
}

pub open spec fn f64_bits_is_negative(b: u64) -> bool {
    b & F64_SIGN_MASK != 0 && !f64_bits_is_nan(b)
}

/// The sortable key of a 32-bit float bit pattern.
pub open spec fn spec_f32_key(b: u32) -> u32 {
    if f32_bits_is_negative(b) {
        b ^ F32_COMPLEMENT
    } else {
        b ^ F32_SIGN_MASK
    }
}

/// The bit pattern that a stored 32-bit key stands for.
pub open spec fn spec_f32_bits_of_key(k: u32) -> u32 {
    if k & F32_SIGN_MASK != 0 {
        k ^ F32_SIGN_MASK
    } else {
        k ^ F32_COMPLEMENT
    }
}

pub open spec fn spec_f64_key(b: u64) -> u64 {
    if f64_bits_is_negative(b) {
        b ^ F64_COMPLEMENT
    } else {
        b ^ F64_SIGN_MASK
    }
}

pub open spec fn spec_f64_bits_of_key(k: u64) -> u64 {
    if k & F64_SIGN_MASK != 0 {
        k ^ F64_SIGN_MASK
    } else {
        k ^ F64_COMPLEMENT
    }
}

/// Sign-magnitude reading of a float bit pattern as an integer, with -0.0
/// just below +0.0; on non-NaN patterns this order is the order of the
/// floats' values.
pub open spec fn f32_sign_magnitude(b: u32) -> int {
    if b & F32_SIGN_MASK != 0 {
        -((b & 0x7fff_ffff) as int) - 1
    } else {
        b as int
    }
}

pub open spec fn f64_sign_magnitude(b: u64) -> int {
    if b & F64_SIGN_MASK != 0 {
        -((b & 0x7fff_ffff_ffff_ffff) as int) - 1
    } else {
        b as int
    }
}

pub open spec fn spec_f32_lexical(b: u32) -> Seq<u8> {
    be_bytes(spec_f32_key(b) as nat, 4)
}

pub open spec fn spec_f64_lexical(b: u64) -> Seq<u8> {
    be_bytes(spec_f64_key(b) as nat, 8)
}

pub open spec fn spec_f32_bits_from_lexical(s: Seq<u8>) -> u32 {
    spec_f32_bits_of_key(be_value(s.take(4)) as u32)
}

pub open spec fn spec_f64_bits_from_lexical(s: Seq<u8>) -> u64 {
    spec_f64_bits_of_key(be_value(s.take(8)) as u64)
}

// ---------------------------------------------------------------------------
// Encoders and decoders
// ---------------------------------------------------------------------------

proof fn lemma_read_width(s: Seq<u8>, n: nat)
    requires
        n <= s.len(),
    ensures
        be_value(s.take(n as int)) < pow256(n),
        s.take(n as int).len() == n,
{
    lemma_be_value_bound(s.take(n as int));
}

pub fn u8_to_lexical(v: u8) -> (r: Vec<u8>)
    ensures
        r@ == spec_u8_lexical(v),
{
    encode_be(v as u64, 1)
}

pub fn u8_from_lexical(b: &[u8]) -> (v: u8)
    requires
        b@.len() >= 1,
    ensures
        v == spec_u8_from_lexical(b@),
        v as nat == be_value(b@.take(1)),
{
    proof {
        lemma_read_width(b@, 1);
        reveal_with_fuel(pow256, 2);
    }
    decode_be(b, 1) as u8
}

pub fn u16_to_lexical(v: u16) -> (r: Vec<u8>)
    ensures
        r@ == spec_u16_lexical(v),
{
    encode_be(v as u64, 2)
}

pub fn u16_from_lexical(b: &[u8]) -> (v: u16)
    requires
        b@.len() >= 2,
    ensures
        v == spec_u16_from_lexical(b@),
        v as nat == be_value(b@.take(2)),
{
    proof {
        lemma_read_width(b@, 2);
        reveal_with_fuel(pow256, 3);
    }
    decode_be(b, 2) as u16
}

pub fn u32_to_lexical(v: u32) -> (r: Vec<u8>)
    ensures
        r@ == spec_u32_lexical(v),
{
    encode_be(v as u64, 4)
}

pub fn u32_from_lexical(b: &[u8]) -> (v: u32)
    requires
        b@.len() >= 4,
    ensures
        v == spec_u32_from_lexical(b@),
        v as nat == be_value(b@.take(4)),
{
    proof {
        lemma_read_width(b@, 4);
        reveal_with_fuel(pow256, 5);
    }
    decode_be(b, 4) as u32
}

/// A `u32` read from the two-byte form of a `u16`.
pub fn u32_from_u16_lexical(b: &[u8]) -> (v: u32)
    requires
        b@.len() >= 2,
    ensures
        v == spec_u16_from_lexical(b@) as u32,
{
    u16_from_lexical(b) as u32
}

pub fn u64_to_lexical(v: u64) -> (r: Vec<u8>)
    ensures
        r@ == spec_u64_lexical(v),
{
    encode_be(v, 8)
}

pub fn u64_from_lexical(b: &[u8]) -> (v: u64)
    requires
        b@.len() >= 8,
    ensures
        v == spec_u64_from_lexical(b@),
        v as nat == be_value(b@.take(8)),
{
    decode_be(b, 8)
}

pub fn i8_to_lexical(v: i8) -> (r: Vec<u8>)
    ensures
        r@ == spec_i8_lexical(v),
{
    let flipped: u8 = I8_BYTE_MASK ^ (v as u8);
    assert(I8_BYTE_MASK ^ (v as u8) == (v + 0x80) as u8) by (bit_vector);
    encode_be(flipped as u64, 1)
}

pub fn i8_from_lexical(b: &[u8]) -> (v: i8)
    requires
        b@.len() >= 1,
    ensures
        v == spec_i8_from_lexical(b@),
        v as int == be_value(b@.take(1)) - 0x80,
{
    let i = u8_from_lexical(b);
    assert((I8_BYTE_MASK ^ i) as i8 == (i - 0x80) as i8) by (bit_vector);
    (I8_BYTE_MASK ^ i) as i8
}

pub fn i16_to_lexical(v: i16) -> (r: Vec<u8>)
    ensures
        r@ == spec_i16_lexical(v),
{
    let flipped: u16 = I16_BYTE_MASK ^ (v as u16);
    assert(I16_BYTE_MASK ^ (v as u16) == (v + 0x8000) as u16) by (bit_vector);
    encode_be(flipped as u64, 2)
}

pub fn i16_from_lexical(b: &[u8]) -> (v: i16)
    requires
        b@.len() >= 2,
    ensures
        v == spec_i16_from_lexical(b@),
        v as int == be_value(b@.take(2)) - 0x8000,
{
    let i = u16_from_lexical(b);
    assert((I16_BYTE_MASK ^ i) as i16 == (i - 0x8000) as i16) by (bit_vector);
    (I16_BYTE_MASK ^ i) as i16
}

pub fn i32_to_lexical(v: i32) -> (r: Vec<u8>)
    ensures
        r@ == spec_i32_lexical(v),
{
    let flipped: u32 = I32_BYTE_MASK ^ (v as u32);
    assert(I32_BYTE_MASK ^ (v as u32) == (v + 0x8000_0000) as u32) by (bit_vector);
    encode_be(flipped as u64, 4)
}

pub fn i32_from_lexical(b: &[u8]) -> (v: i32)
    requires
        b@.len() >= 4,
    ensures
        v == spec_i32_from_lexical(b@),
        v as int == be_value(b@.take(4)) - 0x8000_0000,
{
    let i = u32_from_lexical(b);
    assert((I32_BYTE_MASK ^ i) as i32 == (i - 0x8000_0000) as i32) by (bit_vector);
    (I32_BYTE_MASK ^ i) as i32
}

/// An `i32` read from two bytes holding a plain two's complement `i16`.
pub fn i32_from_i16_lexical(b: &[u8]) -> (v: i32)
    requires
        b@.len() >= 2,
    ensures
        v == spec_i16_twos_complement(b@) as i32,
{
    let u = u16_from_lexical(b);
    let s: i16 = u as i16;
    assert(u as i16 == (if u < 0x8000 { u as int } else { u - 0x1_0000 }) as i16) by (bit_vector);
    s as i32
}

/// An `i32` read from the two-byte form of a `u16`.
pub fn i32_from_u16_lexical(b: &[u8]) -> (v: i32)
    requires
        b@.len() >= 2,
    ensures
        v == spec_u16_from_lexical(b@) as i32,
{
    u16_from_lexical(b) as i32
}

pub fn i64_to_lexical(v: i64) -> (r: Vec<u8>)
    ensures
        r@ == spec_i64_lexical(v),
{
    let flipped: u64 = I64_BYTE_MASK ^ (v as u64);
    assert(I64_BYTE_MASK ^ (v as u64) == (v + 0x8000_0000_0000_0000) as u64) by (bit_vector);
    encode_be(flipped, 8)
}

pub fn i64_from_lexical(b: &[u8]) -> (v: i64)
    requires
        b@.len() >= 8,
    ensures
        v == spec_i64_from_lexical(b@),
        v as int == be_value(b@.take(8)) - 0x8000_0000_0000_0000,
{
    let i = u64_from_lexical(b);
    assert((I64_BYTE_MASK ^ i) as i64 == (i - 0x8000_0000_0000_0000) as i64) by (bit_vector);
    (I64_BYTE_MASK ^ i) as i64
}

pub fn bool_to_lexical(v: bool) -> (r: Vec<u8>)
    ensures
        r@ == spec_bool_lexical(v),
{
    if v {
        vec![1u8]
    } else {
        vec![0u8]
    }
}

/// A stored boolean: any non-zero first byte is `true`.
pub fn bool_from_lexical(b: &[u8]) -> (v: bool)
    requires
        b@.len() >= 1,
    ensures
        v == (b@[0] != 0),
{
    b[0] != 0
}

/// Whether a 32-bit float bit pattern has `signum() == -1.0`.
pub fn f32_bits_negative(b: u32) -> (r: bool)
    ensures
        r == f32_bits_is_negative(b),
{
    let nan = (b >> 23) & 0xff == 0xff && b & 0x7f_ffff != 0;
    b & F32_SIGN_MASK != 0 && !nan
}

pub fn f64_bits_negative(b: u64) -> (r: bool)
    ensures
        r == f64_bits_is_negative(b),
{
    let nan = (b >> 52) & 0x7ff == 0x7ff && b & 0xf_ffff_ffff_ffff != 0;
    b & F64_SIGN_MASK != 0 && !nan
}

/// Stored form of a 32-bit float, given by its bit pattern.
pub fn f32_bits_to_lexical(b: u32) -> (r: Vec<u8>)
    ensures
        r@ == spec_f32_lexical(b),
{
    let g: u32 = if f32_bits_negative(b) {
        b ^ F32_COMPLEMENT
    } else {
        b ^ F32_SIGN_MASK
    };
    encode_be(g as u64, 4)
}

/// Bit pattern of the 32-bit float held by a stored form.
pub fn f32_bits_from_lexical(b: &[u8]) -> (r: u32)
    requires
        b@.len() >= 4,
    ensures
        r == spec_f32_bits_from_lexical(b@),
{
    let i = u32_from_lexical(b);
    if i & F32_SIGN_MASK > 0 {
        i ^ F32_SIGN_MASK
    } else {
        i ^ F32_COMPLEMENT
    }
}

pub fn f64_bits_to_lexical(b: u64) -> (r: Vec<u8>)
    ensures
        r@ == spec_f64_lexical(b),
{
    let g: u64 = if f64_bits_negative(b) {
        b ^ F64_COMPLEMENT
    } else {
        b ^ F64_SIGN_MASK
    };
    encode_be(g, 8)
}

pub fn f64_bits_from_lexical(b: &[u8]) -> (r: u64)
    requires
        b@.len() >= 8,
    ensures
        r == spec_f64_bits_from_lexical(b@),
{
    let i = u64_from_lexical(b);
    if i & F64_SIGN_MASK > 0 {
        i ^ F64_SIGN_MASK
    } else {
        i ^ F64_COMPLEMENT
    }
}

// ---------------------------------------------------------------------------
// Laws of the integer forms
// ---------------------------------------------------------------------------

proof fn lemma_width_codec(v: nat, n: nat)
    requires
        v < pow256(n),
    ensures
        be_bytes(v, n).len() == n,
        be_value(be_bytes(v, n)) == v,
        be_bytes(v, n).take(n as int) == be_bytes(v, n),
{
    lemma_be_bytes_len(v, n);
    lemma_be_value_of_bytes(v, n);
    assert(be_bytes(v, n).take(n as int) =~= be_bytes(v, n));
    vstd::arithmetic::div_mod::lemma_small_mod(v, pow256(n));
}

proof fn lemma_width_order(a: nat, b: nat, n: nat)
    requires
        a < pow256(n),
        b < pow256(n),
    ensures
        a < b <==> lex_lt(be_bytes(a, n), be_bytes(b, n)),
{
    lemma_width_codec(a, n);
    lemma_width_codec(b, n);
    lemma_be_order(be_bytes(a, n), be_bytes(b, n));
}

proof fn lemma_width_canonical(s: Seq<u8>, n: nat)
    requires
        n <= s.len(),
    ensures
        be_bytes(be_value(s.take(n as int)), n) == s.take(n as int),
        be_value(s.take(n as int)) < pow256(n),
{
    lemma_bytes_of_be_value(s.take(n as int));
    lemma_be_value_bound(s.take(n as int));
}

/// The stored form of a boolean is one byte and reads back as the same boolean.
pub proof fn lemma_bool_lexical_roundtrip(v: bool)
    ensures
        spec_bool_lexical(v).len() == 1,
        (spec_bool_lexical(v)[0] != 0) == v,
{
}

/// The stored form of `false` sorts before that of `true`.
pub proof fn lemma_bool_lexical_order(a: bool, b: bool)
    ensures
        (!a && b) <==> lex_lt(spec_bool_lexical(a), spec_bool_lexical(b)),
{
    reveal_with_fuel(lex_lt, 2);
}

/// The stored form of a `u8` is 1 byte long and reads back as the same `u8`.
pub proof fn lemma_u8_lexical_roundtrip(v: u8)
    ensures
        spec_u8_lexical(v).len() == 1,
        spec_u8_from_lexical(spec_u8_lexical(v)) == v,
{
    reveal_with_fuel(pow256, 2);
    lemma_width_codec(v as nat, 1);
}

/// Stored forms of `u8` values sort bytewise in the numeric order of the values.
pub proof fn lemma_u8_lexical_order(a: u8, b: u8)
    ensures
        a < b <==> lex_lt(spec_u8_lexical(a), spec_u8_lexical(b)),
{
    reveal_with_fuel(pow256, 2);
    lemma_width_order(a as nat, b as nat, 1);
}

/// Every 1-byte string is the stored form of the `u8` read from it.
pub proof fn lemma_u8_lexical_canonical(s: Seq<u8>)
    requires
        s.len() >= 1,
    ensures
        spec_u8_lexical(spec_u8_from_lexical(s)) == s.take(1),
{
    reveal_with_fuel(pow256, 2);
    lemma_width_canonical(s, 1);
}

/// The stored form of a `u16` is 2 bytes long and reads back as the same `u16`.
pub proof fn lemma_u16_lexical_roundtrip(v: u16)
    ensures
        spec_u16_lexical(v).len() == 2,
        spec_u16_from_lexical(spec_u16_lexical(v)) == v,
{
    reveal_with_fuel(pow256, 3);
    lemma_width_codec(v as nat, 2);
}

/// Stored forms of `u16` values sort bytewise in the numeric order of the values.
pub proof fn lemma_u16_lexical_order(a: u16, b: u16)
    ensures
        a < b <==> lex_lt(spec_u16_lexical(a), spec_u16_lexical(b)),
{
    reveal_with_fuel(pow256, 3);
    lemma_width_order(a as nat, b as nat, 2);
}

/// Every 2-byte string is the stored form of the `u16` read from it.
pub proof fn lemma_u16_lexical_canonical(s: Seq<u8>)
    requires
        s.len() >= 2,
    ensures
        spec_u16_lexical(spec_u16_from_lexical(s)) == s.take(2),
{
    reveal_with_fuel(pow256, 3);
    lemma_width_canonical(s, 2);
}

/// The stored form of a `u32` is 4 bytes long and reads back as the same `u32`.
pub proof fn lemma_u32_lexical_roundtrip(v: u32)
    ensures
        spec_u32_lexical(v).len() == 4,
        spec_u32_from_lexical(spec_u32_lexical(v)) == v,
{
    reveal_with_fuel(pow256, 5);
    lemma_width_codec(v as nat, 4);
}

/// Stored forms of `u32` values sort bytewise in the numeric order of the values.
pub proof fn lemma_u32_lexical_order(a: u32, b: u32)
    ensures
        a < b <==> lex_lt(spec_u32_lexical(a), spec_u32_lexical(b)),
{
    reveal_with_fuel(pow256, 5);
    lemma_width_order(a as nat, b as nat, 4);
}

/// Every 4-byte string is the stored form of the `u32` read from it.
pub proof fn lemma_u32_lexical_canonical(s: Seq<u8>)
    requires
        s.len() >= 4,
    ensures
        spec_u32_lexical(spec_u32_from_lexical(s)) == s.take(4),
{
    reveal_with_fuel(pow256, 5);
    lemma_width_canonical(s, 4);
}

/// The stored form of a `u64` is 8 bytes long and reads back as the same `u64`.
pub proof fn lemma_u64_lexical_roundtrip(v: u64)
    ensures
        spec_u64_lexical(v).len() == 8,
        spec_u64_from_lexical(spec_u64_lexical(v)) == v,
{
    reveal_with_fuel(pow256, 9);
    lemma_width_codec(v as nat, 8);
}

/// Stored forms of `u64` values sort bytewise in the numeric order of the values.
pub proof fn lemma_u64_lexical_order(a: u64, b: u64)
    ensures
        a < b <==> lex_lt(spec_u64_lexical(a), spec_u64_lexical(b)),
{
    reveal_with_fuel(pow256, 9);
    lemma_width_order(a as nat, b as nat, 8);
}

/// Every 8-byte string is the stored form of the `u64` read from it.
pub proof fn lemma_u64_lexical_canonical(s: Seq<u8>)
    requires
        s.len() >= 8,
    ensures
        spec_u64_lexical(spec_u64_from_lexical(s)) == s.take(8),
{
    reveal_with_fuel(pow256, 9);
    lemma_width_canonical(s, 8);
}

/// The stored form of an `i8` is 1 byte long and reads back as the same `i8`.
pub proof fn lemma_i8_lexical_roundtrip(v: i8)
    ensures
        spec_i8_lexical(v).len() == 1,
        spec_i8_from_lexical(spec_i8_lexical(v)) == v,
{
    reveal_with_fuel(pow256, 2);
    lemma_width_codec((v + 0x80) as nat, 1);
}

/// Stored forms of `i8` values sort bytewise in the numeric order of the values.
pub proof fn lemma_i8_lexical_order(a: i8, b: i8)
    ensures
        a < b <==> lex_lt(spec_i8_lexical(a), spec_i8_lexical(b)),
{
    reveal_with_fuel(pow256, 2);
    lemma_width_order((a + 0x80) as nat, (b + 0x80) as nat, 1);
}

/// Every 1-byte string is the stored form of the `i8` read from it.
pub proof fn lemma_i8_lexical_canonical(s: Seq<u8>)
    requires
        s.len() >= 1,
    ensures
        spec_i8_lexical(spec_i8_from_lexical(s)) == s.take(1),
{
    reveal_with_fuel(pow256, 2);
    lemma_width_canonical(s, 1);
}

/// The stored form of an `i16` is 2 bytes long and reads back as the same `i16`.
pub proof fn lemma_i16_lexical_roundtrip(v: i16)
    ensures
        spec_i16_lexical(v).len() == 2,
        spec_i16_from_lexical(spec_i16_lexical(v)) == v,
{
    reveal_with_fuel(pow256, 3);
    lemma_width_codec((v + 0x8000) as nat, 2);
}

/// Stored forms of `i16` values sort bytewise in the numeric order of the values.
pub proof fn lemma_i16_lexical_order(a: i16, b: i16)
    ensures
        a < b <==> lex_lt(spec_i16_lexical(a), spec_i16_lexical(b)),
{
    reveal_with_fuel(pow256, 3);
    lemma_width_order((a + 0x8000) as nat, (b + 0x8000) as nat, 2);
}

/// Every 2-byte string is the stored form of the `i16` read from it.
pub proof fn lemma_i16_lexical_canonical(s: Seq<u8>)
    requires
        s.len() >= 2,
    ensures
        spec_i16_lexical(spec_i16_from_lexical(s)) == s.take(2),
{
    reveal_with_fuel(pow256, 3);
    lemma_width_canonical(s, 2);
}

/// The stored form of an `i32` is 4 bytes long and reads back as the same `i32`.
pub proof fn lemma_i32_lexical_roundtrip(v: i32)
    ensures
        spec_i32_lexical(v).len() == 4,
        spec_i32_from_lexical(spec_i32_lexical(v)) == v,
{
    reveal_with_fuel(pow256, 5);
    lemma_width_codec((v + 0x8000_0000) as nat, 4);
}

/// Stored forms of `i32` values sort bytewise in the numeric order of the values.
pub proof fn lemma_i32_lexical_order(a: i32, b: i32)
    ensures
        a < b <==> lex_lt(spec_i32_lexical(a), spec_i32_lexical(b)),
{
    reveal_with_fuel(pow256, 5);
    lemma_width_order((a + 0x8000_0000) as nat, (b + 0x8000_0000) as nat, 4);
}

/// Every 4-byte string is the stored form of the `i32` read from it.
pub proof fn lemma_i32_lexical_canonical(s: Seq<u8>)
    requires
        s.len() >= 4,
    ensures
        spec_i32_lexical(spec_i32_from_lexical(s)) == s.take(4),
{
    reveal_with_fuel(pow256, 5);
    lemma_width_canonical(s, 4);
}

/// The stored form of an `i64` is 8 bytes long and reads back as the same `i64`.
pub proof fn lemma_i64_lexical_roundtrip(v: i64)
    ensures
        spec_i64_lexical(v).len() == 8,
        spec_i64_from_lexical(spec_i64_lexical(v)) == v,
{
    reveal_with_fuel(pow256, 9);
    lemma_width_codec((v + 0x8000_0000_0000_0000) as nat, 8);
}

/// Stored forms of `i64` values sort bytewise in the numeric order of the values.
pub proof fn lemma_i64_lexical_order(a: i64, b: i64)
    ensures
        a < b <==> lex_lt(spec_i64_lexical(a), spec_i64_lexical(b)),
{
    reveal_with_fuel(pow256, 9);
    lemma_width_order((a + 0x8000_0000_0000_0000) as nat, (b + 0x8000_0000_0000_0000) as nat, 8);
}

/// Every 8-byte string is the stored form of the `i64` read from it.
pub proof fn lemma_i64_lexical_canonical(s: Seq<u8>)
    requires
        s.len() >= 8,
    ensures
        spec_i64_lexical(spec_i64_from_lexical(s)) == s.take(8),
{
    reveal_with_fuel(pow256, 9);
    lemma_width_canonical(s, 8);
}

/// On non-NaN patterns the sortable key is the sign-magnitude reading
/// shifted up by 2^31.
pub proof fn lemma_f32_key_value(b: u32)
    requires
        !f32_bits_is_nan(b),
    ensures
        spec_f32_key(b) as int == f32_sign_magnitude(b) + 0x8000_0000,
{
    if b & 0x8000_0000u32 != 0 {
        assert(b & 0x8000_0000u32 != 0 ==> (b ^ 0xffff_ffffu32) as int == -((b & 0x7fff_ffffu32) as int) - 1 + 0x8000_0000)
            by (bit_vector);
    } else {
        assert(b & 0x8000_0000u32 == 0 ==> (b ^ 0x8000_0000u32) as int == b as int + 0x8000_0000) by (bit_vector);
    }
}

/// Reading back the stored form of a `f32` bit pattern gives the pattern,
/// for every pattern but the NaNs with the sign bit set.
pub proof fn lemma_f32_lexical_roundtrip(b: u32)
    requires
        !(b & 0x8000_0000u32 != 0 && f32_bits_is_nan(b)),
    ensures
        spec_f32_lexical(b).len() == 4,
        spec_f32_bits_from_lexical(spec_f32_lexical(b)) == b,
{
    reveal_with_fuel(pow256, 5);
    let k = spec_f32_key(b);
    lemma_width_codec(k as nat, 4);
    if f32_bits_is_negative(b) {
        assert(b & 0x8000_0000u32 != 0 ==> (b ^ 0xffff_ffffu32) & 0x8000_0000u32 == 0 && ((b ^ 0xffff_ffffu32) ^ 0xffff_ffffu32) == b)
            by (bit_vector);
    } else {
        assert(b & 0x8000_0000u32 == 0 ==> (b ^ 0x8000_0000u32) & 0x8000_0000u32 != 0 && ((b ^ 0x8000_0000u32) ^ 0x8000_0000u32) == b)
            by (bit_vector);
    }
}

/// Stored forms of non-NaN `f32` bit patterns sort bytewise in sign-magnitude
/// order, which is the order of the numbers with -0.0 placed just below +0.0.
pub proof fn lemma_f32_lexical_order(a: u32, b: u32)
    requires
        !f32_bits_is_nan(a),
        !f32_bits_is_nan(b),
    ensures
        f32_sign_magnitude(a) < f32_sign_magnitude(b) <==> lex_lt(
            spec_f32_lexical(a),
            spec_f32_lexical(b),
        ),
{
    reveal_with_fuel(pow256, 5);
    lemma_f32_key_value(a);
    lemma_f32_key_value(b);
    lemma_width_order(spec_f32_key(a) as nat, spec_f32_key(b) as nat, 4);
}

/// On non-NaN patterns the sortable key is the sign-magnitude reading
/// shifted up by 2^63.
pub proof fn lemma_f64_key_value(b: u64)
    requires
        !f64_bits_is_nan(b),
    ensures
        spec_f64_key(b) as int == f64_sign_magnitude(b) + 0x8000_0000_0000_0000,
{
    if b & 0x8000_0000_0000_0000u64 != 0 {
        assert(b & 0x8000_0000_0000_0000u64 != 0 ==> (b ^ 0xffff_ffff_ffff_ffffu64) as int == -((b & 0x7fff_ffff_ffff_ffffu64) as int) - 1 + 0x8000_0000_0000_0000)
            by (bit_vector);
    } else {
        assert(b & 0x8000_0000_0000_0000u64 == 0 ==> (b ^ 0x8000_0000_0000_0000u64) as int == b as int + 0x8000_0000_0000_0000) by (bit_vector);
    }
}

/// Reading back the stored form of a `f64` bit pattern gives the pattern,
/// for every pattern but the NaNs with the sign bit set.
pub proof fn lemma_f64_lexical_roundtrip(b: u64)
    requires
        !(b & 0x8000_0000_0000_0000u64 != 0 && f64_bits_is_nan(b)),
    ensures
        spec_f64_lexical(b).len() == 8,
        spec_f64_bits_from_lexical(spec_f64_lexical(b)) == b,
{
    reveal_with_fuel(pow256, 9);
    let k = spec_f64_key(b);
    lemma_width_codec(k as nat, 8);
    if f64_bits_is_negative(b) {
        assert(b & 0x8000_0000_0000_0000u64 != 0 ==> (b ^ 0xffff_ffff_ffff_ffffu64) & 0x8000_0000_0000_0000u64 == 0 && ((b ^ 0xffff_ffff_ffff_ffffu64) ^ 0xffff_ffff_ffff_ffffu64) == b)
            by (bit_vector);
    } else {
        assert(b & 0x8000_0000_0000_0000u64 == 0 ==> (b ^ 0x8000_0000_0000_0000u64) & 0x8000_0000_0000_0000u64 != 0 && ((b ^ 0x8000_0000_0000_0000u64) ^ 0x8000_0000_0000_0000u64) == b)
            by (bit_vector);
    }
}

/// Stored forms of non-NaN `f64` bit patterns sort bytewise in sign-magnitude
/// order, which is the order of the numbers with -0.0 placed just below +0.0.
pub proof fn lemma_f64_lexical_order(a: u64, b: u64)
    requires
        !f64_bits_is_nan(a),
        !f64_bits_is_nan(b),
    ensures
        f64_sign_magnitude(a) < f64_sign_magnitude(b) <==> lex_lt(
            spec_f64_lexical(a),
            spec_f64_lexical(b),
        ),
{
    reveal_with_fuel(pow256, 9);
    lemma_f64_key_value(a);
    lemma_f64_key_value(b);
    lemma_width_order(spec_f64_key(a) as nat, spec_f64_key(b) as nat, 8);
}

/// Every 8-byte string is the stored form of the `f64` bit pattern read from
/// it, unless that pattern is a NaN with the sign bit set.
pub proof fn lemma_f64_lexical_canonical(s: Seq<u8>)
    requires
        s.len() >= 8,
        !(spec_f64_bits_from_lexical(s) & 0x8000_0000_0000_0000u64 != 0 && f64_bits_is_nan(
            spec_f64_bits_from_lexical(s),
        )),
    ensures
        spec_f64_lexical(spec_f64_bits_from_lexical(s)) == s.take(8),
{
    reveal_with_fuel(pow256, 9);
    lemma_width_canonical(s, 8);
    let k = be_value(s.take(8)) as u64;
    let b = spec_f64_bits_from_lexical(s);
    assert(b == spec_f64_bits_of_key(k));
    if k & 0x8000_0000_0000_0000u64 != 0 {
        assert(k & 0x8000_0000_0000_0000u64 != 0 ==> (k ^ 0x8000_0000_0000_0000u64)
            & 0x8000_0000_0000_0000u64 == 0 && ((k ^ 0x8000_0000_0000_0000u64)
            ^ 0x8000_0000_0000_0000u64) == k) by (bit_vector);
    } else {
        assert(k & 0x8000_0000_0000_0000u64 == 0 ==> (k ^ 0xffff_ffff_ffff_ffffu64)
            & 0x8000_0000_0000_0000u64 != 0 && ((k ^ 0xffff_ffff_ffff_ffffu64)
            ^ 0xffff_ffff_ffff_ffffu64) == k) by (bit_vector);
    }
    assert(spec_f64_key(b) == k);
}

} // verus!

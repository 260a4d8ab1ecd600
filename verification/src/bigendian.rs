//! Fixed-width big-endian byte strings and the bytewise order of stored keys.
use vstd::prelude::*;
use vstd::arithmetic::div_mod::{lemma_breakdown, lemma_fundamental_div_mod_converse};

verus! {

/// 256 to the power `n`.
pub open spec fn pow256(n: nat) -> nat
    decreases n,
{
    if n == 0 {
        1
    } else {
        256 * pow256((n - 1) as nat)
    }
}

/// The number that a big-endian byte string denotes.
pub open spec fn be_value(s: Seq<u8>) -> nat
    decreases s.len(),
{
    if s.len() == 0 {
        0
    } else {
        be_value(s.drop_last()) * 256 + s.last() as nat
    }
}

/// The `n`-byte big-endian form of `v` (of `v` modulo 256^n).
pub open spec fn be_bytes(v: nat, n: nat) -> Seq<u8>
    decreases n,
{
    if n == 0 {
        Seq::empty()
    } else {
        be_bytes(v / 256, (n - 1) as nat).push((v % 256) as u8)
    }
}

/// Bytewise lexicographic order, the order in which stored keys sort.
pub open spec fn lex_lt(a: Seq<u8>, b: Seq<u8>) -> bool
    decreases a.len(),
{
    if a.len() == 0 {
        b.len() > 0
    } else if b.len() == 0 {
        false
    } else if a[0] != b[0] {
        a[0] < b[0]
    } else {
        lex_lt(a.drop_first(), b.drop_first())
    }
}

pub proof fn lemma_pow256_pos(n: nat)
    ensures
        pow256(n) > 0,
    decreases n,
{
    if n > 0 {
        lemma_pow256_pos((n - 1) as nat);
    }
}

pub proof fn lemma_pow256_mono(m: nat, n: nat)
    requires
        m <= n,
    ensures
        pow256(m) <= pow256(n),
    decreases n,
{
    if m < n {
        lemma_pow256_mono(m, (n - 1) as nat);
        lemma_pow256_pos((n - 1) as nat);
    }
}

pub proof fn lemma_pow256_8()
    ensures
        pow256(8) == 0x1_0000_0000_0000_0000,
{
    reveal_with_fuel(pow256, 9);
}

pub proof fn lemma_be_bytes_len(v: nat, n: nat)
    ensures
        be_bytes(v, n).len() == n,
    decreases n,
{
    if n > 0 {
        lemma_be_bytes_len(v / 256, (n - 1) as nat);
    }
}

pub proof fn lemma_be_value_bound(s: Seq<u8>)
    ensures
        be_value(s) < pow256(s.len()),
    decreases s.len(),
{
    if s.len() > 0 {
        let t = s.drop_last();
        lemma_be_value_bound(t);
        let a = be_value(t);
        let p = pow256(t.len());
        let l = s.last() as nat;
        assert(a * 256 + l < 256 * p) by (nonlinear_arith)
            requires
                a < p,
                l < 256,
        ;
    }
}

/// Decoding the `n`-byte form of `v` gives back `v` modulo 256^n.
pub proof fn lemma_be_value_of_bytes(v: nat, n: nat)
    ensures
        be_value(be_bytes(v, n)) == v % pow256(n),
    decreases n,
{
    if n > 0 {
        let m = (n - 1) as nat;
        lemma_be_value_of_bytes(v / 256, m);
        lemma_be_bytes_len(v, n);
        let s = be_bytes(v, n);
        assert(s.drop_last() =~= be_bytes(v / 256, m));
        lemma_pow256_pos(m);
        lemma_breakdown(v as int, 256, pow256(m) as int);
    }
}

/// Encoding the value of a byte string at its own width gives it back.
pub proof fn lemma_bytes_of_be_value(s: Seq<u8>)
    ensures
        be_bytes(be_value(s), s.len()) == s,
    decreases s.len(),
{
    if s.len() > 0 {
        let t = s.drop_last();
        let a = be_value(t);
        let l = s.last() as nat;
        lemma_bytes_of_be_value(t);
        lemma_fundamental_div_mod_converse((a * 256 + l) as int, 256, a as int, l as int);
        assert(s =~= t.push(s.last()));
    }
}

/// The big-endian value read from the front: the first byte weighs 256^(n-1).
pub proof fn lemma_be_value_first(s: Seq<u8>)
    requires
        s.len() > 0,
    ensures
        be_value(s) == s[0] as nat * pow256((s.len() - 1) as nat) + be_value(s.drop_first()),
    decreases s.len(),
{
    if s.len() == 1 {
        assert(s.drop_last().len() == 0);
        assert(s.drop_first().len() == 0);
        assert(be_value(s.drop_last()) == 0);
        assert(s.last() == s[0]);
        assert(pow256(0) == 1);
        assert(s[0] as nat * 1 == s[0] as nat);
    } else {
        let t = s.drop_last();
        lemma_be_value_first(t);
        assert(t.drop_first() =~= s.drop_first().drop_last());
        let p = pow256((t.len() - 1) as nat);
        let x = be_value(t.drop_first());
        let s0 = s[0] as nat;
        let l = s.last() as nat;
        assert((s0 * p + x) * 256 + l == s0 * (256 * p) + (x * 256 + l)) by (nonlinear_arith);
        assert(t[0] == s[0]);
        assert(pow256((s.len() - 1) as nat) == 256 * p);
        assert(s.drop_first().last() == s.last());
        assert(be_value(s.drop_first()) == x * 256 + l);
        assert(be_value(s) == be_value(t) * 256 + l);
        assert(be_value(t) == s0 * p + x);
    }
}

/// For byte strings of one width, bytewise order is the order of their
/// big-endian values.
pub proof fn lemma_be_order(s: Seq<u8>, t: Seq<u8>)
    requires
        s.len() == t.len(),
    ensures
        lex_lt(s, t) <==> be_value(s) < be_value(t),
    decreases s.len(),
{
    if s.len() > 0 {
        let n1 = (s.len() - 1) as nat;
        lemma_be_value_first(s);
        lemma_be_value_first(t);
        lemma_be_value_bound(s.drop_first());
        lemma_be_value_bound(t.drop_first());
        let p = pow256(n1);
        let x = be_value(s.drop_first());
        let y = be_value(t.drop_first());
        let a = s[0] as nat;
        let b = t[0] as nat;
        if a == b {
            lemma_be_order(s.drop_first(), t.drop_first());
        } else if a < b {
            assert(a * p + x < b * p + y) by (nonlinear_arith)
                requires
                    a < b,
                    x < p,
            ;
        } else {
            assert(b * p + y < a * p + x) by (nonlinear_arith)
                requires
                    b < a,
                    y < p,
            ;
        }
    }
}

/// Bytewise order of concatenations whose first parts have one width:
/// the first parts decide, and the second parts decide when the first parts
/// are equal.
pub proof fn lemma_lex_concat(a1: Seq<u8>, a2: Seq<u8>, b1: Seq<u8>, b2: Seq<u8>)
    requires
        a1.len() == b1.len(),
    ensures
        lex_lt(a1 + a2, b1 + b2) <==> (lex_lt(a1, b1) || (a1 == b1 && lex_lt(a2, b2))),
    decreases a1.len(),
{
    if a1.len() == 0 {
        assert(a1 + a2 =~= a2);
        assert(b1 + b2 =~= b2);
        assert(a1 =~= b1);
    } else {
        assert((a1 + a2)[0] == a1[0]);
        assert((b1 + b2)[0] == b1[0]);
        assert((a1 + a2).drop_first() =~= a1.drop_first() + a2);
        assert((b1 + b2).drop_first() =~= b1.drop_first() + b2);
        lemma_lex_concat(a1.drop_first(), a2, b1.drop_first(), b2);
        if a1[0] == b1[0] {
            if a1.drop_first() == b1.drop_first() {
                assert(a1 =~= seq![a1[0]] + a1.drop_first());
                assert(b1 =~= seq![b1[0]] + b1.drop_first());
            }
            if a1 == b1 {
                assert(a1.drop_first() =~= b1.drop_first());
            }
        }
    }
}

/// Concatenations whose first parts have one width are equal exactly when
/// both parts are.
pub proof fn lemma_concat_eq(a1: Seq<u8>, a2: Seq<u8>, b1: Seq<u8>, b2: Seq<u8>)
    requires
        a1.len() == b1.len(),
    ensures
        (a1 + a2 == b1 + b2) <==> (a1 == b1 && a2 == b2),
{
    if a1 + a2 == b1 + b2 {
        assert(a1 =~= (a1 + a2).take(a1.len() as int));
        assert(b1 =~= (b1 + b2).take(b1.len() as int));
        assert(a2 =~= (a1 + a2).skip(a1.len() as int));
        assert(b2 =~= (b1 + b2).skip(b1.len() as int));
    }
}

/// No byte string sorts before itself.
pub proof fn lemma_lex_irreflexive(a: Seq<u8>)
    ensures
        !lex_lt(a, a),
    decreases a.len(),
{
    if a.len() > 0 {
        lemma_lex_irreflexive(a.drop_first());
    }
}

/// The bytes of `b` from position `n` on.
pub fn skip_bytes(b: &[u8], n: usize) -> (r: &[u8])
    requires
        n <= b@.len(),
    ensures
        r@ == b@.skip(n as int),
{
    let r = &b[n..b.len()];
    assert(r@ =~= b@.skip(n as int));
    r
}

/// The `n`-byte big-endian form of `v`.
pub fn encode_be(v: u64, n: usize) -> (r: Vec<u8>)
    requires
        n <= 8,
    ensures
        r@ == be_bytes(v as nat, n as nat),
    decreases n,
{
    if n == 0 {
        Vec::new()
    } else {
        let mut r = encode_be(v / 256, n - 1);
        r.push((v % 256) as u8);
        r
    }
}

/// The value of the first `n` bytes of `b`, read big-endian.
pub fn decode_be(b: &[u8], n: usize) -> (v: u64)
    requires
        n <= 8,
        n <= b@.len(),
    ensures
        v as nat == be_value(b@.take(n as int)),
{
    let mut acc: u64 = 0;
    let mut i: usize = 0;
    while i < n
        invariant
            i <= n,
            n <= 8,
            n <= b@.len(),
            acc as nat == be_value(b@.take(i as int)),
        decreases n - i,
    {
        proof {
            lemma_be_value_bound(b@.take(i as int));
            lemma_pow256_mono((i + 1) as nat, 8);
            lemma_pow256_8();
            assert(b@.take(i + 1).drop_last() =~= b@.take(i as int));
            let a = acc as nat;
            let p = pow256(i as nat);
            assert(a * 256 + 255 < 256 * p) by (nonlinear_arith)
                requires
                    a < p,
            ;
        }
        acc = acc * 256 + b[i] as u64;
        i += 1;
    }
    acc
}

} // verus!

//! Decimal text of integers, as Rust's `{}` and `{:0w}` formatting write it.
use vstd::prelude::*;

verus! {

/// The character of a decimal digit.
pub open spec fn digit_char(d: nat) -> char {
    if d == 0 {
        '0'
    } else if d == 1 {
        '1'
    } else if d == 2 {
        '2'
    } else if d == 3 {
        '3'
    } else if d == 4 {
        '4'
    } else if d == 5 {
        '5'
    } else if d == 6 {
        '6'
    } else if d == 7 {
        '7'
    } else if d == 8 {
        '8'
    } else {
        '9'
    }
}

/// The decimal digits of `n`, without leading zeros ("0" for zero).
pub open spec fn spec_digits(n: nat) -> Seq<char>
    decreases n,
{
    if n < 10 {
        seq![digit_char(n)]
    } else {
        spec_digits(n / 10).push(digit_char(n % 10))
    }
}

pub open spec fn abs(v: int) -> nat {
    if v < 0 {
        (-v) as nat
    } else {
        v as nat
    }
}

/// `k` zero characters.
pub open spec fn zeros(k: nat) -> Seq<char> {
    Seq::new(k, |i: int| '0')
}

/// `format!("{:0width$}", v)`: a minus sign for negative numbers, then the
/// decimal digits of the magnitude, with zeros placed after the sign so that
/// the text is at least `width` characters long.
pub open spec fn spec_zero_padded(v: int, width: nat) -> Seq<char> {
    let sign: Seq<char> = if v < 0 {
        seq!['-']
    } else {
        Seq::empty()
    };
    let digits = spec_digits(abs(v));
    let used = sign.len() + digits.len();
    sign + zeros(
        if used < width {
            (width - used) as nat
        } else {
            0
        },
    ) + digits
}

/// `format!("{}", v)` for an integer.
pub open spec fn spec_decimal(v: int) -> Seq<char> {
    spec_zero_padded(v, 0)
}

fn digit_str(d: u64) -> (s: &'static str)
    requires
        d < 10,
    ensures
        s@ == seq![digit_char(d as nat)],
{
    proof {
        reveal_strlit("0");
        reveal_strlit("1");
        reveal_strlit("2");
        reveal_strlit("3");
        reveal_strlit("4");
        reveal_strlit("5");
        reveal_strlit("6");
        reveal_strlit("7");
        reveal_strlit("8");
        reveal_strlit("9");
    }
    if d == 0 {
        "0"
    } else if d == 1 {
        "1"
    } else if d == 2 {
        "2"
    } else if d == 3 {
        "3"
    } else if d == 4 {
        "4"
    } else if d == 5 {
        "5"
    } else if d == 6 {
        "6"
    } else if d == 7 {
        "7"
    } else if d == 8 {
        "8"
    } else {
        "9"
    }
}

/// Appends a string.
pub fn push_str(out: &mut String, s: &str)
    ensures
        final(out)@ == old(out)@ + s@,
{
    out.append(s);
}

fn push_digits(out: &mut String, n: u64)
    ensures
        final(out)@ == old(out)@ + spec_digits(n as nat),
    decreases n,
{
    if n >= 10 {
        push_digits(out, n / 10);
        let ghost mid = out@;
        out.append(digit_str(n % 10));
        assert(out@ == old(out)@ + spec_digits(n as nat / 10).push(digit_char(n as nat % 10)));
    } else {
        out.append(digit_str(n));
    }
}

fn count_digits(n: u64) -> (r: usize)
    ensures
        r as nat == spec_digits(n as nat).len(),
        r <= 20,
    decreases n,
{
    proof {
        lemma_digits_len_bound(n as nat);
    }
    if n >= 10 {
        count_digits(n / 10) + 1
    } else {
        1
    }
}

proof fn lemma_digits_len_bound(n: nat)
    requires
        n <= u64::MAX,
    ensures
        spec_digits(n).len() <= 20,
        spec_digits(n).len() >= 1,
{
    lemma_digits_len_mono(n, 0xffff_ffff_ffff_ffff);
    reveal_with_fuel(spec_digits, 21);
}

proof fn lemma_digits_len_mono(m: nat, n: nat)
    requires
        m <= n,
    ensures
        spec_digits(m).len() <= spec_digits(n).len(),
        spec_digits(m).len() >= 1,
    decreases n,
{
    if n >= 10 && m >= 10 {
        lemma_digits_len_mono(m / 10, n / 10);
    } else if n >= 10 {
        lemma_digits_len_mono(0, n / 10);
    }
}

/// Appends `format!("{:0width$}", v)`.
pub fn push_zero_padded(out: &mut String, v: i64, width: usize)
    ensures
        final(out)@ == old(out)@ + spec_zero_padded(v as int, width as nat),
{
    let neg = v < 0;
    let mag: u64 = if neg {
        ((-(v + 1)) as u64) + 1
    } else {
        v as u64
    };
    assert(mag as nat == abs(v as int));
    let ghost start = out@;
    let ghost sign: Seq<char> = if neg {
        seq!['-']
    } else {
        Seq::empty()
    };
    if neg {
        proof {
            reveal_strlit("-");
        }
        out.append("-");
    }
    assert(out@ == start + sign);
    let nd = count_digits(mag);
    let used: usize = if neg {
        nd + 1
    } else {
        nd
    };
    let pad: usize = if used < width {
        width - used
    } else {
        0
    };
    let mut i: usize = 0;
    proof {
        reveal_strlit("0");
    }
    while i < pad
        invariant
            i <= pad,
            out@ == start + sign + zeros(i as nat),
        decreases pad - i,
    {
        proof {
            reveal_strlit("0");
        }
        out.append("0");
        assert(zeros((i + 1) as nat) =~= zeros(i as nat) + seq!['0']);
        i += 1;
    }
    push_digits(out, mag);
    assert(out@ =~= start + spec_zero_padded(v as int, width as nat));
}

/// Appends `format!("{}", v)`.
pub fn push_decimal(out: &mut String, v: i64)
    ensures
        final(out)@ == old(out)@ + spec_decimal(v as int),
{
    push_zero_padded(out, v, 0);
}

/// A character of a decimal digit.
pub open spec fn is_digit_char(c: char) -> bool {
    '0' <= c <= '9'
}

proof fn lemma_digits_chars(n: nat)
    ensures
        spec_digits(n).len() >= 1,
        forall|i: int| 0 <= i < spec_digits(n).len() ==> is_digit_char(#[trigger] spec_digits(n)[i]),
    decreases n,
{
    if n >= 10 {
        lemma_digits_chars(n / 10);
        let t = spec_digits(n);
        assert forall|i: int| 0 <= i < t.len() implies is_digit_char(#[trigger] t[i]) by {
            if i < t.len() - 1 {
                assert(t[i] == spec_digits(n / 10)[i]);
            }
        }
    }
}

/// The text of a number that is not negative, zero-padded or not, is made
/// of digits, and is at least one character and `width` characters long.
pub proof fn lemma_zero_padded_digits(v: int, width: nat)
    requires
        v >= 0,
    ensures
        spec_zero_padded(v, width).len() >= 1,
        spec_zero_padded(v, width).len() >= width,
        forall|i: int|
            0 <= i < spec_zero_padded(v, width).len() ==> is_digit_char(
                #[trigger] spec_zero_padded(v, width)[i],
            ),
{
    lemma_digits_chars(v as nat);
    let t = spec_zero_padded(v, width);
    let ds = spec_digits(v as nat);
    let z = t.len() - ds.len();
    assert(t =~= zeros((t.len() - ds.len()) as nat) + ds);
    assert forall|i: int| 0 <= i < t.len() implies is_digit_char(#[trigger] t[i]) by {
        if i >= z {
            assert(t[i] == ds[i - z]);
        }
    }
}

} // verus!

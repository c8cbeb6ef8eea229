//! Unsigned numbers written in decimal or hexadecimal digits.

use vstd::prelude::*;

verus! {

/// `base` to the power `n`.
pub open spec fn pow(base: nat, n: nat) -> nat
    decreases n,
{
    if n == 0 {
        1
    } else {
        base * pow(base, (n - 1) as nat)
    }
}

/// The ASCII digits `0` to `9`.
pub open spec fn is_digit(b: u8) -> bool {
    0x30 <= b && b <= 0x39
}

/// Every byte of `s` is a decimal digit.
pub open spec fn all_digits(s: Seq<u8>) -> bool {
    forall|i: int| 0 <= i < s.len() ==> is_digit(#[trigger] s[i])
}

/// The number that the decimal digits of `s` spell, most significant first.
pub open spec fn decimal_value(s: Seq<u8>) -> nat
    decreases s.len(),
{
    if s.len() == 0 {
        0
    } else {
        decimal_value(s.drop_last()) * 10 + (s.last() - 0x30) as nat
    }
}

/// The value of a hexadecimal digit in either case; 16 for any other byte.
pub open spec fn hex_digit_value(b: u8) -> nat {
    if 0x30 <= b && b <= 0x39 {
        (b - 0x30) as nat
    } else if 0x61 <= b && b <= 0x66 {
        (b - 0x61 + 10) as nat
    } else if 0x41 <= b && b <= 0x46 {
        (b - 0x41 + 10) as nat
    } else {
        16
    }
}

/// The ASCII hexadecimal digits, in either case.
pub open spec fn is_hex_digit(b: u8) -> bool {
    hex_digit_value(b) < 16
}

/// Every byte of `s` is a hexadecimal digit.
pub open spec fn all_hex_digits(s: Seq<u8>) -> bool {
    forall|i: int| 0 <= i < s.len() ==> is_hex_digit(#[trigger] s[i])
}

/// The number that the hexadecimal digits of `s` spell, most significant
/// first.
pub open spec fn hex_value(s: Seq<u8>) -> nat
    decreases s.len(),
{
    if s.len() == 0 {
        0
    } else {
        hex_value(s.drop_last()) * 16 + hex_digit_value(s.last())
    }
}

/// Digits spell a number below the base raised to their count.
pub proof fn lemma_decimal_bound(s: Seq<u8>)
    requires
        all_digits(s),
    ensures
        decimal_value(s) < pow(10, s.len()),
    decreases s.len(),
{
    if s.len() > 0 {
        let t = s.drop_last();
        assert forall|i: int| 0 <= i < t.len() implies is_digit(#[trigger] t[i]) by {
            assert(t[i] == s[i]);
        }
        lemma_decimal_bound(t);
        assert(is_digit(s[s.len() - 1]));
    }
}

/// Hexadecimal digits spell a number below 16 raised to their count.
pub proof fn lemma_hex_bound(s: Seq<u8>)
    requires
        all_hex_digits(s),
    ensures
        hex_value(s) < pow(16, s.len()),
    decreases s.len(),
{
    if s.len() > 0 {
        let t = s.drop_last();
        assert forall|i: int| 0 <= i < t.len() implies is_hex_digit(#[trigger] t[i]) by {
            assert(t[i] == s[i]);
        }
        lemma_hex_bound(t);
        assert(is_hex_digit(s[s.len() - 1]));
    }
}

/// Reads a decimal number of one to nine digits.
pub fn parse_decimal(s: &[u8]) -> (r: Option<u32>)
    ensures
        r is Some <==> 1 <= s@.len() <= 9 && all_digits(s@),
        r matches Some(v) ==> v == decimal_value(s@),
{
    if s.len() == 0 || s.len() > 9 {
        return None;
    }
    let mut acc: u32 = 0;
    let mut i: usize = 0;
    proof {
        reveal_with_fuel(pow, 10);
    }
    while i < s.len()
        invariant
            i <= s@.len() <= 9,
            all_digits(s@.subrange(0, i as int)),
            acc == decimal_value(s@.subrange(0, i as int)),
            acc < pow(10, i as nat),
        decreases s@.len() - i,
    {
        let b = s[i];
        if !(0x30 <= b && b <= 0x39) {
            return None;
        }
        proof {
            let t = s@.subrange(0, i + 1);
            assert(t.drop_last() =~= s@.subrange(0, i as int));
            assert(t.last() == b);
            assert forall|k: int| 0 <= k < t.len() implies is_digit(#[trigger] t[k]) by {
                if k < i {
                    assert(s@.subrange(0, i as int)[k] == t[k]);
                }
            }
            lemma_decimal_bound(t);
            reveal_with_fuel(pow, 10);
            assert(pow(10, t.len()) <= pow(10, 9)) by {
                lemma_pow_monotonic(10, t.len(), 9);
            }
        }
        acc = acc * 10 + (b - 0x30) as u32;
        i += 1;
    }
    assert(s@.subrange(0, i as int) =~= s@);
    Some(acc)
}

/// Reads a hexadecimal number of one to seven digits, in either case.
pub fn parse_hex(s: &[u8]) -> (r: Option<u32>)
    ensures
        r is Some <==> 1 <= s@.len() <= 7 && all_hex_digits(s@),
        r matches Some(v) ==> v == hex_value(s@),
{
    if s.len() == 0 || s.len() > 7 {
        return None;
    }
    let mut acc: u32 = 0;
    let mut i: usize = 0;
    while i < s.len()
        invariant
            i <= s@.len() <= 7,
            all_hex_digits(s@.subrange(0, i as int)),
            acc == hex_value(s@.subrange(0, i as int)),
        decreases s@.len() - i,
    {
        let b = s[i];
        let d: u32 = if 0x30 <= b && b <= 0x39 {
            (b - 0x30) as u32
        } else if 0x61 <= b && b <= 0x66 {
            (b - 0x61 + 10) as u32
        } else if 0x41 <= b && b <= 0x46 {
            (b - 0x41 + 10) as u32
        } else {
            return None;
        };
        proof {
            let t = s@.subrange(0, i + 1);
            assert(t.drop_last() =~= s@.subrange(0, i as int));
            assert(t.last() == b);
            assert forall|k: int| 0 <= k < t.len() implies is_hex_digit(#[trigger] t[k]) by {
                if k < i {
                    assert(s@.subrange(0, i as int)[k] == t[k]);
                }
            }
            lemma_hex_bound(t);
            reveal_with_fuel(pow, 8);
            assert(pow(16, t.len()) <= pow(16, 7)) by {
                lemma_pow_monotonic(16, t.len(), 7);
            }
        }
        acc = acc * 16 + d;
        i += 1;
    }
    assert(s@.subrange(0, i as int) =~= s@);
    Some(acc)
}

/// A power grows with its exponent when the base is positive.
pub proof fn lemma_pow_monotonic(base: nat, m: nat, n: nat)
    requires
        base >= 1,
        m <= n,
    ensures
        1 <= pow(base, m) <= pow(base, n),
    decreases n,
{
    if m < n {
        lemma_pow_monotonic(base, m, (n - 1) as nat);
        assert(pow(base, (n - 1) as nat) <= base * pow(base, (n - 1) as nat)) by (nonlinear_arith)
            requires
                base >= 1,
        ;
    } else if n > 0 {
        lemma_pow_monotonic(base, (m - 1) as nat, (n - 1) as nat);
        assert(1 <= base * pow(base, (n - 1) as nat)) by (nonlinear_arith)
            requires
                base >= 1,
                pow(base, (n - 1) as nat) >= 1,
        ;
    }
}

} // verus!

//! Decimal numerals: what a run of digits is worth, read with a cap, and a
//! decimal fraction scaled by an integer factor without rounding error.

use crate::text::{all_digits, decimal_value, digit_value, is_decimal_digit, is_digit};
use vstd::arithmetic::div_mod::{lemma_div_denominator, lemma_hoist_over_denominator};
use vstd::prelude::*;

verus! {

/// Ten to the power `n`.
pub open spec fn pow10(n: nat) -> nat
    decreases n,
{
    if n == 0 {
        1
    } else {
        10 * pow10((n - 1) as nat)
    }
}

/// The smaller of two numbers.
pub open spec fn min_nat(a: nat, b: nat) -> nat {
    if a <= b {
        a
    } else {
        b
    }
}

/// The whole part of `0.digits × factor`.
pub open spec fn scaled_fraction(digits: Seq<char>, factor: nat) -> nat {
    (decimal_value(digits) * factor) / pow10(digits.len())
}

/// The number that an unsigned decimal numeral writes: digits, with an
/// optional `+` in front.
pub open spec fn unsigned_reading(s: Seq<char>) -> Option<nat> {
    let d = if s.len() > 0 && s[0] == '+' {
        s.skip(1)
    } else {
        s
    };
    if d.len() > 0 && all_digits(d) {
        Some(decimal_value(d))
    } else {
        None
    }
}

/// The number that a signed decimal numeral writes: digits, with an
/// optional `+` or `-` in front.
pub open spec fn signed_reading(s: Seq<char>) -> Option<int> {
    if s.len() > 0 && s[0] == '-' {
        let d = s.skip(1);
        if d.len() > 0 && all_digits(d) {
            Some(-(decimal_value(d) as int))
        } else {
            None
        }
    } else {
        match unsigned_reading(s) {
            Some(v) => Some(v as int),
            None => None,
        }
    }
}

/// The character that writes the digit `d`.
pub open spec fn digit_char(d: nat) -> char {
    ((d + 48) as u8) as char
}

/// The decimal numeral of `n`, without leading zeros.
pub open spec fn decimal_text(n: nat) -> Seq<char>
    decreases n,
{
    if n < 10 {
        seq![digit_char(n)]
    } else {
        decimal_text(n / 10).push(digit_char(n % 10))
    }
}

/// Ten to any power is positive.
pub proof fn lemma_pow10_positive(n: nat)
    ensures
        pow10(n) > 0,
    decreases n,
{
    if n > 0 {
        lemma_pow10_positive((n - 1) as nat);
    }
}

/// A numeral of `n` digits is worth less than ten to the `n`.
pub proof fn lemma_decimal_value_bound(s: Seq<char>)
    requires
        all_digits(s),
    ensures
        decimal_value(s) < pow10(s.len()),
    decreases s.len(),
{
    if s.len() > 0 {
        let t = s.drop_last();
        assert forall|i: int| 0 <= i < t.len() implies is_digit(#[trigger] t[i]) by {
            assert(t[i] == s[i]);
        }
        lemma_decimal_value_bound(t);
        assert(is_digit(s[s.len() - 1]));
    }
}

/// One more digit at the end: ten times the value so far, plus the digit.
pub proof fn lemma_decimal_value_push(s: Seq<char>, lo: int, i: int)
    requires
        0 <= lo <= i < s.len(),
    ensures
        decimal_value(s.subrange(lo, i + 1)) == 10 * decimal_value(s.subrange(lo, i)) + digit_value(
            s[i],
        ),
{
    let t = s.subrange(lo, i + 1);
    assert(t.drop_last() =~= s.subrange(lo, i));
    assert(t.last() == s[i]);
}

/// One more digit in front: the digit times ten to the length, plus the rest.
pub proof fn lemma_decimal_value_prepend(d: char, t: Seq<char>)
    ensures
        decimal_value(seq![d] + t) == digit_value(d) * pow10(t.len()) + decimal_value(t),
    decreases t.len(),
{
    let s = seq![d] + t;
    if t.len() == 0 {
        assert(s.drop_last() =~= Seq::<char>::empty());
        assert(s.last() == d);
        assert(decimal_value(s.drop_last()) == 0);
        assert(decimal_value(t) == 0);
        assert(pow10(0) == 1);
    } else {
        let q = pow10((t.len() - 1) as nat);
        assert(s.drop_last() =~= seq![d] + t.drop_last());
        assert(s.last() == t.last());
        lemma_decimal_value_prepend(d, t.drop_last());
        assert(pow10(t.len()) == 10 * q);
        assert(decimal_value(s) == 10 * decimal_value(s.drop_last()) + digit_value(s.last()));
        assert(decimal_value(t) == 10 * decimal_value(t.drop_last()) + digit_value(t.last()));
        assert(digit_value(d) * (10 * q) == 10 * (digit_value(d) * q)) by (nonlinear_arith);
    }
}

/// Scaling a fraction digit by digit from its last digit: the step that puts
/// one more digit in front.
pub proof fn lemma_scaled_fraction_step(d: char, t: Seq<char>, factor: nat)
    requires
        is_digit(d),
        all_digits(t),
    ensures
        scaled_fraction(seq![d] + t, factor) == (digit_value(d) * factor + scaled_fraction(
            t,
            factor,
        )) / 10,
{
    let p: int = pow10(t.len()) as int;
    let x: int = (decimal_value(t) * factor) as int;
    let k: int = (digit_value(d) * factor) as int;
    lemma_pow10_positive(t.len());
    lemma_decimal_value_prepend(d, t);
    assert((seq![d] + t).len() == t.len() + 1);
    assert(pow10((t.len() + 1) as nat) == 10 * p);
    assert(decimal_value(seq![d] + t) * factor == x + k * p) by (nonlinear_arith)
        requires
            decimal_value(seq![d] + t) == digit_value(d) * p + decimal_value(t),
            x == decimal_value(t) * factor,
            k == digit_value(d) * factor,
    ;
    assert(x >= 0 && k >= 0) by (nonlinear_arith)
        requires
            x == decimal_value(t) * factor,
            k == digit_value(d) * factor,
    ;
    lemma_hoist_over_denominator(x, k, p as nat);
    assert((x + k * p) / p == x / p + k);
    assert(0 <= x + k * p) by (nonlinear_arith)
        requires
            x >= 0,
            k >= 0,
            p > 0,
    ;
    lemma_div_denominator(x + k * p, p, 10);
    assert(p * 10 == 10 * p);
}

/// Whether every character of `s` is a decimal digit.
pub fn is_all_digits(s: &[char]) -> (r: bool)
    ensures
        r == all_digits(s@),
{
    let mut i: usize = 0;
    while i < s.len()
        invariant
            i <= s.len(),
            forall|j: int| 0 <= j < i ==> is_digit(#[trigger] s@[j]),
        decreases s.len() - i,
    {
        if !is_decimal_digit(s[i]) {
            return false;
        }
        i += 1;
    }
    true
}

/// The number a decimal digit stands for.
pub fn digit_of(c: char) -> (d: u8)
    requires
        is_digit(c),
    ensures
        d == digit_value(c),
        d <= 9,
{
    ((c as u32) - 0x30) as u8
}

/// The value of the digits `s`, or `cap` where the value is larger.
pub fn decimal_capped(s: &[char], cap: u128) -> (r: u128)
    requires
        all_digits(s@),
        cap <= 0x0fff_ffff_ffff_ffff_ffff_ffff_ffff_ffff,
    ensures
        r == min_nat(decimal_value(s@), cap as nat),
{
    let mut acc: u128 = 0;
    let mut i: usize = 0;
    proof {
        assert(s@.subrange(0, 0) =~= Seq::<char>::empty());
    }
    while i < s.len()
        invariant
            i <= s.len(),
            all_digits(s@),
            cap <= 0x0fff_ffff_ffff_ffff_ffff_ffff_ffff_ffff,
            acc == min_nat(decimal_value(s@.subrange(0, i as int)), cap as nat),
        decreases s.len() - i,
    {
        let d = digit_of(s[i]);
        proof {
            lemma_decimal_value_push(s@, 0, i as int);
        }
        let next: u128 = acc * 10 + d as u128;
        acc = if next > cap {
            cap
        } else {
            next
        };
        i += 1;
    }
    proof {
        assert(s@.subrange(0, s.len() as int) =~= s@);
    }
    acc
}

/// The whole part of `0.s × factor`.
pub fn scale_fraction(s: &[char], factor: u64) -> (r: u64)
    requires
        all_digits(s@),
        factor <= 0x0fff_ffff_ffff_ffff,
    ensures
        r == scaled_fraction(s@, factor as nat),
        r <= factor,
{
    let n = s.len();
    let mut z: u64 = 0;
    let mut j: usize = n;
    proof {
        assert(s@.subrange(n as int, n as int) =~= Seq::<char>::empty());
        assert(decimal_value(Seq::<char>::empty()) == 0);
        assert(pow10(0) == 1);
    }
    while j > 0
        invariant
            j <= n,
            n == s.len(),
            all_digits(s@),
            factor <= 0x0fff_ffff_ffff_ffff,
            z <= factor,
            z == scaled_fraction(s@.subrange(j as int, n as int), factor as nat),
        decreases j,
    {
        j -= 1;
        let d = digit_of(s[j]);
        proof {
            let t = s@.subrange(j + 1, n as int);
            assert(s@.subrange(j as int, n as int) =~= seq![s@[j as int]] + t);
            assert forall|i: int| 0 <= i < t.len() implies is_digit(#[trigger] t[i]) by {
                assert(t[i] == s@[j + 1 + i]);
            }
            lemma_scaled_fraction_step(s@[j as int], t, factor as nat);
            assert(d * factor <= 9 * factor) by (nonlinear_arith)
                requires
                    d <= 9,
                    factor >= 0,
            ;
        }
        z = (d as u64 * factor + z) / 10;
    }
    proof {
        assert(s@.subrange(0, n as int) =~= s@);
    }
    z
}

/// The number that the unsigned numeral `s` writes, if it is one and `u32`
/// can hold it.
pub fn read_unsigned(s: &[char]) -> (r: Option<u32>)
    ensures
        r == match unsigned_reading(s@) {
            Some(n) => if n <= u32::MAX {
                Some(n as u32)
            } else {
                None
            },
            None => None,
        },
{
    let start: usize = if s.len() > 0 && s[0] == '+' {
        1
    } else {
        0
    };
    let digits = vstd::slice::slice_subrange(s, start, s.len());
    proof {
        assert(digits@ =~= if start == 1 {
            s@.skip(1)
        } else {
            s@
        });
    }
    if digits.len() == 0 || !is_all_digits(digits) {
        return None;
    }
    let v = decimal_capped(digits, 0x1_0000_0000);
    if v > 0xffff_ffff {
        None
    } else {
        Some(v as u32)
    }
}

/// The number that the signed numeral `s` writes, if it is one and `i32`
/// can hold it.
pub fn read_signed(s: &[char]) -> (r: Option<i32>)
    ensures
        r == match signed_reading(s@) {
            Some(n) => if i32::MIN <= n <= i32::MAX {
                Some(n as i32)
            } else {
                None
            },
            None => None,
        },
{
    if s.len() > 0 && s[0] == '-' {
        let digits = vstd::slice::slice_subrange(s, 1, s.len());
        proof {
            assert(digits@ =~= s@.skip(1));
        }
        if digits.len() == 0 || !is_all_digits(digits) {
            return None;
        }
        let v = decimal_capped(digits, 0x8000_0001);
        if v > 0x8000_0000 {
            None
        } else if v == 0x8000_0000 {
            Some(i32::MIN)
        } else {
            Some(-(v as i32))
        }
    } else {
        match read_unsigned(s) {
            Some(v) => if v > 0x7fff_ffff {
                None
            } else {
                Some(v as i32)
            },
            None => None,
        }
    }
}

/// A numeral of at most nine characters is worth less than a thousand
/// million either way.
pub proof fn lemma_short_numeral(s: Seq<char>)
    requires
        s.len() <= 9,
    ensures
        unsigned_reading(s) matches Some(n) ==> n < 1_000_000_000,
        signed_reading(s) matches Some(n) ==> -1_000_000_000 < n < 1_000_000_000,
{
    if s.len() > 0 {
        let d = s.skip(1);
        if all_digits(d) {
            lemma_decimal_value_bound(d);
            lemma_pow10_nine(d.len());
        }
    }
    if all_digits(s) {
        lemma_decimal_value_bound(s);
        lemma_pow10_nine(s.len());
    }
}

/// The decimal numeral of `n`, without leading zeros.
pub fn u32_text(n: u32) -> (r: Vec<char>)
    ensures
        r@ == decimal_text(n as nat),
{
    let mut r: Vec<char> = Vec::new();
    let mut m: u32 = n;
    while m >= 10
        invariant
            decimal_text(n as nat) == decimal_text(m as nat) + r@,
        decreases m,
    {
        let d: u8 = (m % 10) as u8;
        let c: char = (d + 48) as char;
        proof {
            assert(decimal_text(m as nat) == decimal_text((m / 10) as nat).push(c));
            assert(decimal_text((m / 10) as nat).push(c) + r@ =~= decimal_text((m / 10) as nat)
                + r@.insert(0, c));
        }
        r.insert(0, c);
        m = m / 10;
    }
    let c: char = ((m as u8) + 48) as char;
    proof {
        assert(decimal_text(m as nat) + r@ =~= r@.insert(0, c));
    }
    r.insert(0, c);
    r
}

/// Ten to a power of at most nine is at most a thousand million.
pub proof fn lemma_pow10_nine(n: nat)
    requires
        n <= 9,
    ensures
        pow10(n) <= 1_000_000_000,
{
    reveal_with_fuel(pow10, 11);
}

} // verus!

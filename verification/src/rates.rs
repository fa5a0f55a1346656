//! Counts per second as people read them, of any size.
use crate::double::Double;
use crate::numbers::{decimal, digit, push_decimal, two_digit_text, two_digits};
use crate::sizes::{nearest, nearest_of, quotient_text};
use vstd::arithmetic::power2::{
    lemma2_to64, lemma2_to64_rest, lemma_pow2_adds, lemma_pow2_pos, lemma_pow2_strictly_increases,
    lemma_pow2_unfold, pow2,
};
use vstd::prelude::*;

verus! {

/// A positive double as a fraction.
pub open spec fn fraction_of(x: Double) -> (nat, nat) {
    if x.scale() >= 0 {
        (x.significand() * pow2(x.scale() as nat), 1)
    } else {
        (x.significand(), pow2((-x.scale()) as nat))
    }
}

/// A count per second: no decimals from 100, one from 10, two below. What is not
/// positive or not finite is zero.
pub open spec fn count_rate_text(x: Double) -> Seq<char> {
    if !x.amount() || x.zero() {
        "0"@
    } else {
        let (n, d) = fraction_of(x);
        quotient_text(n, d)
    }
}

// ---------------------------------------------------------------------------
// Numbers of any length
// ---------------------------------------------------------------------------

/// The number that digits stand for, the lowest first.
pub open spec fn value_of(digits: Seq<u8>) -> nat
    decreases digits.len(),
{
    if digits.len() == 0 {
        0
    } else {
        digits[0] as nat + 10 * value_of(digits.drop_first())
    }
}

/// Each is a decimal digit.
pub open spec fn are_digits(digits: Seq<u8>) -> bool {
    forall|i: int| 0 <= i < digits.len() ==> #[trigger] digits[i] < 10
}

/// The digits of twice the number and a carry.
fn doubled(digits: &Vec<u8>, from: usize, carry: u8) -> (r: Vec<u8>)
    requires
        from <= digits@.len(),
        carry <= 1,
        are_digits(digits@),
    ensures
        are_digits(r@),
        value_of(r@) == 2 * value_of(digits@.skip(from as int)) + carry,
        digits@.len() > from && digits@.last() > 0 ==> r@.len() > 0 && r@.last() > 0,
        digits@.len() == from && carry > 0 ==> r@.len() > 0 && r@.last() > 0,
        digits@.len() == from && carry == 0 ==> r@.len() == 0,
    decreases digits@.len() - from,
{
    let ghost rest = digits@.skip(from as int);
    if from == digits.len() {
        let mut r: Vec<u8> = Vec::new();
        assert(value_of(rest) == 0);
        if carry > 0 {
            r.push(carry);
            assert(r@.drop_first() == Seq::<u8>::empty());
            assert(value_of(r@.drop_first()) == 0);
            assert(value_of(r@) == carry);
        }
        return r;
    }
    let d = digits[from];
    assert(rest[0] == d);
    assert(rest.drop_first() == digits@.skip(from + 1));
    let twice: u8 = 2 * d + carry;
    let (low, high): (u8, u8) = if twice >= 10 {
        (twice - 10, 1)
    } else {
        (twice, 0)
    };
    let tail = doubled(digits, from + 1, high);
    let mut r: Vec<u8> = Vec::new();
    r.push(low);
    let ghost t = tail@;
    let mut more = tail;
    r.append(&mut more);
    proof {
        assert(r@ == seq![low] + t);
        assert(r@.drop_first() == t);
        assert forall|i: int| 0 <= i < r@.len() implies #[trigger] r@[i] < 10 by {
            if i > 0 {
                assert(r@[i] == t[i - 1]);
            }
        }
        if digits@.last() > 0 {
            if t.len() > 0 {
                assert(r@.last() == t.last());
            } else {
                assert(digits@.len() == from + 1);
                assert(d == digits@.last());
                assert(high == 0);
                assert(r@.last() == low);
            }
        }
    }
    r
}

/// The digits of a number.
fn digits_of(n: u64) -> (r: Vec<u8>)
    ensures
        are_digits(r@),
        value_of(r@) == n,
        n > 0 ==> r@.len() > 0 && r@.last() > 0,
        n == 0 ==> r@.len() == 0,
    decreases n,
{
    let mut r: Vec<u8> = Vec::new();
    if n == 0 {
        return r;
    }
    let low: u8 = (n % 10) as u8;
    let tail = digits_of(n / 10);
    r.push(low);
    let ghost t = tail@;
    let mut more = tail;
    r.append(&mut more);
    proof {
        assert(r@ == seq![low] + t);
        assert(r@.drop_first() == t);
        assert forall|i: int| 0 <= i < r@.len() implies #[trigger] r@[i] < 10 by {
            if i > 0 {
                assert(r@[i] == t[i - 1]);
            }
        }
        if t.len() > 0 {
            assert(r@.last() == t.last());
        } else {
            assert(n / 10 == 0);
            assert(r@.last() == low);
        }
    }
    r
}

proof fn lemma_value_positive(digits: Seq<u8>)
    requires
        digits.len() > 0,
        digits.last() > 0,
    ensures
        value_of(digits) > 0,
    decreases digits.len(),
{
    if digits.len() > 1 {
        assert(digits.drop_first().last() == digits.last());
        lemma_value_positive(digits.drop_first());
    }
}

/// Appends the digits, the highest first.
fn push_digits(s: &mut String, digits: &Vec<u8>, from: usize)
    requires
        from < digits@.len(),
        are_digits(digits@),
        digits@.last() > 0,
    ensures
        final(s)@ == old(s)@ + decimal(value_of(digits@.skip(from as int))),
    decreases digits@.len() - from,
{
    let ghost start = s@;
    let ghost rest = digits@.skip(from as int);
    let d = digits[from];
    assert(rest[0] == d);
    assert(rest.drop_first() == digits@.skip(from + 1));
    let ghost n = value_of(rest);
    let ghost high = value_of(rest.drop_first());
    if from < digits.len() - 1 {
        push_digits(s, digits, from + 1);
        proof {
            lemma_value_positive(digits@.skip(from + 1));
            assert(n >= 10);
            assert(n / 10 == high && n % 10 == d);
        }
    } else {
        assert(digits@.skip(from + 1) == Seq::<u8>::empty());
        assert(n == d);
    }
    push_decimal(s, d as u64);
    assert(s@ =~= start + decimal(n));
}

// ---------------------------------------------------------------------------
// Rates
// ---------------------------------------------------------------------------

/// Appends a whole number of any length: a significand times a power of two.
fn push_large(s: &mut String, significand: u64, power: u32)
    requires
        significand > 0,
    ensures
        final(s)@ == old(s)@ + decimal(significand as nat * pow2(power as nat)),
{
    let mut digits = digits_of(significand);
    proof {
        lemma2_to64();
        assert(significand as nat * pow2(0) == significand) by (nonlinear_arith)
            requires
                pow2(0) == 1,
        ;
    }
    for k in 0..power
        invariant
            are_digits(digits@),
            digits@.len() > 0,
            digits@.last() > 0,
            value_of(digits@) == significand as nat * pow2(k as nat),
    {
        let ghost before = digits@;
        assert(before.skip(0) == before);
        digits = doubled(&digits, 0, 0);
        proof {
            lemma_pow2_unfold((k + 1) as nat);
            let p = pow2(k as nat);
            assert(significand as nat * (2 * p) == 2 * (significand as nat * p)) by (nonlinear_arith);
        }
    }
    assert(digits@.skip(0) == digits@);
    push_digits(s, &digits, 0);
}

/// Two to a power that fits.
fn power_of_two(k: u32) -> (r: u128)
    requires
        k <= 110,
    ensures
        r == pow2(k as nat),
        0 < r <= 0x4000_0000_0000_0000_0000_0000_0000,
{
    let mut p: u128 = 1;
    proof {
        lemma2_to64();
        lemma2_to64_rest();
        lemma_pow2_adds(64, 46);
    }
    for i in 0..k
        invariant
            k <= 110,
            p == pow2(i as nat),
            pow2(110) == 0x4000_0000_0000_0000_0000_0000_0000,
    {
        proof {
            lemma_pow2_unfold((i + 1) as nat);
            lemma_pow2_strictly_increases(i as nat, 110);
        }
        p = 2 * p;
    }
    proof {
        lemma_pow2_pos(k as nat);
        if k < 110 {
            lemma_pow2_strictly_increases(k as nat, 110);
        }
    }
    p
}

/// A fraction far below a hundredth rounds to zero.
proof fn lemma_tiny(n: nat, k: nat)
    requires
        n < 0x20_0000_0000_0000,
        k > 110,
    ensures
        quotient_text(n, pow2(k)) == decimal(0) + seq!['.'] + two_digits(0),
{
    let d = pow2(k);
    lemma2_to64();
    lemma2_to64_rest();
    lemma_pow2_adds(64, 46);
    lemma_pow2_strictly_increases(110, k);
    assert(n < 10 * d && 2 * (100 * n) < d);
    let m = 100 * n;
    assert(m / d == 0 && m % d == m) by (nonlinear_arith)
        requires
            0 <= m < d,
    ;
    assert(nearest(m, d) == 0);
}

/// A count per second.
pub fn human_count_rate(value: Double) -> (r: String)
    ensures
        r@ == count_rate_text(value),
{
    if !value.is_amount() || value.is_zero() {
        return "0".to_owned();
    }
    let (significand, scale) = value.parts();
    assert(significand > 0);
    let mut out = String::new();
    if scale >= 0 {
        let ghost n = significand as nat * pow2(scale as nat);
        proof {
            lemma_pow2_pos(scale as nat);
            let p = pow2(scale as nat);
            assert(significand as nat * p >= significand) by (nonlinear_arith)
                requires
                    p >= 1,
            ;
            assert(n / 1 == n && n % 1 == 0);
        }
        push_large(&mut out, significand, scale as u32);
        assert(out@ =~= decimal(n));
        return out;
    }
    let k: u32 = (0 - scale) as u32;
    if k > 110 {
        proof {
            lemma_tiny(significand as nat, k as nat);
            reveal_strlit("0.00");
            assert("0.00"@ =~= decimal(0) + seq!['.'] + two_digits(0));
        }
        return "0.00".to_owned();
    }
    let n: u128 = significand as u128;
    let d = power_of_two(k);
    if n >= 100 * d {
        let q = nearest_of(n, d);
        push_decimal(&mut out, q as u64);
        assert(out@ =~= quotient_text(n as nat, d as nat));
    } else if n >= 10 * d {
        let q = nearest_of(10 * n, d);
        push_decimal(&mut out, (q / 10) as u64);
        out.push('.');
        push_decimal(&mut out, (q % 10) as u64);
        assert(out@ =~= quotient_text(n as nat, d as nat));
    } else {
        let q = nearest_of(100 * n, d);
        push_decimal(&mut out, (q / 100) as u64);
        out.push('.');
        let two = two_digit_text((q % 100) as u64);
        out.append(two.as_str());
        assert(out@ =~= quotient_text(n as nat, d as nat));
    }
    out
}

} // verus!

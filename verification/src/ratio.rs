//! Shares of a whole, rounded as doubles round: percentages and bars.
use crate::double::Double;
use crate::numbers::{decimal, digit, push_decimal};
use crate::sizes::{as_double, as_double_of, human_size, nearest, nearest_of, size_text, spacing};
use vstd::arithmetic::power2::{lemma2_to64, lemma_pow2_adds, lemma_pow2_unfold, pow2};
use vstd::prelude::*;

verus! {

/// By which power of two `n` is to be multiplied so that the quotient by `d` has
/// a whole part of 53 bits.
pub open spec fn raised(n: nat, d: nat) -> nat
    decreases d * 0x20_0000_0000_0000 - n,
{
    if n == 0 || n >= d * 0x10_0000_0000_0000 {
        1
    } else {
        2 * raised(2 * n, d)
    }
}

/// By which power of two `d` is to be multiplied so that the quotient of `n` has
/// a whole part of 53 bits.
pub open spec fn lowered(n: nat, d: nat) -> nat
    decreases n - d,
{
    if d == 0 || n < 0x20_0000_0000_0000 * d {
        1
    } else {
        2 * lowered(n, 2 * d)
    }
}

/// The double nearest to `n / d`, halves to the even one, as a fraction whose
/// denominator is a power of two.
pub open spec fn quotient(n: nat, d: nat) -> (nat, nat) {
    if n == 0 {
        (0, 1)
    } else {
        let c = raised(n, d);
        let e = lowered(n, d);
        (nearest(n * c, d * e) * e, c)
    }
}

/// A share of a whole times a factor, as doubles compute it: a fraction whose
/// denominator is a power of two.
pub open spec fn share(part: nat, whole: nat, factor: nat) -> (nat, nat) {
    let (n, d) = quotient(as_double(part), as_double(whole));
    (as_double(n * factor), d)
}

/// A fraction whose denominator is two to the power of `shift`.
#[derive(Clone, Copy)]
pub struct Fraction {
    pub n: u128,
    pub d: u128,
    pub shift: u32,
}

impl View for Fraction {
    type V = (nat, nat);

    open spec fn view(&self) -> (nat, nat) {
        (self.n as nat, self.d as nat)
    }
}

impl Fraction {
    /// The denominator is the power of two.
    pub open spec fn wf(self) -> bool {
        self.d == pow2(self.shift as nat) && self.shift <= 118 && 0 < self.d
            <= 0x40_0000_0000_0000_0000_0000_0000_0000
    }
}

/// A quotient of normalised size rounds to 53 bits.
proof fn lemma_nearest_range(n: nat, d: nat)
    requires
        d > 0,
        0x10_0000_0000_0000 * d <= n < 0x20_0000_0000_0000 * d,
    ensures
        0x10_0000_0000_0000 <= nearest(n, d) <= 0x20_0000_0000_0000,
{
    let q = n / d;
    assert(0x10_0000_0000_0000 <= q < 0x20_0000_0000_0000) by (nonlinear_arith)
        requires
            d > 0,
            0x10_0000_0000_0000 * d <= n < 0x20_0000_0000_0000 * d,
            q == n / d,
    ;
}

/// The largest whole number that doubles of 64-bit numbers reach, doubled.
pub const WIDEST: u128 = 0x2_0000_0000_0000_0000;

fn quotient_of(a: u128, b: u128) -> (r: Fraction)
    requires
        0 < b <= WIDEST,
        a <= WIDEST,
    ensures
        r@ == quotient(a as nat, b as nat),
        r.wf(),
        a > 0 ==> r.n >= 0x10_0000_0000_0000,
        r.n <= 0x8_0000_0000_0000_0000,
{
    proof {
        lemma2_to64();
    }
    if a == 0 {
        assert(pow2(0) == 1);
        return Fraction { n: 0, d: 1, shift: 0 };
    }
    let mut n: u128 = a;
    let mut c: u128 = 1;
    let mut k: u32 = 0;
    while n < b * 0x10_0000_0000_0000
        invariant
            0 < b <= WIDEST,
            0 < a,
            1 <= c <= n,
            n == a * c,
            n < 2 * (b * 0x10_0000_0000_0000) || c == 1,
            raised(a as nat, b as nat) == c * raised(n as nat, b as nat),
            c == pow2(k as nat),
            k <= 118,
            a <= WIDEST,
        decreases 2 * (b * 0x10_0000_0000_0000) - n,
    {
        proof {
            lemma_pow2_unfold((k + 1) as nat);
            assert(raised(n as nat, b as nat) == 2 * raised(2 * n as nat, b as nat));
            assert(c * (2 * raised(2 * n as nat, b as nat)) == (2 * c) * raised(
                2 * n as nat,
                b as nat,
            )) by (nonlinear_arith);
            assert(a * (2 * c) == 2 * (a * c)) by (nonlinear_arith);
            if k == 118 {
                lemma_big_power();
                assert(false);
            }
        }
        n = 2 * n;
        c = 2 * c;
        k = k + 1;
    }
    assert(raised(n as nat, b as nat) == 1);
    assert(raised(a as nat, b as nat) == c) by (nonlinear_arith)
        requires
            raised(a as nat, b as nat) == c * raised(n as nat, b as nat),
            raised(n as nat, b as nat) == 1,
    ;
    let mut d: u128 = b;
    let mut e: u128 = 1;
    while 0x20_0000_0000_0000 * d <= a
        invariant
            0 < a <= WIDEST,
            0 < b <= d,
            1 <= e <= d,
            d == b * e,
            d <= 2 * WIDEST,
            e <= 0x2000,
            e > 1 ==> 0x10_0000_0000_0000 * d <= a,
            lowered(a as nat, b as nat) == e * lowered(a as nat, d as nat),
        decreases 4 * WIDEST - d,
    {
        proof {
            assert(lowered(a as nat, d as nat) == 2 * lowered(a as nat, 2 * d as nat));
            assert(e * (2 * lowered(a as nat, 2 * d as nat)) == (2 * e) * lowered(
                a as nat,
                2 * d as nat,
            )) by (nonlinear_arith);
            assert(b * (2 * e) == 2 * (b * e)) by (nonlinear_arith);
        }
        d = 2 * d;
        e = 2 * e;
    }
    proof {
        assert(lowered(a as nat, d as nat) == 1);
        assert(lowered(a as nat, b as nat) == e) by (nonlinear_arith)
            requires
                lowered(a as nat, b as nat) == e * lowered(a as nat, d as nat),
                lowered(a as nat, d as nat) == 1,
        ;
        assert(c > 1 ==> d == b) by {
            if c > 1 && e > 1 {
                assert(a * c >= 2 * a) by (nonlinear_arith)
                    requires
                        c >= 2,
                        a > 0,
                ;
                assert(b * e >= 2 * b) by (nonlinear_arith)
                    requires
                        e >= 2,
                        b > 0,
                ;
                assert(false);
            }
            assert(e == 1 ==> d == b) by (nonlinear_arith)
                requires
                    d == b * e,
            ;
        }
        assert(c == 1 ==> n == a) by (nonlinear_arith)
            requires
                n == a * c,
        ;
        assert(0x10_0000_0000_0000 * d <= n < 0x20_0000_0000_0000 * d);
        lemma_nearest_range(n as nat, d as nat);
    }
    let m = nearest_of(n, d);
    proof {
        assert(m * e <= 0x20_0000_0000_0000 * 0x2000) by (nonlinear_arith)
            requires
                m <= 0x20_0000_0000_0000,
                e <= 0x2000,
        ;
        assert(quotient(a as nat, b as nat) == (nearest(n as nat, d as nat) * e as nat, c as nat));
        assert(m * e >= m) by (nonlinear_arith)
            requires
                e >= 1,
        ;
    }
    proof {
        lemma_big_power();
        if k < 118 {
            vstd::arithmetic::power2::lemma_pow2_strictly_increases(k as nat, 118);
        }
    }
    Fraction { n: m * e, d: c, shift: k }
}

proof fn lemma_big_power()
    ensures
        pow2(118) == 0x40_0000_0000_0000_0000_0000_0000_0000,
{
    lemma2_to64();
    vstd::arithmetic::power2::lemma2_to64_rest();
    lemma_pow2_adds(64, 54);
}

/// The largest whole number that a share is computed with.
pub const WIDE: u128 = 0x400_0000_0000_0000_0000;

/// The double nearest to a whole number: a significand and a power of two.
fn as_double_wide(n: u128) -> (r: (u128, u32))
    requires
        n <= WIDE,
    ensures
        r.0 * pow2(r.1 as nat) == as_double(n as nat),
        r.1 <= 22,
        r.0 <= 0x20_0000_0000_0000,
        n >= 0x10_0000_0000_0000 ==> r.0 >= 0x10_0000_0000_0000,
        n == 0 ==> r.0 == 0,
{
    let mut step: u128 = 1;
    let mut i: u32 = 0;
    proof {
        lemma2_to64();
    }
    while n >= 0x20_0000_0000_0000 * step
        invariant
            n <= WIDE,
            1 <= step <= 0x40_0000,
            step == pow2(i as nat),
            i <= 22,
            i == 22 ==> step == 0x40_0000,
            spacing(n as nat, 1) == spacing(n as nat, step as nat),
            step > 1 ==> n >= 0x10_0000_0000_0000 * step,
        decreases 0x80_0000 - step,
    {
        proof {
            lemma_pow2_unfold((i + 1) as nat);
            lemma2_to64();
        }
        step = 2 * step;
        i = i + 1;
    }
    let q = nearest_of(n, step);
    proof {
        if n >= 0x10_0000_0000_0000 {
            lemma_nearest_range(n as nat, step as nat);
        } else {
            assert(step == 1);
            assert(q == n);
        }
    }
    (q, i)
}

/// Two to a small power.
fn small_power(i: u32) -> (r: u128)
    requires
        i <= 22,
    ensures
        r == pow2(i as nat),
        1 <= r <= 0x40_0000,
{
    let mut p: u128 = 1;
    proof {
        lemma2_to64();
    }
    for k in 0..i
        invariant
            i <= 22,
            p == pow2(k as nat),
            p <= 0x40_0000,
    {
        proof {
            lemma_pow2_unfold((k + 1) as nat);
            lemma2_to64();
            vstd::arithmetic::power2::lemma_pow2_strictly_increases(k as nat, 22);
        }
        p = 2 * p;
    }
    proof {
        if i < 22 {
            vstd::arithmetic::power2::lemma_pow2_strictly_increases(i as nat, 22);
        }
    }
    p
}

fn share_of(part: u64, whole: u64, factor: u64) -> (r: Fraction)
    requires
        0 < whole,
        factor <= 100,
    ensures
        r@ == share(part as nat, whole as nat, factor as nat),
        r.wf(),
        r.n <= 2 * WIDE,
{
    let q = quotient_of(as_double_of(part), as_double_of(whole));
    assert(q.n * factor <= 0x8_0000_0000_0000_0000 * 100) by (nonlinear_arith)
        requires
            q.n <= 0x8_0000_0000_0000_0000,
            factor <= 100,
    ;
    let (m, i) = as_double_wide(q.n * factor as u128);
    let p = small_power(i);
    assert(m * p <= 0x20_0000_0000_0000 * 0x40_0000) by (nonlinear_arith)
        requires
            m <= 0x20_0000_0000_0000,
            p <= 0x40_0000,
    ;
    Fraction { n: m * p, d: q.d, shift: q.shift }
}

// ---------------------------------------------------------------------------
// Percentages
// ---------------------------------------------------------------------------

/// Tenths of a percent, halves to the even one.
pub open spec fn permille(part: nat, whole: nat) -> nat {
    let (n, d) = share(part, whole, 100);
    nearest(10 * n, d)
}

/// A percentage with one decimal; nothing where the whole is unknown or zero.
pub open spec fn percent_text(part: u64, whole: Option<u64>) -> Option<Seq<char>> {
    match whole {
        Some(w) => if w == 0 {
            None
        } else {
            let tenths = permille(part as nat, w as nat);
            Some(decimal(tenths / 10) + seq!['.', digit((tenths % 10) as int), '%'])
        },
        None => None,
    }
}

/// A percentage with one decimal.
pub fn format_percent(bytes: u64, capacity: Option<u64>) -> (r: Option<String>)
    ensures
        crate::snapshot::opt_text(r) == percent_text(bytes, capacity),
{
    match capacity {
        None => None,
        Some(whole) => {
            if whole == 0 {
                return None;
            }
            let f = share_of(bytes, whole, 100);
            let tenths = nearest_of(10 * f.n, f.d);
            let mut text = String::new();
            push_wide(&mut text, tenths / 10);
            text.push('.');
            push_decimal(&mut text, (tenths % 10) as u64);
            text.push('%');
            assert(text@ =~= decimal(tenths as nat / 10) + seq![
                '.',
                digit((tenths as nat % 10) as int),
                '%',
            ]);
            Some(text)
        },
    }
}

/// Appends a number in decimal.
fn push_wide(s: &mut String, n: u128)
    ensures
        final(s)@ == old(s)@ + decimal(n as nat),
    decreases n,
{
    if n >= 10 {
        push_wide(s, n / 10);
    }
    let d: u128 = n % 10;
    push_decimal(s, d as u64);
    assert(s@ =~= old(s)@ + decimal(n as nat));
}

/// The double is the fraction.
pub open spec fn is_fraction(x: Double, n: nat, d: nat) -> bool {
    &&& !x.signed()
    &&& x.finite()
    &&& if x.scale() >= 0 {
        x.significand() * pow2(x.scale() as nat) * d == n
    } else {
        x.significand() * d == n * pow2((-x.scale()) as nat)
    }
}

/// A percentage as a double; nothing where the whole is unknown or zero.
pub fn percent_value(bytes: u64, capacity: Option<u64>) -> (r: Option<Double>)
    ensures
        match capacity {
            Some(whole) => if whole == 0 {
                r is None
            } else {
                r matches Some(x) && ({
                    let (n, d) = share(bytes as nat, whole as nat, 100);
                    is_fraction(x, n, d)
                })
            },
            None => r is None,
        },
{
    let whole: u64 = match capacity {
        None => return None,
        Some(whole) => whole,
    };
    if whole == 0 {
        return None;
    }
    let q = quotient_of(as_double_of(bytes), as_double_of(whole));
    let (m, i) = as_double_wide(q.n * 100);
    if m == 0 {
        let zero = Double { bits: 0 };
        proof {
            let n = as_double((q.n * 100) as nat);
            assert(n == 0) by (nonlinear_arith)
                requires
                    n == 0 * pow2(i as nat),
            ;
            assert(0 * pow2(1074) == 0) by (nonlinear_arith);
            assert(zero.significand() * q.d == 0) by (nonlinear_arith)
                requires
                    zero.significand() == 0,
            ;
        }
        return Some(zero);
    }
    Some(double_from(m as u64, i, q.shift))
}

/// The double of a significand times one power of two over another.
fn double_from(m: u64, i: u32, k: u32) -> (r: Double)
    requires
        0x10_0000_0000_0000 <= m <= 0x20_0000_0000_0000,
        i <= 22,
        k <= 118,
    ensures
        is_fraction(r, m as nat * pow2(i as nat), pow2(k as nat)),
{
    let (sig, up): (u64, u32) = if m == 0x20_0000_0000_0000 {
        (0x10_0000_0000_0000, i + 1)
    } else {
        (m, i)
    };
    proof {
        lemma2_to64();
        if m == 0x20_0000_0000_0000 {
            lemma_pow2_unfold((i + 1) as nat);
            assert(0x20_0000_0000_0000 * pow2(i as nat) == 0x10_0000_0000_0000 * (2 * pow2(
                i as nat,
            ))) by (nonlinear_arith);
        }
    }
    let exponent: u64 = (up as u64 + 1075) - k as u64;
    let bits: u64 = exponent * 0x10_0000_0000_0000 + (sig - 0x10_0000_0000_0000);
    let r = Double { bits };
    proof {
        let e = exponent as int;
        let f = sig - 0x10_0000_0000_0000;
        assert(bits as int / 0x10_0000_0000_0000 == e && bits as int % 0x10_0000_0000_0000 == f)
            by (nonlinear_arith)
            requires
                bits as int == e * 0x10_0000_0000_0000 + f,
                0 <= f < 0x10_0000_0000_0000,
                e >= 0,
        ;
        assert(r.significand() == sig);
        assert(r.scale() == up - k);
        let n = m as nat * pow2(i as nat);
        assert(n == sig as nat * pow2(up as nat));
        if up >= k {
            lemma_pow2_adds((up - k) as nat, k as nat);
            assert(sig as nat * pow2((up - k) as nat) * pow2(k as nat) == sig as nat * (pow2(
                (up - k) as nat,
            ) * pow2(k as nat))) by (nonlinear_arith);
        } else {
            lemma_pow2_adds(up as nat, (k - up) as nat);
            assert((sig as nat * pow2(up as nat)) * pow2((k - up) as nat) == sig as nat * (pow2(
                up as nat,
            ) * pow2((k - up) as nat))) by (nonlinear_arith);
        }
    }
    r
}

/// A size against a capacity, with the percentage.
pub open spec fn scope_text(bytes: u64, capacity: Option<u64>) -> Seq<char> {
    match percent_text(bytes, capacity) {
        Some(percent) => size_text(bytes as nat) + " / "@ + size_text(capacity->0 as nat) + " ("@
            + percent + ")"@,
        None => size_text(bytes as nat) + " / n/a (n/a)"@,
    }
}

/// A size against a capacity, with the percentage.
pub fn format_scope_percent(bytes: u64, capacity: Option<u64>) -> (r: String)
    ensures
        r@ == scope_text(bytes, capacity),
{
    match (format_percent(bytes, capacity), capacity) {
        (Some(percent), Some(whole)) => human_size(bytes).concat(" / ").concat(
            human_size(whole).as_str(),
        ).concat(" (").concat(percent.as_str()).concat(")"),
        _ => human_size(bytes).concat(" / n/a (n/a)"),
    }
}

// ---------------------------------------------------------------------------
// Bars
// ---------------------------------------------------------------------------

/// How much of a bar is filled: the share of the whole, halves up, at most the
/// whole bar.
pub open spec fn filled(part: u64, whole: u64, width: nat) -> nat {
    if whole == 0 {
        0
    } else {
        let (n, d) = share(part as nat, whole as nat, width);
        let cells = (2 * n + d) / (2 * d);
        if cells < width {
            cells
        } else {
            width
        }
    }
}

/// How much of a bar is filled.
pub fn filled_cells(part: u64, whole: u64, width: usize) -> (r: usize)
    requires
        width <= 100,
    ensures
        r == filled(part, whole, width as nat),
        r <= width,
{
    if whole == 0 {
        return 0;
    }
    let f = share_of(part, whole, width as u64);
    let cells: u128 = (2 * f.n + f.d) / (2 * f.d);
    if cells < width as u128 {
        cells as usize
    } else {
        width
    }
}

} // verus!

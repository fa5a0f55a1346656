//! Sizes, rates and durations as people read them.
use crate::double::Double;
use crate::numbers::{decimal, decimal_text, digit, push_decimal, two_digits, two_digit_text};
use vstd::prelude::*;

verus! {

/// `n / d` rounded to the nearest integer, halves to the even one.
pub open spec fn nearest(n: nat, d: nat) -> nat {
    let q = n / d;
    let twice = 2 * (n % d);
    if twice > d || (twice == d && q % 2 == 1) {
        q + 1
    } else {
        q
    }
}

/// The distance between doubles of the size of `n`, found by doubling `step`.
pub open spec fn spacing(n: nat, step: nat) -> nat
    decreases n - step,
{
    if step == 0 || n < 0x20_0000_0000_0000 * step {
        step
    } else {
        spacing(n, 2 * step)
    }
}

/// The double nearest to a whole number, halves to the even one.
pub open spec fn as_double(n: nat) -> nat {
    let step = spacing(n, 1);
    nearest(n, step) * step
}

/// The size of the unit that `n` is shown in, from `size` upwards: multiplied
/// by 1024 while `n` is at least the next unit and petabytes are not reached.
pub open spec fn unit_size(n: nat, size: nat, unit: nat) -> (nat, nat)
    decreases 5 - unit,
{
    if unit < 5 && n >= 1024 * size {
        unit_size(n, 1024 * size, unit + 1)
    } else {
        (size, unit)
    }
}

/// The name of a unit.
pub open spec fn unit_name(unit: nat) -> Seq<char> {
    if unit == 0 {
        " B"@
    } else if unit == 1 {
        " KB"@
    } else if unit == 2 {
        " MB"@
    } else if unit == 3 {
        " GB"@
    } else if unit == 4 {
        " TB"@
    } else {
        " PB"@
    }
}

/// `n / size` with three significant digits at least: no decimals from 100,
/// one from 10, two below.
pub open spec fn quotient_text(n: nat, size: nat) -> Seq<char> {
    if n >= 100 * size {
        decimal(nearest(n, size))
    } else if n >= 10 * size {
        let q = nearest(10 * n, size);
        decimal(q / 10) + seq!['.', digit((q % 10) as int)]
    } else {
        let q = nearest(100 * n, size);
        decimal(q / 100) + seq!['.'] + two_digits(q % 100)
    }
}

/// A number of bytes in the largest binary unit that it fills.
pub open spec fn size_text(bytes: nat) -> Seq<char> {
    if bytes < 1024 {
        decimal(bytes) + " B"@
    } else {
        let n = as_double(bytes);
        let (size, unit) = unit_size(n, 1, 0);
        quotient_text(n, size) + unit_name(unit)
    }
}

pub fn nearest_of(n: u128, d: u128) -> (r: u128)
    requires
        0 < d,
        2 * d <= u128::MAX,
        n < u128::MAX,
    ensures
        r == nearest(n as nat, d as nat),
        r <= n + 1,
{
    let q: u128 = n / d;
    let twice: u128 = 2 * (n % d);
    assert(q <= n) by (nonlinear_arith)
        requires
            q == n / d,
            d > 0,
    ;
    if twice > d || (twice == d && q % 2 == 1) {
        q + 1
    } else {
        q
    }
}

/// The double nearest to `n` is near: at most `n` plus its spacing.
proof fn lemma_nearest_bound(n: nat, step: nat)
    requires
        0 < step,
    ensures
        nearest(n, step) * step <= n + step,
{
    let q = n / step;
    let r = n % step;
    assert(q * step + r == n) by (nonlinear_arith)
        requires
            step > 0,
            q == n / step,
            r == n % step,
    ;
    assert((q + 1) * step == q * step + step) by (nonlinear_arith);
}

pub fn as_double_of(n: u64) -> (r: u128)
    ensures
        r == as_double(n as nat),
        r <= 0x2_0000_0000_0000_0000,
        n >= 1024 ==> r >= 1024,
        n > 0 ==> r > 0,
{
    let value: u128 = n as u128;
    let mut step: u128 = 1;
    while value >= 0x20_0000_0000_0000 * step
        invariant
            1 <= step <= 4096,
            value == n,
            value <= u64::MAX,
            spacing(n as nat, 1) == spacing(n as nat, step as nat),
            step > 1 ==> value >= 0x10_0000_0000_0000 * step,
        decreases 8192 - step,
    {
        step = 2 * step;
    }
    let q = nearest_of(value, step);
    proof {
        lemma_nearest_bound(value as nat, step as nat);
        let d = step as int;
        let base = value as int / d;
        assert(base * d <= value) by (nonlinear_arith)
            requires
                d > 0,
                base == value as int / d,
        ;
        assert(base <= 0x1f_ffff_ffff_ffff) by (nonlinear_arith)
            requires
                d > 0,
                base * d <= value,
                value < 0x20_0000_0000_0000 * d,
        ;
        assert(q <= 0x20_0000_0000_0000);
        assert(q * d <= 0x20_0000_0000_0000 * 4096) by (nonlinear_arith)
            requires
                0 <= q <= 0x20_0000_0000_0000,
                0 < d <= 4096,
        ;
        if d == 1 {
            assert(q == value);
        } else {
            assert(value < (base + 1) * d) by (nonlinear_arith)
                requires
                    d > 0,
                    base == value as int / d,
            ;
            assert(base >= 1) by (nonlinear_arith)
                requires
                    value >= 0x10_0000_0000_0000 * d,
                    value < (base + 1) * d,
                    d > 0,
            ;
            assert(base >= 0x0f_ffff_ffff_ffff) by (nonlinear_arith)
                requires
                    value >= 0x10_0000_0000_0000 * d,
                    value < (base + 1) * d,
                    d > 0,
            ;
            assert(q * d >= 1024) by (nonlinear_arith)
                requires
                    q >= 0x0f_ffff_ffff_ffff,
                    d > 0,
            ;
        }
    }
    q * step
}

fn push_quotient(s: &mut String, n: u128, size: u128)
    requires
        0x400 <= size <= 0x4_0000_0000_0000,
        n <= 0x2_0000_0000_0000_0000,
    ensures
        final(s)@ == old(s)@ + quotient_text(n as nat, size as nat),
{
    if n >= 100 * size {
        let q = nearest_of(n, size);
        proof {
            vstd::arithmetic::div_mod::lemma_div_is_ordered_by_denominator(
                n as int,
                0x400,
                size as int,
            );
        }
        push_decimal(s, q as u64);
    } else if n >= 10 * size {
        let q = nearest_of(10 * n, size);
        assert(q <= 1000) by {
            lemma_quotient_below(10 * n as nat, size as nat, 1000);
        }
        push_decimal(s, (q / 10) as u64);
        s.append(".");
        push_decimal(s, (q % 10) as u64);
        proof {
            reveal_strlit(".");
            assert(s@ =~= old(s)@ + quotient_text(n as nat, size as nat));
        }
    } else {
        let q = nearest_of(100 * n, size);
        assert(q <= 1000) by {
            lemma_quotient_below(100 * n as nat, size as nat, 1000);
        }
        push_decimal(s, (q / 100) as u64);
        s.append(".");
        let two = two_digit_text((q % 100) as u64);
        s.append(two.as_str());
        proof {
            reveal_strlit(".");
            assert(s@ =~= old(s)@ + quotient_text(n as nat, size as nat));
        }
    }
}

/// A quotient below a bound rounds to no more than that bound.
proof fn lemma_quotient_below(n: nat, d: nat, bound: nat)
    requires
        0 < d,
        n < bound * d,
    ensures
        nearest(n, d) <= bound,
{
    assert(n / d < bound) by (nonlinear_arith)
        requires
            0 < d,
            n < bound * d,
    ;
}

/// A number of bytes in the largest binary unit that it fills.
pub fn human_size(bytes: u64) -> (r: String)
    ensures
        r@ == size_text(bytes as nat),
{
    let mut r = String::new();
    if bytes < 1024 {
        push_decimal(&mut r, bytes);
        r.append(" B");
        assert(r@ =~= size_text(bytes as nat));
        return r;
    }
    let n = as_double_of(bytes);
    let mut size: u128 = 1;
    let mut unit: u8 = 0;
    while unit < 5 && n >= 1024 * size
        invariant
            unit <= 5,
            unit == 0 ==> size == 1,
            unit == 1 ==> size == 0x400,
            unit == 2 ==> size == 0x10_0000,
            unit == 3 ==> size == 0x4000_0000,
            unit == 4 ==> size == 0x100_0000_0000,
            unit == 5 ==> size == 0x4_0000_0000_0000,
            1024 <= n <= 0x2_0000_0000_0000_0000,
            unit_size(n as nat, 1, 0) == unit_size(n as nat, size as nat, unit as nat),
        decreases 5 - unit,
    {
        size = 1024 * size;
        unit = unit + 1;
    }
    push_quotient(&mut r, n, size);
    if unit == 0 {
        r.append(" B");
    } else if unit == 1 {
        r.append(" KB");
    } else if unit == 2 {
        r.append(" MB");
    } else if unit == 3 {
        r.append(" GB");
    } else if unit == 4 {
        r.append(" TB");
    } else {
        r.append(" PB");
    }
    assert(r@ =~= size_text(bytes as nat));
    r
}

/// A rate in bytes per second; what is not positive or not finite is zero.
pub open spec fn rate_text(rate: Double) -> Seq<char> {
    if !rate.amount() || rate.zero() {
        "0 B/s"@
    } else {
        size_text(rate.scaled(0)) + "/s"@
    }
}

/// A rate in bytes per second.
pub fn human_rate(bytes_per_second: Double) -> (r: String)
    ensures
        r@ == rate_text(bytes_per_second),
{
    if !bytes_per_second.is_amount() || bytes_per_second.is_zero() {
        return "0 B/s".to_owned();
    }
    let mut r = human_size(bytes_per_second.scaled_amount(0));
    r.append("/s");
    r
}

/// A duration: milliseconds below a second, seconds and tenths below a
/// minute, minutes and whole seconds from there.
pub open spec fn duration_text(ms: nat) -> Seq<char> {
    let seconds = ms / 1000;
    if seconds < 1 {
        decimal(ms % 1000) + "ms"@
    } else if seconds < 60 {
        decimal(seconds) + "."@ + decimal((ms % 1000) / 100) + "s"@
    } else {
        decimal(seconds / 60) + "m "@ + two_digits(seconds % 60) + "s"@
    }
}

/// A duration as text.
pub fn human_duration(ms: u64) -> (r: String)
    ensures
        r@ == duration_text(ms as nat),
{
    let total_seconds: u64 = ms / 1000;
    let millis: u64 = ms % 1000;
    if total_seconds < 1 {
        return decimal_text(millis).concat("ms");
    }
    let minutes: u64 = total_seconds / 60;
    let seconds: u64 = total_seconds % 60;
    if minutes == 0 {
        decimal_text(seconds).concat(".").concat(decimal_text(millis / 100).as_str()).concat("s")
    } else {
        decimal_text(minutes).concat("m ").concat(two_digit_text(seconds).as_str()).concat("s")
    }
}

} // verus!

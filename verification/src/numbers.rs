//! Numbers as text.
use crate::text::to_chars;
use vstd::prelude::*;

verus! {

/// The digit of a number below ten.
pub open spec fn digit(d: int) -> char {
    (('0' as u32) + d) as char
}

/// Decimal digits without leading zeros.
pub open spec fn decimal(n: nat) -> Seq<char>
    decreases n,
{
    if n < 10 {
        seq![digit(n as int)]
    } else {
        decimal(n / 10).push(digit((n % 10) as int))
    }
}

/// Two digits at least, with a leading zero below ten.
pub open spec fn two_digits(n: nat) -> Seq<char> {
    if n < 10 {
        seq!['0', digit(n as int)]
    } else {
        decimal(n)
    }
}

fn digit_char(d: u64) -> (r: char)
    requires
        d < 10,
    ensures
        r == digit(d as int),
{
    (('0' as u8) + (d as u8)) as char
}

/// Appends the decimal digits of a number.
pub fn push_decimal(s: &mut String, n: u64)
    ensures
        final(s)@ == old(s)@ + decimal(n as nat),
    decreases n,
{
    if n >= 10 {
        push_decimal(s, n / 10);
    }
    s.push(digit_char(n % 10));
    assert(s@ =~= old(s)@ + decimal(n as nat));
}

/// The decimal digits of a number.
pub fn decimal_text(n: u64) -> (r: String)
    ensures
        r@ == decimal(n as nat),
{
    let mut r = String::new();
    push_decimal(&mut r, n);
    assert(r@ =~= decimal(n as nat));
    r
}

/// The decimal digits of a number, at least two.
pub fn two_digit_text(n: u64) -> (r: String)
    ensures
        r@ == two_digits(n as nat),
{
    let mut r = String::new();
    if n < 10 {
        r.push('0');
    }
    push_decimal(&mut r, n);
    assert(r@ =~= two_digits(n as nat));
    r
}

/// The last `count` hexadecimal digits of a number, in lower case.
pub open spec fn hex(n: nat, count: nat) -> Seq<char>
    decreases count,
{
    if count == 0 {
        Seq::empty()
    } else {
        hex(n / 16, (count - 1) as nat).push(hex_digit((n % 16) as int))
    }
}

/// The hexadecimal digit of a number below sixteen.
pub open spec fn hex_digit(d: int) -> char {
    if d < 10 {
        digit(d)
    } else {
        (('a' as u32) + (d - 10)) as char
    }
}

/// Sixteen hexadecimal digits tell two machine numbers apart.
pub proof fn lemma_hex_of_words(a: u64, b: u64)
    requires
        hex(a as nat, 16) == hex(b as nat, 16),
    ensures
        a == b,
{
    assert(vstd::arithmetic::power::pow(16, 16) == 0x1_0000_0000_0000_0000) by {
        reveal_with_fuel(vstd::arithmetic::power::pow, 17);
    }
    lemma_hex_injective(a as nat, b as nat, 16);
}

/// As many hexadecimal digits as a number needs are those of no other.
proof fn lemma_hex_injective(a: nat, b: nat, count: nat)
    requires
        a < vstd::arithmetic::power::pow(16, count),
        b < vstd::arithmetic::power::pow(16, count),
        hex(a, count) == hex(b, count),
    ensures
        a == b,
    decreases count,
{
    reveal(vstd::arithmetic::power::pow);
    if count > 0 {
        let less = (count - 1) as nat;
        let (x, y) = (hex(a / 16, less), hex(b / 16, less));
        assert(hex(a, count).drop_last() =~= x);
        assert(hex(b, count).drop_last() =~= y);
        assert(hex(a, count).last() == hex_digit((a % 16) as int));
        assert(hex(b, count).last() == hex_digit((b % 16) as int));
        assert(a % 16 == b % 16);
        lemma_hex_injective(a / 16, b / 16, less);
    }
}

/// Appends `count` hexadecimal digits of a number.
pub fn push_hex(s: &mut String, n: u64, count: u8)
    ensures
        final(s)@ == old(s)@ + hex(n as nat, count as nat),
    decreases count,
{
    if count > 0 {
        push_hex(s, n / 16, count - 1);
        let d: u64 = n % 16;
        let c = if d < 10 {
            digit_char(d)
        } else {
            (('a' as u8) + ((d - 10) as u8)) as char
        };
        s.push(c);
    }
    assert(s@ =~= old(s)@ + hex(n as nat, count as nat));
}

/// Whether a character is a decimal digit.
pub open spec fn is_digit(c: char) -> bool {
    '0' <= c && c <= '9'
}

/// Whether a text is made of decimal digits alone.
pub open spec fn all_digits(s: Seq<char>) -> bool {
    forall|i: int| 0 <= i < s.len() ==> is_digit(#[trigger] s[i])
}

/// The number that a row of digits stands for.
pub open spec fn digits_value(s: Seq<char>) -> nat
    decreases s.len(),
{
    if s.len() == 0 {
        0
    } else {
        digits_value(s.drop_last()) * 10 + ((s.last() as u32) - ('0' as u32)) as nat
    }
}

/// The digits of a number as it may be typed: one leading `+` is allowed.
pub open spec fn typed_digits(s: Seq<char>) -> Seq<char> {
    if s.len() > 0 && s[0] == '+' {
        s.drop_first()
    } else {
        s
    }
}

/// The number that a text stands for: digits, at least one, after an optional
/// `+`; nothing else is a number.
pub open spec fn typed_number(s: Seq<char>) -> Option<nat> {
    let d = typed_digits(s);
    if d.len() > 0 && all_digits(d) {
        Some(digits_value(d))
    } else {
        None
    }
}

/// A prefix of a row of digits stands for no more than the whole.
proof fn lemma_digits_prefix(s: Seq<char>, n: int)
    requires
        0 <= n <= s.len(),
    ensures
        digits_value(s.take(n)) <= digits_value(s),
    decreases s.len(),
{
    if n < s.len() {
        lemma_digits_prefix(s.drop_last(), n);
        assert(s.drop_last().take(n) == s.take(n));
    } else {
        assert(s.take(n) == s);
    }
}

/// Reads a number; `None` also where it does not fit.
pub fn parse_u64(s: &str) -> (r: Option<u64>)
    ensures
        r == (match typed_number(s@) {
            Some(n) if n <= u64::MAX => Some(n as u64),
            _ => None::<u64>,
        }),
{
    let chars = to_chars(s);
    let mut i: usize = 0;
    if chars.len() > 0 && chars[0] == '+' {
        i = 1;
    }
    let ghost from = i as int;
    let ghost d = typed_digits(s@);
    assert(d =~= chars@.skip(from));
    if i >= chars.len() {
        return None;
    }
    let mut value: u64 = 0;
    assert(d.take(0) =~= Seq::<char>::empty());
    while i < chars.len()
        invariant
            from <= i <= chars@.len(),
            0 <= from,
            d == chars@.skip(from),
            d == typed_digits(s@),
            d.len() > 0,
            value == digits_value(d.take(i - from)),
            forall|k: int| 0 <= k < i - from ==> is_digit(#[trigger] d[k]),
        decreases chars@.len() - i,
    {
        let c = chars[i];
        assert(c == d[i - from]);
        if !('0' <= c && c <= '9') {
            assert(!is_digit(d[i - from]));
            return None;
        }
        let step: u64 = (c as u32 - '0' as u32) as u64;
        proof {
            assert(d.take(i - from + 1).drop_last() == d.take(i - from));
            assert(digits_value(d.take(i - from + 1)) == value * 10 + step);
            lemma_digits_prefix(d, i - from + 1);
        }
        if value > u64::MAX / 10 {
            assert(digits_value(d) > u64::MAX);
            return None;
        }
        let ten: u64 = value * 10;
        if step > u64::MAX - ten {
            assert(digits_value(d) > u64::MAX);
            return None;
        }
        value = ten + step;
        i = i + 1;
    }
    assert(d.take(i - from) =~= d);
    Some(value)
}

/// Reads a number; `None` also where it does not fit.
pub fn parse_usize(s: &str) -> (r: Option<usize>)
    ensures
        r == (match typed_number(s@) {
            Some(n) if n <= usize::MAX => Some(n as usize),
            _ => None::<usize>,
        }),
{
    match parse_u64(s) {
        Some(n) => {
            if n <= usize::MAX as u64 {
                Some(n as usize)
            } else {
                None
            }
        },
        None => None,
    }
}

} // verus!

//! Decimal numbers in text.
use crate::text::{all_in, digit, is_digit, Class};
use vstd::prelude::*;

verus! {

/// The value of one decimal digit.
pub open spec fn digit_value(c: char) -> int {
    c as u32 - '0' as u32
}

/// The number a run of decimal digits names.
pub open spec fn digits_value(s: Seq<char>) -> int
    decreases s.len(),
{
    if s.len() == 0 {
        0
    } else {
        10 * digits_value(s.drop_last()) + digit_value(s.last())
    }
}

/// The unsigned 64-bit number a text names: decimal digits, an optional `+` before
/// them.
pub open spec fn number_of(s: Seq<char>) -> Option<u64> {
    let d = if s.len() > 1 && s[0] == '+' {
        s.drop_first()
    } else {
        s
    };
    if d.len() > 0 && all_in(d, Class::Digit) && digits_value(d) <= u64::MAX {
        Some(digits_value(d) as u64)
    } else {
        None
    }
}

/// A run of digits names no less than any of its prefixes does.
proof fn lemma_digits_grow(s: Seq<char>, n: int)
    requires
        0 <= n <= s.len(),
        all_in(s, Class::Digit),
    ensures
        0 <= digits_value(s.take(n)) <= digits_value(s),
    decreases s.len(),
{
    if n < s.len() {
        assert(all_in(s.drop_last(), Class::Digit)) by {
            assert forall|i: int| 0 <= i < s.len() - 1 implies is_digit(
                #[trigger] s.drop_last()[i],
            ) by {
                assert(s.drop_last()[i] == s[i]);
            }
        }
        lemma_digits_grow(s.drop_last(), n);
        assert(s.drop_last().take(n) =~= s.take(n));
        assert(Class::Digit.has(s[s.len() - 1]));
    } else {
        assert(s.take(n) =~= s);
        if s.len() > 0 {
            assert forall|i: int| 0 <= i < s.len() - 1 implies is_digit(
                #[trigger] s.drop_last()[i],
            ) by {
                assert(s.drop_last()[i] == s[i]);
            }
            lemma_digits_grow(s.drop_last(), s.len() - 1);
            assert(s.drop_last().take(s.len() - 1) =~= s.drop_last());
            assert(Class::Digit.has(s[s.len() - 1]));
        }
    }
}

/// Read an unsigned 64-bit number.
pub fn parse_u64(s: &[char]) -> (r: Option<u64>)
    ensures
        r == number_of(s@),
{
    let start: usize = if s.len() > 1 && s[0] == '+' {
        1
    } else {
        0
    };
    let ghost d = if s@.len() > 1 && s@[0] == '+' {
        s@.drop_first()
    } else {
        s@
    };
    assert(d =~= s@.skip(start as int));
    if s.len() == start {
        return None;
    }
    let mut value: u64 = 0;
    let mut i: usize = start;
    while i < s.len()
        invariant
            start <= i <= s.len(),
            d == s@.skip(start as int),
            value == digits_value(d.take(i - start)),
            forall|j: int| 0 <= j < i - start ==> is_digit(#[trigger] d[j]),
            number_of(s@) == if d.len() > 0 && all_in(d, Class::Digit) && digits_value(d)
                <= u64::MAX {
                Some(digits_value(d) as u64)
            } else {
                None
            },
        decreases s.len() - i,
    {
        assert(d[i - start] == s@[i as int]);
        if !digit(s[i]) {
            assert(!Class::Digit.has(d[i - start]));
            return None;
        }
        let one: u64 = s[i] as u64 - '0' as u64;
        proof {
            assert(d.take(i - start + 1).drop_last() =~= d.take(i - start));
            if all_in(d, Class::Digit) {
                lemma_digits_grow(d, i - start + 1);
            }
        }
        if value > (u64::MAX - one) / 10 {
            return None;
        }
        value = value * 10 + one;
        i = i + 1;
    }
    assert(d.take(i - start) =~= d);
    Some(value)
}

/// The decimal digits of a number, without leading zeros.
pub open spec fn decimal(n: nat) -> Seq<char>
    decreases n,
{
    if n < 10 {
        seq![('0' as u32 + n) as char]
    } else {
        decimal(n / 10).push(('0' as u32 + n % 10) as char)
    }
}

/// Write a number in decimal.
pub fn to_decimal(n: u64) -> (r: Vec<char>)
    ensures
        r@ == decimal(n as nat),
    decreases n,
{
    let last: char = (48u8 + (n % 10) as u8) as char;
    if n < 10 {
        let mut out: Vec<char> = Vec::new();
        out.push(last);
        assert(out@ =~= decimal(n as nat));
        out
    } else {
        let mut out = to_decimal(n / 10);
        out.push(last);
        out
    }
}

/// The decimal digits of a number are digits, at least one, and read back as the number.
pub proof fn law_decimal_reads_back(n: nat)
    ensures
        decimal(n).len() > 0,
        all_in(decimal(n), Class::Digit),
        digits_value(decimal(n)) == n,
        n <= u64::MAX ==> number_of(decimal(n)) == Some(n as u64),
    decreases n,
{
    let d = decimal(n);
    if n < 10 {
        assert(d.drop_last() =~= seq![]);
        assert(digits_value(d.drop_last()) == 0);
        assert(d.last() as u32 == '0' as u32 + n);
    } else {
        law_decimal_reads_back(n / 10);
        let front = decimal(n / 10);
        assert(d.drop_last() =~= front);
        assert(d.last() as u32 == '0' as u32 + n % 10);
        assert forall|i: int| 0 <= i < d.len() implies is_digit(#[trigger] d[i]) by {
            if i < front.len() {
                assert(d[i] == front[i]);
                assert(Class::Digit.has(front[i]));
            }
        }
        assert(n == 10 * (n / 10) + n % 10);
    }
    assert(Class::Digit.has(d[0]));
}

/// The decimal digits of a number other than zero do not begin with one.
pub proof fn lemma_no_leading_zero(n: nat)
    ensures
        decimal(n)[0] == '0' ==> decimal(n).len() == 1,
        n > 0 ==> decimal(n)[0] != '0',
    decreases n,
{
    law_decimal_reads_back(n);
    if n >= 10 {
        lemma_no_leading_zero(n / 10);
        law_decimal_reads_back(n / 10);
        assert(decimal(n)[0] == decimal(n / 10)[0]);
    }
}

} // verus!

//! Decimal numbers, as they stand in the headers of the upload protocol.

use crate::text::{chars_of, holds};
use vstd::prelude::*;

verus! {

/// The decimal digit with the value `d`.
pub open spec fn digit(d: nat) -> char {
    (('0' as u32) + d) as char
}

/// Whether `c` is one of `0-9`.
pub open spec fn is_digit(c: char) -> bool {
    '0' <= c && c <= '9'
}

/// The value of a decimal digit.
pub open spec fn digit_value(c: char) -> nat {
    ((c as u32) - ('0' as u32)) as nat
}

/// `n` in decimal notation, without leading zeros.
pub open spec fn decimal(n: nat) -> Seq<char>
    decreases n,
{
    if n < 10 {
        seq![digit(n)]
    } else {
        decimal(n / 10).push(digit(n % 10))
    }
}

/// The number that a sequence of digits denotes.
pub open spec fn value_of(digits: Seq<char>) -> nat
    decreases digits.len(),
{
    if digits.len() == 0 {
        0
    } else {
        value_of(digits.drop_last()) * 10 + digit_value(digits.last())
    }
}

/// Whether all characters are decimal digits.
pub open spec fn all_digits(s: Seq<char>) -> bool {
    forall|i: int| 0 <= i < s.len() ==> is_digit(s[i])
}

/// The text without one leading plus sign.
pub open spec fn without_plus(s: Seq<char>) -> Seq<char> {
    if s.len() > 0 && s[0] == '+' {
        s.skip(1)
    } else {
        s
    }
}

/// The unsigned 64-bit number that `s` denotes: one or more digits after an optional plus
/// sign, not above the largest such number.
pub open spec fn number_of(s: Seq<char>) -> Option<u64> {
    let digits = without_plus(s);
    if digits.len() > 0 && all_digits(digits) && value_of(digits) <= u64::MAX {
        Some(value_of(digits) as u64)
    } else {
        None
    }
}

proof fn lemma_digit(d: nat)
    requires
        d < 10,
    ensures
        is_digit(digit(d)),
        digit_value(digit(d)) == d,
        digit(d) as u32 == ('0' as u32) + d,
{
}

/// Decimal notation holds digits only, and denotes the number it was made from.
pub proof fn lemma_decimal(n: nat)
    ensures
        decimal(n).len() > 0,
        all_digits(decimal(n)),
        value_of(decimal(n)) == n,
    decreases n,
{
    if n < 10 {
        lemma_digit(n);
        assert(decimal(n).drop_last() =~= Seq::<char>::empty());
        assert(value_of(decimal(n).drop_last()) == 0);
    } else {
        lemma_decimal(n / 10);
        lemma_digit(n % 10);
        assert(decimal(n).drop_last() =~= decimal(n / 10));
        assert(decimal(n).last() == digit(n % 10));
        assert(value_of(decimal(n)) == (n / 10) * 10 + n % 10);
        assert forall|i: int| 0 <= i < decimal(n).len() implies is_digit(decimal(n)[i]) by {
            if i < decimal(n / 10).len() {
                assert(decimal(n)[i] == decimal(n / 10)[i]);
            }
        }
    }
}

/// A number that was written in decimal notation reads back as itself.
pub proof fn law_decimal_reads_back(n: u64)
    ensures
        number_of(decimal(n as nat)) == Some(n),
{
    lemma_decimal(n as nat);
    assert(is_digit(decimal(n as nat)[0]));
}

/// Digits stand in decimal notation, and nothing else does.
pub proof fn lemma_decimal_holds_no(n: nat, c: char)
    requires
        !is_digit(c),
    ensures
        !holds(decimal(n), c),
{
    lemma_decimal(n);
}

/// The digit with the value `d`.
fn digit_char(d: u64) -> (c: char)
    requires
        d < 10,
    ensures
        c == digit(d as nat),
{
    proof {
        lemma_digit(d as nat);
    }
    match d {
        0 => '0',
        1 => '1',
        2 => '2',
        3 => '3',
        4 => '4',
        5 => '5',
        6 => '6',
        7 => '7',
        8 => '8',
        _ => '9',
    }
}

/// Append `n` in decimal notation to `out`.
pub fn push_decimal(out: &mut String, n: u64)
    ensures
        final(out)@ == old(out)@ + decimal(n as nat),
    decreases n,
{
    if n >= 10 {
        push_decimal(out, n / 10);
    }
    out.push(digit_char(n % 10));
    assert(out@ =~= old(out)@ + decimal(n as nat));
}

/// Write `n` in decimal notation.
pub fn to_decimal(n: u64) -> (res: String)
    ensures
        res@ == decimal(n as nat),
{
    let mut out = String::new();
    push_decimal(&mut out, n);
    assert(out@ =~= decimal(n as nat));
    out
}

proof fn lemma_value_grows(s: Seq<char>, k: int)
    requires
        0 <= k <= s.len(),
    ensures
        value_of(s.take(k)) <= value_of(s),
    decreases s.len(),
{
    if k == s.len() {
        assert(s.take(k) =~= s);
    } else {
        lemma_value_grows(s.drop_last(), k);
        assert(s.drop_last().take(k) =~= s.take(k));
    }
}

/// Read an unsigned 64-bit number.
pub fn parse_number(chars: &[char]) -> (res: Option<u64>)
    ensures
        res == number_of(chars@),
{
    let start: usize = if chars.len() > 0 && chars[0] == '+' {
        1
    } else {
        0
    };
    let n = chars.len();
    let ghost digits = without_plus(chars@);
    assert(digits =~= chars@.skip(start as int));
    if start == n {
        return None;
    }
    let mut value: u64 = 0;
    for i in start..n
        invariant
            start <= i,
            n == chars@.len(),
            start <= n,
            digits == chars@.skip(start as int),
            digits == without_plus(chars@),
            digits.len() > 0,
            all_digits(digits.take(i - start)),
            value == value_of(digits.take(i - start)),
    {
        let c = chars[i];
        let ghost k = i - start;
        assert(digits[k] == c);
        assert(digits.take(k + 1).drop_last() =~= digits.take(k));
        assert(digits.take(k + 1).last() == c);
        if !('0' <= c && c <= '9') {
            assert(!all_digits(digits));
            return None;
        }
        let d: u64 = (c as u32 - '0' as u32) as u64;
        proof {
            lemma_value_grows(digits, k + 1);
            assert(value_of(digits.take(k + 1)) == value * 10 + d);
            let longer = digits.take(k + 1);
            assert forall|j: int| 0 <= j < longer.len() implies is_digit(longer[j]) by {
                if j < k {
                    assert(digits.take(k)[j] == digits[j]);
                }
            }
        }
        let scaled = match value.checked_mul(10) {
            Some(v) => v,
            None => {
                return None;
            },
        };
        value = match scaled.checked_add(d) {
            Some(v) => v,
            None => {
                return None;
            },
        };
    }
    assert(digits.take(n - start) =~= digits);
    Some(value)
}

/// Read an unsigned 64-bit number from a string.
pub fn parse_u64(s: &str) -> (res: Option<u64>)
    ensures
        res == number_of(s@),
{
    let chars = chars_of(s);
    parse_number(chars.as_slice())
}

/// Numbers below ten are written as one digit, and a digit behind a number stands for ten times
/// that number and the digit.
pub proof fn law_decimal_is_positional(n: nat, d: nat)
    requires
        d < 10,
    ensures
        decimal(d) == seq![(48 + d) as char],
        n > 0 ==> decimal(10 * n + d) == decimal(n).push((48 + d) as char),
{
    if n > 0 {
        assert((10 * n + d) / 10 == n && (10 * n + d) % 10 == d);
    }
}

/// No digits stand for zero, and a digit behind others stands for ten times their number and the
/// digit.
pub proof fn law_digits_are_positional(digits: Seq<char>, c: char)
    requires
        '0' <= c && c <= '9',
    ensures
        value_of(Seq::empty()) == 0,
        value_of(digits.push(c)) == 10 * value_of(digits) + (c as u32 - 48),
{
    assert(digits.push(c).drop_last() =~= digits);
}

/// Digits denote their number, with or without a plus sign in front, as long as 64 bits hold it.
pub proof fn law_digits_are_a_number(digits: Seq<char>)
    requires
        digits.len() > 0,
        forall|i: int| 0 <= i < digits.len() ==> '0' <= #[trigger] digits[i] && digits[i] <= '9',
    ensures
        number_of(digits) is Some <==> value_of(digits) <= u64::MAX,
        number_of(digits) matches Some(n) ==> n == value_of(digits),
        number_of(seq!['+'] + digits) == number_of(digits),
{
    assert('0' <= digits[0]);
    assert(without_plus(digits) == digits);
    assert((seq!['+'] + digits).skip(1) =~= digits);
}

/// Nothing but digits behind an optional plus sign denotes a number.
pub proof fn law_number_is_digits(s: Seq<char>)
    requires
        number_of(s) is Some,
    ensures
        s.len() > 0,
        s[0] == '+' ==> s.len() > 1,
        s[0] == '+' || ('0' <= s[0] && s[0] <= '9'),
        forall|i: int| 1 <= i < s.len() ==> '0' <= #[trigger] s[i] && s[i] <= '9',
{
    if s[0] == '+' {
        assert forall|i: int| 1 <= i < s.len() implies '0' <= #[trigger] s[i] && s[i] <= '9' by {
            assert(s.skip(1)[i - 1] == s[i]);
        }
    } else {
        assert(is_digit(s[0]));
    }
}

} // verus!

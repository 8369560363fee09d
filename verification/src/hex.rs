//! Hexadecimal digits and hexadecimal text.

use vstd::prelude::*;

verus! {

/// Whether `c` is one of `0-9`, `a-f` and `A-F`.
pub open spec fn is_hex_digit(c: char) -> bool {
    ('0' <= c && c <= '9') || ('a' <= c && c <= 'f') || ('A' <= c && c <= 'F')
}

/// Whether all characters are hexadecimal digits.
pub open spec fn all_hex(s: Seq<char>) -> bool {
    forall|i: int| 0 <= i < s.len() ==> is_hex_digit(s[i])
}

/// The lower-case hexadecimal digit with the value `d`.
pub open spec fn hex_digit(d: int) -> char {
    if d < 10 {
        (('0' as u32) + d) as char
    } else {
        (('a' as u32) + (d - 10)) as char
    }
}

/// Two lower-case digits for each byte, the high half first.
pub open spec fn hex_text(bytes: Seq<u8>) -> Seq<char> {
    Seq::new(
        2 * bytes.len(),
        |i: int|
            if i % 2 == 0 {
                hex_digit(bytes[i / 2] as int / 16)
            } else {
                hex_digit(bytes[i / 2] as int % 16)
            },
    )
}

/// Decide whether `c` is an ASCII hexadecimal digit of either case.
pub fn is_ascii_hexdigit(c: char) -> (res: bool)
    ensures
        res == is_hex_digit(c),
{
    ('0' <= c && c <= '9') || ('a' <= c && c <= 'f') || ('A' <= c && c <= 'F')
}

/// Decide whether all characters are hexadecimal digits.
pub fn is_hex(chars: &[char]) -> (res: bool)
    ensures
        res == all_hex(chars@),
{
    let n = chars.len();
    for i in 0..n
        invariant
            n == chars@.len(),
            forall|j: int| 0 <= j < i ==> is_hex_digit(chars@[j]),
    {
        if !is_ascii_hexdigit(chars[i]) {
            return false;
        }
    }
    true
}

fn nibble(d: u8) -> (c: char)
    requires
        d < 16,
    ensures
        c == hex_digit(d as int),
{
    match d {
        0 => '0',
        1 => '1',
        2 => '2',
        3 => '3',
        4 => '4',
        5 => '5',
        6 => '6',
        7 => '7',
        8 => '8',
        9 => '9',
        10 => 'a',
        11 => 'b',
        12 => 'c',
        13 => 'd',
        14 => 'e',
        _ => 'f',
    }
}

/// Format the given bytes as a hex string.
///
/// This is used to format the MD5 hex digest for files.
pub fn encode_hex(bytes: &[u8]) -> (res: String)
    ensures
        res@ == hex_text(bytes@),
{
    let mut out = String::new();
    let n = bytes.len();
    for i in 0..n
        invariant
            n == bytes@.len(),
            out@ == hex_text(bytes@.take(i as int)),
    {
        let b = bytes[i];
        out.push(nibble(b / 16));
        out.push(nibble(b % 16));
        assert(out@ =~= hex_text(bytes@.take(i + 1)));
    }
    assert(bytes@.take(n as int) =~= bytes@);
    out
}

proof fn lemma_hex_digit(d: int)
    requires
        0 <= d < 16,
    ensures
        is_hex_digit(hex_digit(d)),
        d < 10 ==> hex_digit(d) as u32 == 48 + d,
        d >= 10 ==> hex_digit(d) as u32 == 87 + d,
{
}

/// Hexadecimal text holds hexadecimal digits only.
pub proof fn law_hex_text_is_hex(bytes: Seq<u8>)
    ensures
        all_hex(hex_text(bytes)),
{
    assert forall|i: int| 0 <= i < hex_text(bytes).len() implies is_hex_digit(
        hex_text(bytes)[i],
    ) by {
        lemma_hex_digit(bytes[i / 2] as int / 16);
        lemma_hex_digit(bytes[i / 2] as int % 16);
    }
}

/// Different bytes have different hexadecimal texts.
pub proof fn law_hex_text_is_injective(a: Seq<u8>, b: Seq<u8>)
    requires
        hex_text(a) == hex_text(b),
    ensures
        a == b,
{
    assert(hex_text(a).len() == 2 * a.len());
    assert(hex_text(b).len() == 2 * b.len());
    assert forall|i: int| 0 <= i < a.len() implies a[i] == b[i] by {
        assert((2 * i) / 2 == i && (2 * i + 1) / 2 == i);
        assert(hex_text(a)[2 * i] == hex_digit(a[i] as int / 16));
        assert(hex_text(b)[2 * i] == hex_digit(b[i] as int / 16));
        assert(hex_text(a)[2 * i + 1] == hex_digit(a[i] as int % 16));
        assert(hex_text(b)[2 * i + 1] == hex_digit(b[i] as int % 16));
        lemma_hex_digit(a[i] as int / 16);
        lemma_hex_digit(a[i] as int % 16);
        lemma_hex_digit(b[i] as int / 16);
        lemma_hex_digit(b[i] as int % 16);
    }
    assert(a =~= b);
}

/// The hexadecimal digits are these and no others.
pub proof fn law_hex_digits_are_listed(c: char)
    ensures
        is_hex_digit(c) <==> "0123456789abcdefABCDEF"@.contains(c),
{
    reveal_strlit("0123456789abcdefABCDEF");
    let digits = "0123456789abcdefABCDEF"@;
    if is_hex_digit(c) {
        let i = if c <= '9' {
            c as int - '0' as int
        } else if 'a' <= c {
            10 + (c as int - 'a' as int)
        } else {
            16 + (c as int - 'A' as int)
        };
        assert(digits[i] == c);
    }
}

/// Text is hexadecimal if each of its characters is one of the hexadecimal digits.
pub proof fn law_hex_is_digit_by_digit(s: Seq<char>)
    ensures
        all_hex(s) <==> forall|i: int|
            0 <= i < s.len() ==> "0123456789abcdefABCDEF"@.contains(#[trigger] s[i]),
{
    assert forall|i: int| 0 <= i < s.len() implies is_hex_digit(#[trigger] s[i])
        == "0123456789abcdefABCDEF"@.contains(s[i]) by {
        law_hex_digits_are_listed(s[i]);
    }
}

/// Each byte is written as two lower-case digits, the one for the higher half first.
pub proof fn law_byte_is_two_digits(bytes: Seq<u8>, i: int)
    requires
        0 <= i < bytes.len(),
    ensures
        hex_text(bytes).len() == 2 * bytes.len(),
        hex_text(bytes)[2 * i] == "0123456789abcdef"@[bytes[i] as int / 16],
        hex_text(bytes)[2 * i + 1] == "0123456789abcdef"@[bytes[i] as int % 16],
{
    reveal_strlit("0123456789abcdef");
    assert((2 * i) / 2 == i && (2 * i + 1) / 2 == i);
    assert(hex_text(bytes)[2 * i] == hex_digit(bytes[i] as int / 16));
    assert(hex_text(bytes)[2 * i + 1] == hex_digit(bytes[i] as int % 16));
    assert forall|d: int| 0 <= d < 16 implies hex_digit(d) == #[trigger] "0123456789abcdef"@[d] by {
        lemma_hex_digit(d);
    }
}

} // verus!

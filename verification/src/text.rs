//! Text as a sequence of characters.

use vstd::prelude::*;
use vstd::utf8::*;

verus! {

/// `String::push` appends one character to the end of the string.
pub assume_specification[ String::push ](s: &mut String, c: char)
    ensures
        final(s)@ == old(s)@.push(c),
;

/// The error of `std::str::from_utf8`.
#[verifier::external_type_specification]
#[verifier::external_body]
pub struct ExUtf8Error(std::str::Utf8Error);

/// `std::str::from_utf8` accepts exactly the bytes that are valid UTF-8, and gives the text
/// that they encode.
pub assume_specification[ std::str::from_utf8 ](v: &[u8]) -> (res: Result<
    &str,
    std::str::Utf8Error,
>)
    ensures
        res is Ok <==> valid_utf8(v@),
        res matches Ok(s) ==> encode_utf8(s@) == v@,
;

/// What `String::from_utf8_lossy` makes of bytes.
pub uninterp spec fn lossy_text(bytes: Seq<u8>) -> Seq<char>;

/// Calls `String::from_utf8_lossy`.
///
/// The result is a function of the bytes. Bytes that are valid UTF-8 give the text that they
/// encode; which replacement characters stand for the others is not said.
#[verifier::external_body]
pub(crate) fn lossy(bytes: &[u8]) -> (res: String)
    ensures
        res@ == lossy_text(bytes@),
        valid_utf8(bytes@) ==> encode_utf8(res@) == bytes@,
{
    String::from_utf8_lossy(bytes).into_owned()
}

/// The views of a list of strings.
pub open spec fn texts(list: Seq<String>) -> Seq<Seq<char>> {
    list.map_values(|s: String| s@)
}

/// Whether `c` stands somewhere in `s`.
pub open spec fn holds(s: Seq<char>, c: char) -> bool {
    exists|i: int| 0 <= i < s.len() && s[i] == c
}

/// `i` is the first place in `s` where `c` stands.
pub open spec fn first_at(s: Seq<char>, c: char, i: int) -> bool {
    &&& 0 <= i < s.len()
    &&& s[i] == c
    &&& forall|j: int| 0 <= j < i ==> s[j] != c
}

/// What stands before and after the first `c` in `s`, or `None` if there is no `c`.
pub open spec fn split_at_first(s: Seq<char>, c: char) -> Option<(Seq<char>, Seq<char>)> {
    if holds(s, c) {
        let i = choose|i: int| first_at(s, c, i);
        Some((s.take(i), s.skip(i + 1)))
    } else {
        None
    }
}

/// What follows `prefix` in `s`, or `None` if `s` does not start with `prefix`.
pub open spec fn after_prefix(s: Seq<char>, prefix: Seq<char>) -> Option<Seq<char>> {
    if prefix.len() <= s.len() && s.take(prefix.len() as int) == prefix {
        Some(s.skip(prefix.len() as int))
    } else {
        None
    }
}

/// The first `c` of `s` splits it, wherever it stands.
pub proof fn lemma_split_at_first(s: Seq<char>, c: char, i: int)
    requires
        first_at(s, c, i),
    ensures
        split_at_first(s, c) == Some((s.take(i), s.skip(i + 1))),
{
    let k = choose|k: int| first_at(s, c, k);
    assert(first_at(s, c, k));
    if k < i {
        assert(s[k] != c);
    }
    if i < k {
        assert(s[i] != c);
    }
}

/// If `c` stands in `s`, it stands somewhere first.
pub proof fn lemma_first_exists(s: Seq<char>, c: char)
    requires
        holds(s, c),
    ensures
        exists|i: int| first_at(s, c, i),
    decreases s.len(),
{
    let k = choose|k: int| 0 <= k < s.len() && s[k] == c;
    if holds(s.take(k), c) {
        lemma_first_exists(s.take(k), c);
        let i = choose|i: int| first_at(s.take(k), c, i);
        assert(s.take(k)[i] == s[i]);
        assert forall|j: int| 0 <= j < i implies s[j] != c by {
            assert(s.take(k)[j] == s[j]);
        }
        assert(first_at(s, c, i));
    } else {
        assert forall|j: int| 0 <= j < k implies s[j] != c by {
            assert(s.take(k)[j] == s[j]);
        }
        assert(first_at(s, c, k));
    }
}

/// Text without a `c`, then `c`, then anything: the split is at that `c`.
pub proof fn lemma_split_joined(left: Seq<char>, c: char, right: Seq<char>)
    requires
        !holds(left, c),
    ensures
        split_at_first(left.push(c) + right, c) == Some((left, right)),
{
    let s = left.push(c) + right;
    let i = left.len() as int;
    assert(first_at(s, c, i)) by {
        assert forall|j: int| 0 <= j < i implies s[j] != c by {
            assert(left[j] == s[j]);
        }
    }
    lemma_split_at_first(s, c, i);
    assert(s.take(i) =~= left);
    assert(s.skip(i + 1) =~= right);
}

/// A prefix that was put in front comes off again.
pub proof fn lemma_after_prefix(prefix: Seq<char>, rest: Seq<char>)
    ensures
        after_prefix(prefix + rest, prefix) == Some(rest),
{
    assert((prefix + rest).take(prefix.len() as int) =~= prefix);
    assert((prefix + rest).skip(prefix.len() as int) =~= rest);
}

/// Collect the characters of `s`.
pub fn chars_of(s: &str) -> (res: Vec<char>)
    ensures
        res@ == s@,
{
    let mut out: Vec<char> = Vec::new();
    for c in it: s.chars()
        invariant
            it.seq() == s@,
            out@ == it.seq().take(it.index() as int),
    {
        out.push(c);
    }
    assert(s@.take(s@.len() as int) =~= s@);
    out
}

/// Read bytes as UTF-8 text, or `None` if they are not valid.
pub fn decode(bytes: &[u8]) -> (res: Option<String>)
    ensures
        res is Some <==> valid_utf8(bytes@),
        res matches Some(s) ==> s@ == decode_utf8(bytes@),
{
    match std::str::from_utf8(bytes) {
        Ok(s) => {
            proof {
                encode_utf8_decode_utf8(s@);
            }
            Some(s.to_owned())
        },
        Err(_) => None,
    }
}

/// Make a string of the given characters.
pub fn text_of(chars: &[char]) -> (res: String)
    ensures
        res@ == chars@,
{
    let mut out = String::new();
    let n = chars.len();
    for i in 0..n
        invariant
            n == chars@.len(),
            out@ == chars@.take(i as int),
    {
        out.push(chars[i]);
        assert(chars@.take(i as int).push(chars@[i as int]) =~= chars@.take(i + 1));
    }
    assert(chars@.take(n as int) =~= chars@);
    out
}

/// Decide whether two strings are the same.
pub fn same_text(a: &str, b: &str) -> (res: bool)
    ensures
        res == (a@ == b@),
{
    let x = a.to_owned();
    let y = b.to_owned();
    x == y
}

/// Join two strings.
pub fn join(a: &str, b: &str) -> (res: String)
    ensures
        res@ == a@ + b@,
{
    let mut out = a.to_owned();
    out.append(b);
    out
}

/// Find the first place where `c` stands, or `None` if there is no `c`.
pub fn find_first(chars: &[char], c: char) -> (res: Option<usize>)
    ensures
        res matches Some(i) ==> first_at(chars@, c, i as int),
        res is None <==> !holds(chars@, c),
{
    let n = chars.len();
    for i in 0..n
        invariant
            n == chars@.len(),
            forall|j: int| 0 <= j < i ==> chars@[j] != c,
    {
        if chars[i] == c {
            return Some(i);
        }
    }
    None
}

/// Copy the characters from `from` up to, not including, `to`.
pub fn slice_of(chars: &[char], from: usize, to: usize) -> (res: Vec<char>)
    requires
        from <= to <= chars@.len(),
    ensures
        res@ == chars@.subrange(from as int, to as int),
{
    let mut out: Vec<char> = Vec::new();
    for i in from..to
        invariant
            to <= chars@.len(),
            from <= i,
            out@ == chars@.subrange(from as int, i as int),
    {
        out.push(chars[i]);
        assert(chars@.subrange(from as int, i as int).push(chars@[i as int]) =~= chars@.subrange(
            from as int,
            i + 1,
        ));
    }
    out
}

/// Split at the first `c`.
pub fn split_once(chars: &[char], c: char) -> (res: Option<(Vec<char>, Vec<char>)>)
    ensures
        res is Some <==> split_at_first(chars@, c) is Some,
        res matches Some((left, right)) ==> split_at_first(chars@, c) == Some((left@, right@)),
{
    let n = chars.len();
    match find_first(chars, c) {
        Some(i) => {
            proof {
                lemma_split_at_first(chars@, c, i as int);
                assert(chars@.subrange(0, i as int) =~= chars@.take(i as int));
                assert(chars@.subrange(i + 1, chars@.len() as int) =~= chars@.skip(i + 1));
            }
            Some((slice_of(chars, 0, i), slice_of(chars, i + 1, n)))
        },
        None => None,
    }
}

/// Take `prefix` off the front of `chars`.
pub fn strip_prefix(chars: &[char], prefix: &str) -> (res: Option<Vec<char>>)
    ensures
        res is Some <==> after_prefix(chars@, prefix@) is Some,
        res matches Some(rest) ==> after_prefix(chars@, prefix@) == Some(rest@),
{
    let p = chars_of(prefix);
    if p.len() > chars.len() {
        return None;
    }
    let n = p.len();
    for i in 0..n
        invariant
            n == p@.len(),
            n <= chars@.len(),
            p@ == prefix@,
            forall|j: int| 0 <= j < i ==> chars@[j] == p@[j],
    {
        if chars[i] != p[i] {
            assert(chars@.take(n as int)[i as int] != p@[i as int]);
            return None;
        }
    }
    assert(chars@.take(n as int) =~= p@);
    assert(chars@.subrange(n as int, chars@.len() as int) =~= chars@.skip(n as int));
    Some(slice_of(chars, n, chars.len()))
}

/// A split is at the first `c`: the two parts with `c` between them are the text, and no `c` stands
/// in the first part. There is a split unless the text holds no `c`.
pub proof fn law_split_is_at_first(s: Seq<char>, c: char)
    ensures
        match split_at_first(s, c) {
            Some((left, right)) => s == left.push(c) + right && !left.contains(c),
            None => !s.contains(c),
        },
{
    if holds(s, c) {
        lemma_first_exists(s, c);
        let i = choose|i: int| first_at(s, c, i);
        lemma_split_at_first(s, c, i);
        assert(s.take(i).push(c) + s.skip(i + 1) =~= s);
        assert forall|j: int| 0 <= j < s.take(i).len() implies s.take(i)[j] != c by {
            assert(s.take(i)[j] == s[j]);
        }
    }
}

/// What follows a prefix is what has to be put behind it to get the text back. There is nothing
/// else that follows it, and nothing at all if no text behind the prefix makes up `s`.
pub proof fn law_prefix_and_rest_are_the_text(s: Seq<char>, prefix: Seq<char>, rest: Seq<char>)
    ensures
        after_prefix(s, prefix) == Some(rest) <==> s == prefix + rest,
{
    if after_prefix(s, prefix) == Some(rest) {
        assert(s.take(prefix.len() as int) + s.skip(prefix.len() as int) =~= s);
    }
    if s == prefix + rest {
        lemma_after_prefix(prefix, rest);
    }
}

/// A list of strings is seen string by string, in its order.
pub proof fn law_texts_are_in_order(list: Seq<String>)
    ensures
        texts(list).len() == list.len(),
        forall|i: int| 0 <= i < list.len() ==> #[trigger] texts(list)[i] == list[i]@,
{
}

/// A text holds a character that stands in it, and the first place of the character is the one
/// before which it does not stand.
pub proof fn law_first_place_has_none_before_it(s: Seq<char>, c: char, i: int)
    ensures
        holds(s, c) <==> s.contains(c),
        0 <= i < s.len() ==> (first_at(s, c, i) <==> s[i] == c && !s.take(i).contains(c)),
{
    if 0 <= i < s.len() {
        if first_at(s, c, i) {
            assert forall|j: int| 0 <= j < i implies s.take(i)[j] != c by {
                assert(s.take(i)[j] == s[j]);
            }
        }
        if s[i] == c && !s.take(i).contains(c) {
            assert forall|j: int| 0 <= j < i implies s[j] != c by {
                assert(s.take(i)[j] == s[j]);
                assert(s.take(i).contains(s.take(i)[j]));
            }
        }
    }
}

} // verus!

//! Where telemetry and crash reports are sent, and by whom.

use crate::text::{chars_of, join, lossy, lossy_text, slice_of, text_of};
use vstd::prelude::*;

verus! {

/// The text without the slashes at its end.
pub open spec fn without_trailing_slashes(s: Seq<char>) -> Seq<char>
    decreases s.len(),
{
    if s.len() > 0 && s.last() == '/' {
        without_trailing_slashes(s.drop_last())
    } else {
        s
    }
}

/// Add a path to the base endpoint URL.
///
/// The symbols server gives a base URL. Paths like `/v1/traces` or `/v1/metrics` still need to be
/// appended for the individual services.
pub fn build_endpoint(base_url: &str, path: &str) -> (res: String)
    ensures
        res@ == without_trailing_slashes(base_url@) + path@,
{
    let chars = chars_of(base_url);
    let mut n = chars.len();
    assert(chars@.take(n as int) =~= chars@);
    while n > 0 && chars[n - 1] == '/'
        invariant
            n <= chars@.len(),
            chars@ == base_url@,
            without_trailing_slashes(chars@.take(n as int)) == without_trailing_slashes(base_url@),
        decreases n,
    {
        assert(chars@.take(n as int).drop_last() =~= chars@.take(n - 1));
        n = n - 1;
    }
    assert(chars@.subrange(0, n as int) =~= chars@.take(n as int));
    let base = text_of(slice_of(chars.as_slice(), 0, n).as_slice());
    join(base.as_str(), path)
}

/// `n` is the place of the first NUL.
pub open spec fn is_end(buf: Seq<u8>, n: int) -> bool {
    &&& 0 <= n < buf.len()
    &&& buf[n] == 0
    &&& forall|i: int| 0 <= i < n ==> buf[i] != 0
}

/// Read the name of the host from a buffer in which it is followed by a NUL, or `None` if there is
/// no NUL.
pub fn hostname(buf: &[u8]) -> (res: Option<String>)
    ensures
        res is Some <==> (exists|i: int| 0 <= i < buf@.len() && buf@[i] == 0),
        res matches Some(name) ==> exists|n: int| #[trigger]
            is_end(buf@, n) && name@ == lossy_text(buf@.take(n)),
{
    let len = buf.len();
    for n in 0..len
        invariant
            len == buf@.len(),
            forall|i: int| 0 <= i < n ==> buf@[i] != 0,
    {
        if buf[n] == 0 {
            let bytes = crate::paths::bytes_between(buf, 0, n);
            assert(buf@.subrange(0, n as int) =~= buf@.take(n as int));
            assert(is_end(buf@, n as int));
            return Some(lossy(bytes.as_slice()));
        }
    }
    None
}

/// The value of an environment variable. If it is not text, the text says so.
#[derive(Debug)]
pub enum Variable {
    Present(String),
    NotPresent,
    NotUnicode(String),
}

/// Choose where crash reports are sent: what the environment says comes before what was built in.
/// A variable that is not text is an error.
pub fn choose_dsn(variable: Variable, built_in: Option<String>) -> (res: Result<
    Option<String>,
    String,
>)
    ensures
        res is Err <==> variable is NotUnicode,
        variable matches Variable::Present(dsn) ==> res == Ok::<Option<String>, String>(Some(dsn)),
        variable is NotPresent ==> res == Ok::<Option<String>, String>(built_in),
        variable matches Variable::NotUnicode(msg) ==> res == Err::<Option<String>, String>(msg),
{
    match variable {
        Variable::Present(dsn) => Ok(Some(dsn)),
        Variable::NotPresent => Ok(built_in),
        Variable::NotUnicode(msg) => Err(msg),
    }
}

/// However many slashes the base URL ends with, the endpoint is the same.
pub proof fn law_trailing_slashes_do_not_matter(base_url: Seq<char>)
    ensures
        without_trailing_slashes(base_url.push('/')) == without_trailing_slashes(base_url),
        without_trailing_slashes(base_url).len() > 0 ==> without_trailing_slashes(base_url).last()
            != '/',
        without_trailing_slashes(base_url).is_prefix_of(base_url),
    decreases base_url.len(),
{
    assert(base_url.push('/').drop_last() =~= base_url);
    if base_url.len() > 0 && base_url.last() == '/' {
        law_trailing_slashes_do_not_matter(base_url.drop_last());
        let short = without_trailing_slashes(base_url);
        assert(short =~= base_url.drop_last().subrange(0, short.len() as int));
        assert(short =~= base_url.subrange(0, short.len() as int));
    } else {
        assert(base_url =~= base_url.subrange(0, base_url.len() as int));
    }
}

/// Only slashes at the end are dropped: a base URL that does not end in a slash stays as it is.
pub proof fn law_nothing_but_trailing_slashes_is_dropped(base_url: Seq<char>)
    ensures
        base_url.len() == 0 || base_url.last() != '/' ==> without_trailing_slashes(base_url)
            == base_url,
        forall|i: int|
            without_trailing_slashes(base_url).len() <= i < base_url.len() ==> #[trigger] base_url[i]
                == '/',
    decreases base_url.len(),
{
    if base_url.len() > 0 && base_url.last() == '/' {
        let shorter = base_url.drop_last();
        law_nothing_but_trailing_slashes_is_dropped(shorter);
        assert forall|i: int|
            without_trailing_slashes(base_url).len() <= i < base_url.len() implies #[trigger]
                base_url[i] == '/' by {
            if i < shorter.len() {
                assert(shorter[i] == base_url[i]);
            }
        }
    }
}

/// The name of a host ends before the first NUL, and nowhere else.
pub proof fn law_name_ends_at_first_nul(name: Seq<u8>, rest: Seq<u8>, n: int)
    requires
        !name.contains(0),
    ensures
        is_end(name + seq![0u8] + rest, n) <==> n == name.len(),
{
    let buf = name + seq![0u8] + rest;
    assert(buf[name.len() as int] == 0);
    assert forall|i: int| 0 <= i < name.len() implies buf[i] != 0 by {
        assert(buf[i] == name[i]);
        assert(name.contains(name[i]));
    }
}

} // verus!

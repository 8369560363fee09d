//! URLs, split where the upload protocol looks at them.

use crate::text::{chars_of, same_text, split_at_first};
use vstd::prelude::*;
use vstd::utf8::*;

verus! {

/// A URL in four texts. `before_path`, `path` and `after_path` stand side by side in the
/// serialization; `scheme` is what comes before the first colon.
pub struct UrlParts {
    pub scheme: Seq<char>,
    pub before_path: Seq<char>,
    pub path: Seq<char>,
    pub after_path: Seq<char>,
}

impl UrlParts {
    /// The serialization.
    pub open spec fn text(self) -> Seq<char> {
        self.before_path + self.path + self.after_path
    }

    /// Whether the scheme is `http` or `https`.
    pub open spec fn is_web(self) -> bool {
        self.scheme == "http"@ || self.scheme == "https"@
    }

    /// Whether the path ends with a slash.
    pub open spec fn has_trailing_slash(self) -> bool {
        self.path.len() > 0 && self.path.last() == '/'
    }

    /// The same URL with a slash at the end of its path.
    pub open spec fn with_trailing_slash(self) -> UrlParts {
        if self.has_trailing_slash() {
            self
        } else {
            UrlParts { path: self.path.push('/'), ..self }
        }
    }

    /// The part of the serialization in front of the last position that the `url` crate keeps as a
    /// 32-bit number: where the fragment starts, or where the path ends if there is none.
    pub open spec fn indexed(self) -> Seq<char> {
        match split_at_first(self.after_path, '#') {
            Some((query, _)) => self.before_path + self.path + query,
            None => self.before_path + self.path,
        }
    }

    /// Whether all positions still fit in 32 bits when the path gets one slash longer.
    pub open spec fn has_room(self) -> bool {
        encode_utf8(self.indexed()).len() < u32::MAX
    }

    /// Whether relative references can be resolved below the path of this URL.
    pub open spec fn is_base(self) -> bool {
        self.is_web() && self.has_trailing_slash()
    }

    /// The URL below this one's path, without query and fragment.
    pub open spec fn below(self, reference: Seq<char>) -> UrlParts {
        UrlParts { path: self.path + reference, after_path: Seq::empty(), ..self }
    }
}

/// A host name of labels with letters `a-z` only, with a dot between two labels.
pub open spec fn is_plain_host(host: Seq<char>) -> bool {
    &&& host.len() > 0
    &&& host[0] != '.'
    &&& host.last() != '.'
    &&& forall|i: int| 0 <= i < host.len() ==> host[i] == '.' || ('a' <= host[i] && host[i] <= 'z')
    &&& forall|i: int|
        0 <= i < host.len() - 1 ==> host[i] != '.' || #[trigger] host[i + 1] != '.'
}

/// The root of a host: nothing but the scheme, the host and the path `/`.
pub open spec fn root_of(scheme: Seq<char>, host: Seq<char>) -> UrlParts {
    UrlParts {
        scheme,
        before_path: scheme + "://"@ + host,
        path: "/"@,
        after_path: Seq::empty(),
    }
}

/// Whether `parts` is the root of a plain host with the scheme `http` or `https`, and `text` is
/// that root written out.
pub open spec fn roots_to(text: Seq<char>, parts: UrlParts) -> bool {
    exists|host: Seq<char>|
        is_plain_host(host) && parts.is_web() && parts == #[trigger] root_of(parts.scheme, host)
            && text == parts.text()
}

/// Whether `text` is such a root.
pub open spec fn is_root(text: Seq<char>) -> bool {
    exists|parts: UrlParts| roots_to(text, parts)
}

/// A relative reference that starts with a letter `a-z` and holds letters `a-z`, digits,
/// underscores and slashes only.
pub open spec fn is_plain_reference(reference: Seq<char>) -> bool {
    &&& reference.len() > 0
    &&& 'a' <= reference[0] && reference[0] <= 'z'
    &&& forall|i: int| 0 <= i < reference.len() ==> is_reference_char(reference[i])
}

/// A character of a plain reference.
pub open spec fn is_reference_char(c: char) -> bool {
    ('a' <= c && c <= 'z') || ('0' <= c && c <= '9') || c == '_' || c == '/'
}

/// Whether a text is not too long for the parser of the `url` crate, which counts characters in
/// 32 bits with a sign.
pub open spec fn is_countable(text: Seq<char>) -> bool {
    text.len() <= i32::MAX
}

/// The URL type of the `url` crate.
#[verifier::external_type_specification]
#[verifier::external_body]
pub struct ExUrl(url::Url);

/// The parts of a URL of the `url` crate: its scheme, and its serialization up to its path, its
/// path, and what follows its path.
pub uninterp spec fn url_parts(url: url::Url) -> UrlParts;

/// What `url::Url::parse` makes of a text: the parts of the URL, or the message of the error.
pub uninterp spec fn parsed_url(text: Seq<char>) -> Result<UrlParts, Seq<char>>;

/// What `url::Url::join` makes of a reference, resolved against a URL with the given parts: the
/// parts of the URL, or the message of the error.
pub uninterp spec fn joined_url(base: UrlParts, reference: Seq<char>) -> Result<
    UrlParts,
    Seq<char>,
>;

/// The parts of a URL, or the message of an error.
pub open spec fn held(res: Result<url::Url, String>) -> Result<UrlParts, Seq<char>> {
    match res {
        Ok(u) => Ok(url_parts(u)),
        Err(e) => Err(e@),
    }
}

/// `url::Url::as_str` gives the serialization, which is made of the parts.
pub assume_specification[ url::Url::as_str ](u: &url::Url) -> (res: &str)
    ensures
        res@ == url_parts(*u).text(),
;

/// `url::Url::scheme` gives the scheme, without the colon.
pub assume_specification[ url::Url::scheme ](u: &url::Url) -> (res: &str)
    ensures
        res@ == url_parts(*u).scheme,
;

/// `url::Url::path` gives the path.
pub assume_specification[ url::Url::path ](u: &url::Url) -> (res: &str)
    ensures
        res@ == url_parts(*u).path,
;

/// The clone of a `url::Url` has the same parts.
pub assume_specification[ <url::Url as Clone>::clone ](u: &url::Url) -> (res: url::Url)
    ensures
        url_parts(res) == url_parts(*u),
;

/// Calls `url::Url::parse`.
///
/// The result is a function of the text. The root of a plain host, written out, is its own
/// serialization. Which other texts are URLs is not said.
#[verifier::external_body]
fn parse_url(text: &str) -> (res: Result<url::Url, String>)
    requires
        is_countable(text@),
    ensures
        held(res) == parsed_url(text@),
        is_root(text@) ==> held(res) is Ok && roots_to(text@, held(res)->Ok_0),
{
    url::Url::parse(text).map_err(|e| e.to_string())
}

/// Calls `url::Url::path_segments_mut` and pushes an empty segment.
///
/// On a URL with the scheme `http` or `https`, if its path does not end with a slash, that adds a
/// slash to the path and changes nothing else.
#[verifier::external_body]
fn push_empty_segment(u: &mut url::Url)
    requires
        url_parts(*old(u)).is_web(),
        !url_parts(*old(u)).has_trailing_slash(),
        url_parts(*old(u)).has_room(),
    ensures
        url_parts(*final(u)) == url_parts(*old(u)).with_trailing_slash(),
{
    u.path_segments_mut().unwrap().push("");
}

/// Calls `url::Url::join`.
///
/// The result is a function of the parts of the URL and of the reference. A plain reference,
/// resolved against a URL with the scheme `http` or `https` and a slash at the end of its path, is
/// appended to that path, and query and fragment of the base are dropped. What becomes of other
/// references is not said.
#[verifier::external_body]
fn join_url(base: &url::Url, reference: &str) -> (res: Result<url::Url, String>)
    requires
        is_plain_reference(reference@) || is_countable(reference@),
    ensures
        held(res) == joined_url(url_parts(*base), reference@),
        url_parts(*base).is_base() && is_plain_reference(reference@) ==> held(res) is Ok && held(
            res,
        )->Ok_0 == url_parts(*base).below(reference@),
{
    base.join(reference).map_err(|e| e.to_string())
}

/// An absolute URL.
#[derive(Debug)]
pub struct AbsoluteUrl {
    inner: url::Url,
}

impl View for AbsoluteUrl {
    type V = UrlParts;

    closed spec fn view(&self) -> UrlParts {
        url_parts(self.inner)
    }
}

/// The parts of a URL that was found, or the message of the error.
pub open spec fn found(res: Result<AbsoluteUrl, String>) -> Result<UrlParts, Seq<char>> {
    match res {
        Ok(u) => Ok(u@),
        Err(e) => Err(e@),
    }
}

impl AbsoluteUrl {
    /// The URL that a value of the `url` crate stands for.
    pub fn new(inner: url::Url) -> (res: AbsoluteUrl)
        ensures
            res@ == url_parts(inner),
    {
        AbsoluteUrl { inner }
    }

    /// This URL as a value of the `url` crate.
    pub fn into_inner(self) -> (res: url::Url)
        ensures
            url_parts(res) == self@,
    {
        self.inner
    }

    /// Parse an absolute URL from a string.
    pub fn parse(text: &str) -> (res: Result<AbsoluteUrl, String>)
        requires
            is_countable(text@),
        ensures
            found(res) == parsed_url(text@),
            is_root(text@) ==> (res matches Ok(u) && roots_to(text@, u@)),
    {
        match parse_url(text) {
            Ok(inner) => Ok(AbsoluteUrl { inner }),
            Err(e) => Err(e),
        }
    }

    /// The serialization of this URL.
    pub fn as_str(&self) -> (res: &str)
        ensures
            res@ == self@.text(),
    {
        self.inner.as_str()
    }

    /// The scheme, without the colon.
    pub fn scheme(&self) -> (res: &str)
        ensures
            res@ == self@.scheme,
    {
        self.inner.scheme()
    }

    /// The path.
    pub fn path(&self) -> (res: &str)
        ensures
            res@ == self@.path,
    {
        self.inner.path()
    }

    /// Decide whether the scheme is `http` or `https`.
    pub fn is_web(&self) -> (res: bool)
        ensures
            res == self@.is_web(),
    {
        same_text(self.scheme(), "http") || same_text(self.scheme(), "https")
    }

    /// Decide whether the path ends with a slash.
    pub fn has_trailing_slash(&self) -> (res: bool)
        ensures
            res == self@.has_trailing_slash(),
    {
        let chars = chars_of(self.path());
        chars.len() > 0 && chars[chars.len() - 1] == '/'
    }

    /// Add a slash to the end of the path of a web URL, unless there is one.
    pub fn with_trailing_slash(self) -> (res: AbsoluteUrl)
        requires
            self@.is_web(),
            !self@.has_trailing_slash() ==> self@.has_room(),
        ensures
            res@ == self@.with_trailing_slash(),
    {
        if self.has_trailing_slash() {
            return self;
        }
        let mut inner = self.inner;
        push_empty_segment(&mut inner);
        AbsoluteUrl { inner }
    }

    /// Resolve a reference against this URL.
    pub fn join(&self, reference: &str) -> (res: Result<AbsoluteUrl, String>)
        requires
            is_plain_reference(reference@) || is_countable(reference@),
        ensures
            found(res) == joined_url(self@, reference@),
            self@.is_base() && is_plain_reference(reference@) ==> (res matches Ok(u) && u@
                == self@.below(reference@)),
    {
        match join_url(&self.inner, reference) {
            Ok(inner) => Ok(AbsoluteUrl { inner }),
            Err(e) => Err(e),
        }
    }
}

impl Clone for AbsoluteUrl {
    fn clone(&self) -> (res: Self)
        ensures
            res@ == self@,
    {
        AbsoluteUrl { inner: self.inner.clone() }
    }
}

/// A URL reads as what stands before its path, its path, and what stands behind it.
pub proof fn law_url_is_made_of_its_parts(url: UrlParts)
    ensures
        url.text().len() == url.before_path.len() + url.path.len() + url.after_path.len(),
        url.text() == url.before_path + (url.path + url.after_path),
        url.is_web() <==> url.scheme == "http"@ || url.scheme == "https"@,
        url.has_trailing_slash() <==> exists|rest: Seq<char>| url.path == #[trigger] rest.push('/'),
        url.is_base() <==> url.is_web() && url.has_trailing_slash(),
{
    assert(url.text() =~= url.before_path + (url.path + url.after_path));
    if url.has_trailing_slash() {
        assert(url.path =~= url.path.drop_last().push('/'));
    }
}

/// A slash is added to the end of a path that does not end in one. Nothing else is changed, so a
/// second slash is never added.
pub proof fn law_slash_is_added_once(url: UrlParts)
    ensures
        url.with_trailing_slash().path == if url.path.len() > 0 && url.path.last() == '/' {
            url.path
        } else {
            url.path.push('/')
        },
        url.with_trailing_slash().scheme == url.scheme,
        url.with_trailing_slash().before_path == url.before_path,
        url.with_trailing_slash().after_path == url.after_path,
        url.with_trailing_slash().with_trailing_slash() == url.with_trailing_slash(),
{
}

/// A URL below another one reads as that one up to the end of its path, and then the reference.
pub proof fn law_reference_stands_behind_path(url: UrlParts, reference: Seq<char>)
    ensures
        url.below(reference).text() == url.before_path + url.path + reference,
        url.below(reference).path == url.path + reference,
        url.below(reference).scheme == url.scheme,
        url.below(reference).before_path == url.before_path,
        url.below(reference).after_path.len() == 0,
{
    assert(url.below(reference).text() =~= url.before_path + url.path + reference);
}

/// The root of a host reads as the scheme, `://`, the host and a slash.
pub proof fn law_root_is_written_out(scheme: Seq<char>, host: Seq<char>)
    ensures
        root_of(scheme, host).text() == scheme + "://"@ + host + "/"@,
        root_of(scheme, host).scheme == scheme,
        root_of(scheme, host).path == "/"@,
        root_of(scheme, host).has_trailing_slash(),
{
    reveal_strlit("/");
    assert(root_of(scheme, host).text() =~= scheme + "://"@ + host + "/"@);
}

/// What is found is the URL or the message itself.
pub proof fn law_found_url_is_seen_as_it_is(u: AbsoluteUrl, e: String)
    ensures
        found(Ok(u)) == Ok::<UrlParts, Seq<char>>(u@),
        found(Err(e)) == Err::<UrlParts, Seq<char>>(e@),
{
}

} // verus!

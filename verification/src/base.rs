//! Common functionality of the clients for both versions of the upload API.

use crate::error::{Error, ErrorView};
use crate::urls::{is_plain_reference, AbsoluteUrl, UrlParts};
use vstd::prelude::*;

verus! {

/// The header that carries the authentication token.
pub const AUTH_HEADER: &'static str = "auth-token";

/// Where ZIP archives are uploaded to, below the base URL.
pub const UPLOAD_V1: &'static str = "upload/";

/// Where uploads of single files are requested, below the base URL.
pub const UPLOAD_V2: &'static str = "upload/v2/";

/// Where information about the authentication token is available, below the base URL.
pub const AUTH_INFO: &'static str = "upload/auth_info/";

/// What the server tells about the authentication token.
#[derive(Debug)]
pub struct AuthInfo {
    pub email: String,
    pub try_symbols: bool,
    pub token_expires_at: u64,
    pub upload_api_version: u32,
}

impl Clone for AuthInfo {
    fn clone(&self) -> (res: Self)
        ensures
            res == *self,
    {
        AuthInfo {
            email: self.email.clone(),
            try_symbols: self.try_symbols,
            token_expires_at: self.token_expires_at,
            upload_api_version: self.upload_api_version,
        }
    }
}

/// HTTP methods of requests to the symbols server.
#[derive(Clone, Copy, Debug, PartialEq, Eq, Structural)]
pub enum Method {
    Get,
    Post,
}

/// The head of an authenticated request.
pub struct Request {
    pub method: Method,
    pub url: AbsoluteUrl,
    pub header: String,
    pub token: String,
}

/// The base client with common functionality for both versions of the upload API.
pub struct Client {
    base_url: AbsoluteUrl,
    auth_token: String,
}

/// The base URL and the authentication token of a client.
pub struct ClientView {
    pub base_url: UrlParts,
    pub auth_token: Seq<char>,
}

impl View for Client {
    type V = ClientView;

    closed spec fn view(&self) -> ClientView {
        ClientView { base_url: self.base_url@, auth_token: self.auth_token@ }
    }
}

impl Client {
    /// References can be resolved below the base URL.
    #[verifier::type_invariant]
    spec fn has_base(self) -> bool {
        self.base_url@.is_base()
    }

    pub fn new(base_url: AbsoluteUrl, auth_token: String) -> (res: Self)
        requires
            base_url@.is_base(),
        ensures
            res@ == (ClientView { base_url: base_url@, auth_token: auth_token@ }),
    {
        Client { base_url, auth_token }
    }

    /// The head of an authenticated request to the symbols server.
    ///
    /// The base URL is validated when the client is built, and `path` is a fixed text of this
    /// library, so the URL of the request always exists.
    pub fn request(&self, method: Method, path: &str) -> (res: Request)
        requires
            is_plain_reference(path@),
        ensures
            res.method == method,
            res.url@ == self@.base_url.below(path@),
            res.url@.text() == self@.base_url.before_path + self@.base_url.path + path@,
            res.header@ == AUTH_HEADER@,
            res.header@ == "auth-token"@,
            res.token@ == self@.auth_token,
            self@.base_url.is_base(),
    {
        proof {
            use_type_invariant(self);
        }
        let url = self.base_url.join(path).unwrap();
        assert(url@.text() =~= self@.base_url.before_path + self@.base_url.path + path@);
        Request { method, url, header: AUTH_HEADER.to_owned(), token: self.auth_token.clone() }
    }

    /// The head of the request for information about the authentication token.
    pub fn auth_info_request(&self) -> (res: Request)
        ensures
            res.method == Method::Post,
            res.url@ == self@.base_url.below(AUTH_INFO@),
            res.url@.text() == self@.base_url.before_path + self@.base_url.path
                + "upload/auth_info/"@,
            res.header@ == AUTH_HEADER@,
            res.token@ == self@.auth_token,
    {
        proof {
            lemma_paths_are_plain();
        }
        self.request(Method::Post, AUTH_INFO)
    }
}

impl Clone for Client {
    fn clone(&self) -> (res: Self)
        ensures
            res@ == self@,
    {
        proof {
            use_type_invariant(self);
        }
        Client { base_url: self.base_url.clone(), auth_token: self.auth_token.clone() }
    }
}

/// The paths of this library can be resolved below every base URL.
pub proof fn lemma_paths_are_plain()
    ensures
        is_plain_reference(UPLOAD_V1@),
        is_plain_reference(UPLOAD_V2@),
        is_plain_reference(AUTH_INFO@),
{
    reveal_strlit("upload/");
    reveal_strlit("upload/v2/");
    reveal_strlit("upload/auth_info/");
}

/// How requests to the symbols server are repeated.
#[derive(Debug)]
pub struct Retry {
    pub retries: usize,
    pub delay_seconds: u64,
    pub max_connections: Option<u32>,
}

/// A configurable builder for a [`Retry`].
#[derive(Debug)]
pub struct RetryBuilder {
    pub retries: usize,
    pub delay_seconds: u64,
    pub max_connections: Option<u32>,
}

impl Retry {
    pub fn builder() -> (res: RetryBuilder)
        ensures
            res == (RetryBuilder { retries: 4, delay_seconds: 2, max_connections: None }),
    {
        RetryBuilder { retries: 4, delay_seconds: 2, max_connections: None }
    }

    /// The state before the first request.
    pub fn start(&self) -> (res: Attempts)
        ensures
            res.remaining_retries == self.retries,
    {
        Attempts { remaining_retries: self.retries }
    }
}

impl RetryBuilder {
    pub fn build(self) -> (res: Retry)
        ensures
            res == (Retry {
                retries: self.retries,
                delay_seconds: self.delay_seconds,
                max_connections: self.max_connections,
            }),
    {
        Retry {
            retries: self.retries,
            delay_seconds: self.delay_seconds,
            max_connections: self.max_connections,
        }
    }

    pub fn retries(self, retries: usize) -> (res: Self)
        ensures
            res == (RetryBuilder { retries, ..self }),
    {
        RetryBuilder { retries, ..self }
    }

    pub fn delay_seconds(self, delay_seconds: u64) -> (res: Self)
        ensures
            res == (RetryBuilder { delay_seconds, ..self }),
    {
        RetryBuilder { delay_seconds, ..self }
    }

    pub fn max_connections(self, max_connections: u32) -> (res: Self)
        ensures
            res == (RetryBuilder { max_connections: Some(max_connections), ..self }),
    {
        RetryBuilder { max_connections: Some(max_connections), ..self }
    }
}

/// How the body of a response with a 4xx status says what was wrong.
#[derive(Debug)]
pub struct ServerError {
    pub error: String,
}

impl ServerError {
    /// The error for a response with the given status.
    pub fn into_error(self, status: u16) -> (res: Error)
        ensures
            res@ == (ErrorView::SymbolsServer4xx { status, msg: self.error@ }),
    {
        Error::SymbolsServer4xx { status, msg: self.error }
    }
}

/// What is to be done with a response of the symbols server.
#[derive(Clone, Copy, Debug, PartialEq, Eq, Structural)]
pub enum Step {
    /// Wait and send the request again.
    Retry,
    /// Give up with the error that the HTTP client has for the status.
    Reject,
    /// Read the error message in the body, and give up with it.
    ReadServerError,
    /// Read the body: the request was successful.
    Accept,
}

/// Statuses after which a request is worth repeating.
pub open spec fn is_retriable(status: u16) -> bool {
    status == 429 || status == 502 || status == 503 || status == 504
}

/// What is to be done with a response, while so many retries remain.
pub open spec fn step_for(remaining: nat, status: u16) -> Step {
    if is_retriable(status) {
        if remaining == 0 {
            Step::Reject
        } else {
            Step::Retry
        }
    } else if 400 <= status < 500 {
        Step::ReadServerError
    } else if 500 <= status < 600 {
        Step::Reject
    } else {
        Step::Accept
    }
}

/// The state of a request that may be repeated.
#[derive(Debug)]
pub struct Attempts {
    pub remaining_retries: usize,
}

impl Attempts {
    /// Decide what to do with a response of the given status.
    pub fn next(&mut self, status: u16) -> (res: Step)
        ensures
            res == step_for(old(self).remaining_retries as nat, status),
            final(self).remaining_retries == (if res == Step::Retry {
                old(self).remaining_retries - 1
            } else {
                old(self).remaining_retries as int
            }),
    {
        if status == 429 || status == 502 || status == 503 || status == 504 {
            if self.remaining_retries == 0 {
                return Step::Reject;
            }
            self.remaining_retries = self.remaining_retries - 1;
            return Step::Retry;
        }
        if 400 <= status && status < 500 {
            // For 400s, the symbols server returns an error message.
            return Step::ReadServerError;
        }
        if 500 <= status && status < 600 {
            return Step::Reject;
        }
        Step::Accept
    }
}

/// The number of the last request, counted from zero, when request number `i` is about to be
/// sent, so many retries remain and `replies` gives the status of the response to each request.
pub open spec fn last_request(remaining: nat, replies: spec_fn(nat) -> u16, i: nat) -> nat
    decreases remaining,
{
    if step_for(remaining, replies(i)) == Step::Retry {
        last_request((remaining - 1) as nat, replies, i + 1)
    } else {
        i
    }
}

/// What is done in the end, in the situation of `last_request`.
pub open spec fn last_step(remaining: nat, replies: spec_fn(nat) -> u16, i: nat) -> Step
    decreases remaining,
{
    if step_for(remaining, replies(i)) == Step::Retry {
        last_step((remaining - 1) as nat, replies, i + 1)
    } else {
        step_for(remaining, replies(i))
    }
}

proof fn lemma_last_request(remaining: nat, replies: spec_fn(nat) -> u16, i: nat)
    ensures
        i <= last_request(remaining, replies, i) <= i + remaining,
        forall|k: nat|
            i <= k < last_request(remaining, replies, i) ==> is_retriable(#[trigger] replies(k)),
        last_step(remaining, replies, i) == step_for(
            (i + remaining - last_request(remaining, replies, i)) as nat,
            replies(last_request(remaining, replies, i)),
        ),
        last_step(remaining, replies, i) != Step::Retry,
        is_retriable(replies(last_request(remaining, replies, i))) ==> last_request(
            remaining,
            replies,
            i,
        ) == i + remaining,
    decreases remaining,
{
    if step_for(remaining, replies(i)) == Step::Retry {
        lemma_last_request((remaining - 1) as nat, replies, i + 1);
    }
}

/// On retriable statuses a request is repeated at most the configured number of times, in
/// addition to the original request, and never after another status.
pub proof fn law_retries_are_bounded(retries: nat, replies: spec_fn(nat) -> u16)
    ensures
        last_request(retries, replies, 0) <= retries,
        forall|k: nat|
            k < last_request(retries, replies, 0) ==> is_retriable(#[trigger] replies(k)),
{
    lemma_last_request(retries, replies, 0);
}

/// If the server keeps answering with retriable statuses, the request is sent once more than
/// there are retries, and then given up. Without retries, it is sent once.
pub proof fn law_persistent_failure_is_reported(retries: nat, replies: spec_fn(nat) -> u16)
    requires
        forall|k: nat| k <= retries ==> is_retriable(#[trigger] replies(k)),
    ensures
        last_request(retries, replies, 0) == retries,
        last_step(retries, replies, 0) == Step::Reject,
{
    lemma_last_request(retries, replies, 0);
}

/// The first status that is not retriable, if it comes in time, decides alone: it ends the
/// exchange, and how many retries remain does not matter.
pub proof fn law_first_final_status_decides(retries: nat, replies: spec_fn(nat) -> u16, k: nat)
    requires
        k <= retries,
        !is_retriable(replies(k)),
        forall|j: nat| j < k ==> is_retriable(#[trigger] replies(j)),
    ensures
        last_request(retries, replies, 0) == k,
        last_step(retries, replies, 0) == step_for(0, replies(k)),
{
    lemma_last_request(retries, replies, 0);
    let last = last_request(retries, replies, 0);
    if last < k {
        assert(is_retriable(replies(last)));
    }
    if k < last {
        assert(is_retriable(replies(k)));
    }
}

/// Requests are repeated after the statuses 429, 502, 503 and 504, as long as retries remain. Any
/// other status between 400 and 499 comes with an error message, and every status from 500 to 599 is
/// an error, as is a retriable one without retries. All others are taken as success.
pub proof fn law_status_decides(remaining: nat, status: u16)
    ensures
        step_for(remaining, status) == Step::Retry <==> remaining > 0 && seq![
            429u16,
            502,
            503,
            504,
        ].contains(status),
        step_for(remaining, status) == Step::ReadServerError <==> 400 <= status <= 499 && status
            != 429,
        step_for(remaining, status) == Step::Accept <==> status < 400 || status > 599,
        step_for(remaining, status) == Step::Reject <==> (status == 429 && remaining == 0) || (500
            <= status <= 599 && !(remaining > 0 && seq![429u16, 502, 503, 504].contains(status))),
{
    let list = seq![429u16, 502, 503, 504];
    assert(list.contains(status) <==> is_retriable(status)) by {
        assert(list[0] == 429 && list[1] == 502 && list[2] == 503 && list[3] == 504);
    }
}

} // verus!

//! The client for the Mozilla Symbols Server, and how it is configured.

use crate::base::{self, AuthInfo, ClientView, Method, Request, AUTH_HEADER, AUTH_INFO};
use crate::error::{Error, ErrorView};
use crate::hex::{all_hex, is_hex};
use crate::text::chars_of;
use crate::urls::{
    is_countable, is_plain_host, is_root, root_of, roots_to, AbsoluteUrl, UrlParts,
};
use crate::v1;
use crate::v2;
use crate::version::UploadApiVersion;
use vstd::prelude::*;

verus! {

/// The symbols server that is used unless another one is named.
pub const DEFAULT_BASE_URL: &'static str = "https://symbols.mozilla.org/";

/// The default of the connect timeout.
pub const DEFAULT_CONNECT_TIMEOUT_SECONDS: u64 = 10;

/// The default of the read timeout.
pub const DEFAULT_READ_TIMEOUT_SECONDS: u64 = 600;

/// Chunk sizes are multiples of this number of bytes, 256 KiB.
pub const MIN_CHUNK_SIZE: u64 = 262_144;

/// The parts of the default base URL.
pub open spec fn default_base() -> UrlParts {
    root_of("https"@, "symbols.mozilla.org"@)
}

/// What is written in place of the authentication token.
pub const REDACTED: &'static str = "<redacted>";

/// A configurable builder for a [`Client`].
pub struct ClientBuilder {
    /// The base URL of the symbols server to upload to.
    ///
    /// This defaults to <https://symbols.mozilla.org/>.
    pub base_url: Option<AbsoluteUrl>,
    /// An authentication token with upload permissions.
    pub auth_token: String,
    /// The upload API version to use.
    ///
    /// By default, the version is automatically detected by asking the server.
    pub upload_api_version: UploadApiVersion,
    /// The connect timeout for HTTP connections.
    ///
    /// This timeout only covers establishing a TCP connection to the server, and not
    /// transferring any data. The default is 10 seconds.
    pub connect_timeout_seconds: u64,
    /// The socket read timeout for HTTP connections.
    ///
    /// This is the timeout for individual read operations on the socket. It does not establish
    /// a total timeout for reading the entire response.
    ///
    /// The default value is 600 seconds to account for the long processing times upload API v1
    /// requires to process uploaded ZIP archives.
    pub read_timeout_seconds: u64,
    /// Settings for the v1 upload API.
    pub v1: v1::Config,
    /// Settings for the v2 upload API.
    pub v2: v2::Config,
}

/// What may be shown of a builder: everything but the authentication token.
#[derive(Debug)]
pub struct RedactedBuilder {
    pub base_url: Option<AbsoluteUrl>,
    pub auth_token: String,
    pub upload_api_version: UploadApiVersion,
    pub connect_timeout_seconds: u64,
    pub read_timeout_seconds: u64,
    pub v1: v1::Config,
    pub v2: v2::Config,
}

/// The contents of a builder that may be shown.
pub struct ShownBuilder {
    pub base_url: Option<UrlParts>,
    pub auth_token: Seq<char>,
    pub upload_api_version: UploadApiVersion,
    pub connect_timeout_seconds: u64,
    pub read_timeout_seconds: u64,
    pub v1: v1::Config,
    pub v2: v2::Config,
}

/// The parts of a URL, if there is one.
pub open spec fn url_view(url: Option<AbsoluteUrl>) -> Option<UrlParts> {
    match url {
        Some(u) => Some(u@),
        None => None,
    }
}

impl View for RedactedBuilder {
    type V = ShownBuilder;

    open spec fn view(&self) -> ShownBuilder {
        ShownBuilder {
            base_url: url_view(self.base_url),
            auth_token: self.auth_token@,
            upload_api_version: self.upload_api_version,
            connect_timeout_seconds: self.connect_timeout_seconds,
            read_timeout_seconds: self.read_timeout_seconds,
            v1: self.v1,
            v2: self.v2,
        }
    }
}

/// The outcome of validating a base URL.
///
/// The URL must have an `http` or `https` scheme. A slash is added to the end of the path, if
/// there is none.
pub open spec fn validated(base_url: Option<UrlParts>) -> Result<UrlParts, ErrorView> {
    match base_url {
        Some(u) => if u.is_web() {
            Ok(u.with_trailing_slash())
        } else {
            Err(ErrorView::InvalidBaseUrlScheme(u))
        },
        None => Ok(default_base()),
    }
}

/// Whether a slash can be added to the URL, if one has to be.
pub open spec fn is_extensible(base_url: Option<UrlParts>) -> bool {
    base_url matches Some(u) ==> (u.is_web() && !u.has_trailing_slash() ==> u.has_room())
}

/// The view of a URL or of an error.
pub open spec fn url_outcome(res: Result<AbsoluteUrl, Error>) -> Result<
    UrlParts,
    ErrorView,
> {
    match res {
        Ok(u) => Ok(u@),
        Err(e) => Err(e@),
    }
}

/// The default base URL is its own serialization, and nothing else is.
proof fn lemma_default_base()
    ensures
        is_countable(DEFAULT_BASE_URL@),
        is_root(DEFAULT_BASE_URL@),
        default_base().is_base(),
        forall|parts: UrlParts|
            roots_to(DEFAULT_BASE_URL@, parts) ==> #[trigger] parts.text() == DEFAULT_BASE_URL@
                && parts == default_base(),
{
    reveal_strlit("https://symbols.mozilla.org/");
    reveal_strlit("https");
    reveal_strlit("http");
    reveal_strlit("symbols.mozilla.org");
    reveal_strlit("://");
    reveal_strlit("/");
    let host = "symbols.mozilla.org"@;
    assert(is_plain_host(host));
    assert(default_base().text() =~= DEFAULT_BASE_URL@);
    assert(default_base() == root_of(default_base().scheme, host));
    assert(roots_to(DEFAULT_BASE_URL@, default_base()));
    assert forall|parts: UrlParts| roots_to(DEFAULT_BASE_URL@, parts) implies #[trigger]
        parts.text() == DEFAULT_BASE_URL@ && parts == default_base() by {
        let h = choose|h: Seq<char>|
            is_plain_host(h) && parts.is_web() && parts == #[trigger] root_of(parts.scheme, h)
                && DEFAULT_BASE_URL@ == parts.text();
        if parts.scheme == "http"@ {
            assert(parts.text()[4] == ':');
            assert(DEFAULT_BASE_URL@[4] == 's');
        }
        assert(parts.text().len() == 8 + h.len() + 1);
        assert forall|i: int| 0 <= i < h.len() implies h[i] == host[i] by {
            assert(parts.text()[8 + i] == h[i]);
            assert(DEFAULT_BASE_URL@[8 + i] == host[i]);
        }
        assert(h =~= host);
    }
}

impl ClientBuilder {
    /// What may be shown of this builder.
    pub open spec fn shown(self) -> ShownBuilder {
        ShownBuilder {
            base_url: url_view(self.base_url),
            auth_token: REDACTED@,
            upload_api_version: self.upload_api_version,
            connect_timeout_seconds: self.connect_timeout_seconds,
            read_timeout_seconds: self.read_timeout_seconds,
            v1: self.v1,
            v2: self.v2,
        }
    }

    /// Why no client can be built, if none can. The base URL is looked at first.
    pub open spec fn objection(self) -> Option<ErrorView> {
        match validated(url_view(self.base_url)) {
            Err(e) => Some(e),
            Ok(_) => if all_hex(self.auth_token@) {
                None
            } else {
                Some(ErrorView::InvalidAuthToken)
            },
        }
    }

    /// Everything that may be shown of this builder.
    pub fn redacted(&self) -> (res: RedactedBuilder)
        ensures
            res@ == self.shown(),
            res.auth_token@ == "<redacted>"@,
            url_view(res.base_url) == url_view(self.base_url),
            res.upload_api_version == self.upload_api_version,
            res.connect_timeout_seconds == self.connect_timeout_seconds,
            res.read_timeout_seconds == self.read_timeout_seconds,
            res.v1 == self.v1,
            res.v2 == self.v2,
    {
        let base_url = match &self.base_url {
            Some(u) => Some(u.clone()),
            None => None,
        };
        RedactedBuilder {
            base_url,
            auth_token: REDACTED.to_owned(),
            upload_api_version: self.upload_api_version,
            connect_timeout_seconds: self.connect_timeout_seconds,
            read_timeout_seconds: self.read_timeout_seconds,
            v1: self.v1,
            v2: self.v2,
        }
    }

    /// Validate the configuration.
    ///
    /// The result still needs to know what the symbols server tells about the authentication
    /// token.
    pub fn build(self) -> (res: Result<PendingClient, Error>)
        requires
            is_extensible(url_view(self.base_url)),
        ensures
            res is Ok <==> self.objection() is None,
            res matches Err(e) ==> self.objection() == Some(e@),
            res matches Ok(pending) ==> pending@ == (PendingView {
                base: ClientView {
                    base_url: validated(url_view(self.base_url))->Ok_0,
                    auth_token: self.auth_token@,
                },
                upload_api_version: self.upload_api_version,
                v1: self.v1,
                v2: self.v2,
            }),
    {
        let base_url = match Self::validate_base_url(self.base_url) {
            Ok(base_url) => base_url,
            Err(e) => {
                return Err(e);
            },
        };
        let chars = chars_of(self.auth_token.as_str());
        if !is_hex(chars.as_slice()) {
            return Err(Error::InvalidAuthToken);
        }
        Ok(
            PendingClient {
                base: base::Client::new(base_url, self.auth_token),
                upload_api_version: self.upload_api_version,
                v1: self.v1,
                v2: self.v2,
            },
        )
    }

    /// Ensure that the base URL actually is an absolute URL with an http(s) scheme, and add a
    /// trailing slash to the path if it doesn't have one.
    pub fn validate_base_url(base_url: Option<AbsoluteUrl>) -> (res: Result<
        AbsoluteUrl,
        Error,
    >)
        requires
            is_extensible(url_view(base_url)),
        ensures
            url_outcome(res) == validated(url_view(base_url)),
            res matches Ok(u) ==> u@.is_base(),
    {
        match base_url {
            Some(base_url) => {
                if !base_url.is_web() {
                    return Err(Error::InvalidBaseUrlScheme(base_url));
                }
                Ok(base_url.with_trailing_slash())
            },
            None => {
                proof {
                    lemma_default_base();
                }
                let url = AbsoluteUrl::parse(DEFAULT_BASE_URL).unwrap();
                assert(url@.text() == DEFAULT_BASE_URL@);
                Ok(url)
            },
        }
    }

    /// Set the connect timeout for HTTP connections.
    pub fn connect_timeout_seconds(self, connect_timeout_seconds: u64) -> (res: Self)
        ensures
            res == (ClientBuilder { connect_timeout_seconds, ..self }),
    {
        ClientBuilder { connect_timeout_seconds, ..self }
    }

    /// Set the socket read timeout for HTTP connections.
    pub fn read_timeout_seconds(self, read_timeout_seconds: u64) -> (res: Self)
        ensures
            res == (ClientBuilder { read_timeout_seconds, ..self }),
    {
        ClientBuilder { read_timeout_seconds, ..self }
    }

    /// Set the base URL of the symbols server to upload to.
    pub fn base_url(self, base_url: AbsoluteUrl) -> (res: Self)
        ensures
            res == (ClientBuilder { base_url: Some(base_url), ..self }),
    {
        ClientBuilder { base_url: Some(base_url), ..self }
    }

    /// Set the upload API version to use.
    pub fn upload_api_version(self, upload_api_version: UploadApiVersion) -> (res: Self)
        ensures
            res == (ClientBuilder { upload_api_version, ..self }),
    {
        ClientBuilder { upload_api_version, ..self }
    }

    /// Set the maximum number of concurrent uploads using the v1 upload API.
    ///
    /// The default is 3.
    pub fn max_connections_v1(self, max_connections_v1: u32) -> (res: Self)
        requires
            max_connections_v1 != 0,
        ensures
            res == (ClientBuilder { v1: v1::Config { max_connections_v1, ..self.v1 }, ..self }),
    {
        ClientBuilder { v1: v1::Config { max_connections_v1, ..self.v1 }, ..self }
    }

    /// Set the ZIP archive size threshold in bytes.
    ///
    /// The default is 64 MiB.
    pub fn zip_size_threshold_v1(self, zip_size_threshold_v1: u64) -> (res: Self)
        ensures
            res == (ClientBuilder { v1: v1::Config { zip_size_threshold_v1, ..self.v1 }, ..self }),
    {
        ClientBuilder { v1: v1::Config { zip_size_threshold_v1, ..self.v1 }, ..self }
    }

    /// Set the number of retries for the version 1 upload API.
    ///
    /// The default is 5.
    pub fn retries_v1(self, retries_v1: usize) -> (res: Self)
        ensures
            res == (ClientBuilder { v1: v1::Config { retries_v1, ..self.v1 }, ..self }),
    {
        ClientBuilder { v1: v1::Config { retries_v1, ..self.v1 }, ..self }
    }

    /// Set the delay in seconds between retries for version 1 of the upload API.
    ///
    /// The default is 60 seconds.
    pub fn retry_delay_v1_seconds(self, retry_delay_v1_seconds: u64) -> (res: Self)
        ensures
            res == (ClientBuilder {
                v1: v1::Config { retry_delay_seconds_v1: retry_delay_v1_seconds, ..self.v1 },
                ..self
            }),
    {
        ClientBuilder {
            v1: v1::Config { retry_delay_seconds_v1: retry_delay_v1_seconds, ..self.v1 },
            ..self
        }
    }

    /// Set the number of retries for symbols server requests.
    ///
    /// The default is 2.
    pub fn retries(self, retries: usize) -> (res: Self)
        ensures
            res == (ClientBuilder { v2: v2::Config { retries, ..self.v2 }, ..self }),
    {
        ClientBuilder { v2: v2::Config { retries, ..self.v2 }, ..self }
    }

    /// Set the delay in seconds between symbols server request retries.
    ///
    /// The default is 30 seconds.
    pub fn retry_delay_seconds(self, retry_delay_seconds: u64) -> (res: Self)
        ensures
            res == (ClientBuilder { v2: v2::Config { retry_delay_seconds, ..self.v2 }, ..self }),
    {
        ClientBuilder { v2: v2::Config { retry_delay_seconds, ..self.v2 }, ..self }
    }

    /// Set the number of symbols files per request to the symbols server.
    ///
    /// The default is 128.
    pub fn batch_size(self, batch_size: usize) -> (res: Self)
        requires
            batch_size != 0,
        ensures
            res == (ClientBuilder { v2: v2::Config { batch_size, ..self.v2 }, ..self }),
    {
        ClientBuilder { v2: v2::Config { batch_size, ..self.v2 }, ..self }
    }

    /// Set the maximum number of concurrent file uploads to GCS.
    ///
    /// The default is 16.
    pub fn max_file_uploads(self, max_file_uploads: u32) -> (res: Self)
        requires
            max_file_uploads != 0,
        ensures
            res == (ClientBuilder { v2: v2::Config { max_file_uploads, ..self.v2 }, ..self }),
    {
        ClientBuilder { v2: v2::Config { max_file_uploads, ..self.v2 }, ..self }
    }

    /// Set the number of retries for individual file uploads to GCS.
    ///
    /// The default is 10.
    pub fn file_upload_retries(self, file_upload_retries: usize) -> (res: Self)
        ensures
            res == (ClientBuilder { v2: v2::Config { file_upload_retries, ..self.v2 }, ..self }),
    {
        ClientBuilder { v2: v2::Config { file_upload_retries, ..self.v2 }, ..self }
    }

    /// Set the retry delay in seconds between GCS upload request retries.
    ///
    /// The default is 1 second.
    pub fn file_upload_delay_seconds(self, file_upload_delay_seconds: u64) -> (res: Self)
        ensures
            res == (ClientBuilder {
                v2: v2::Config { file_upload_delay_seconds, ..self.v2 },
                ..self
            }),
    {
        ClientBuilder { v2: v2::Config { file_upload_delay_seconds, ..self.v2 }, ..self }
    }

    /// Set the chunk size for file uploads to GCS.
    ///
    /// The value will be rounded down to the next multiple of 256 KiB and must be positive.
    ///
    /// The default is 16 MiB.
    pub fn chunk_size(self, chunk_size: u64) -> (res: Self)
        requires
            chunk_size >= MIN_CHUNK_SIZE,
        ensures
            res == (ClientBuilder {
                v2: v2::Config { chunk_size: rounded_chunk_size(chunk_size), ..self.v2 },
                ..self
            }),
    {
        let rounded: u64 = chunk_size & !(MIN_CHUNK_SIZE - 1);
        proof {
            assert(chunk_size & !(262_143u64) == chunk_size - chunk_size % 262_144) by (bit_vector);
        }
        ClientBuilder { v2: v2::Config { chunk_size: rounded, ..self.v2 }, ..self }
    }
}

/// A chunk size, rounded down to the next multiple of the smallest one.
pub open spec fn rounded_chunk_size(chunk_size: u64) -> u64 {
    (chunk_size - chunk_size % MIN_CHUNK_SIZE) as u64
}

/// A client that does not know yet which version of the upload API to use.
pub struct PendingClient {
    base: base::Client,
    upload_api_version: UploadApiVersion,
    v1: v1::Config,
    v2: v2::Config,
}

/// What a client needs to be complete.
pub struct PendingView {
    pub base: ClientView,
    pub upload_api_version: UploadApiVersion,
    pub v1: v1::Config,
    pub v2: v2::Config,
}

impl View for PendingClient {
    type V = PendingView;

    closed spec fn view(&self) -> PendingView {
        PendingView {
            base: self.base@,
            upload_api_version: self.upload_api_version,
            v1: self.v1,
            v2: self.v2,
        }
    }
}

impl PendingView {
    /// The version of the upload API that is used if the server prefers the given one, or `None`
    /// if there is no such version. What the configuration names comes first.
    pub open spec fn version(self, preferred: u32) -> Option<UploadApiVersion> {
        match self.upload_api_version {
            UploadApiVersion::Auto => if preferred == 1 {
                Some(UploadApiVersion::V1)
            } else if preferred == 2 {
                Some(UploadApiVersion::V2)
            } else {
                None
            },
            version => Some(version),
        }
    }
}

impl PendingClient {
    /// The head of the request for information about the authentication token.
    pub fn auth_info_request(&self) -> (res: Request)
        ensures
            res.method == Method::Post,
            res.url@ == self@.base.base_url.below(AUTH_INFO@),
            res.header@ == AUTH_HEADER@,
            res.token@ == self@.base.auth_token,
    {
        self.base.auth_info_request()
    }

    /// Decide whether there is a client for the version that the server prefers.
    pub fn accepts(&self, auth_info: &AuthInfo) -> (res: bool)
        ensures
            res == (self@.version(auth_info.upload_api_version) is Some),
    {
        match self.upload_api_version {
            UploadApiVersion::Auto => auth_info.upload_api_version == 1
                || auth_info.upload_api_version == 2,
            UploadApiVersion::V1 => true,
            UploadApiVersion::V2 => true,
        }
    }

    /// Complete the client with what the symbols server tells about the authentication token.
    pub fn finish(self, auth_info: AuthInfo) -> (res: Client)
        requires
            self@.version(auth_info.upload_api_version) is Some,
        ensures
            self@.version(auth_info.upload_api_version) == Some(res.version()),
            res.info() == auth_info,
            res.inner() matches ClientInner::V1(c) ==> v1_client_of(c, self@),
            res.inner() matches ClientInner::V2(c) ==> v2_client_of(c, self@),
    {
        let use_v1 = match self.upload_api_version {
            UploadApiVersion::V1 => true,
            UploadApiVersion::V2 => false,
            UploadApiVersion::Auto => auth_info.upload_api_version == 1,
        };
        let inner = if use_v1 {
            ClientInner::V1(v1::Client::new(self.base, self.v1))
        } else {
            ClientInner::V2(v2::Client::new(self.base, self.v2))
        };
        Client { inner, auth_info }
    }
}

/// Whether a v1 client is the one that the configuration describes.
pub open spec fn v1_client_of(client: v1::Client, pending: PendingView) -> bool {
    &&& client.base@ == pending.base
    &&& client.zip_size_threshold == pending.v1.zip_size_threshold_v1
    &&& client.retry == (base::Retry {
        retries: pending.v1.retries_v1,
        delay_seconds: pending.v1.retry_delay_seconds_v1,
        max_connections: Some(pending.v1.max_connections_v1),
    })
}

/// Whether a v2 client is the one that the configuration describes.
pub open spec fn v2_client_of(client: v2::Client, pending: PendingView) -> bool {
    &&& client.base@ == pending.base
    &&& client.retry == (base::Retry {
        retries: pending.v2.retries,
        delay_seconds: pending.v2.retry_delay_seconds,
        max_connections: None,
    })
    &&& client.batch_size == pending.v2.batch_size
    &&& client.max_file_uploads == pending.v2.max_file_uploads
    &&& client.file_upload_retries == pending.v2.file_upload_retries
    &&& client.file_upload_delay_seconds == pending.v2.file_upload_delay_seconds
    &&& client.chunk_size == pending.v2.chunk_size
}

/// The client for one version of the upload API.
pub enum ClientInner {
    V1(v1::Client),
    V2(v2::Client),
}

/// The upload client for the Mozilla Symbols Server.
pub struct Client {
    inner: ClientInner,
    auth_info: AuthInfo,
}

impl Client {
    /// The client for the version of the upload API that is used.
    pub closed spec fn inner(self) -> ClientInner {
        self.inner
    }

    /// What the server told about the authentication token.
    pub closed spec fn info(self) -> AuthInfo {
        self.auth_info
    }

    /// The version of the upload API that is used.
    pub open spec fn version(self) -> UploadApiVersion {
        match self.inner() {
            ClientInner::V1(_) => UploadApiVersion::V1,
            ClientInner::V2(_) => UploadApiVersion::V2,
        }
    }

    /// Return a [`ClientBuilder`] instance with a default configuration.
    pub fn builder(auth_token: String) -> (res: ClientBuilder)
        ensures
            res == (ClientBuilder {
                base_url: None,
                auth_token,
                upload_api_version: UploadApiVersion::Auto,
                connect_timeout_seconds: DEFAULT_CONNECT_TIMEOUT_SECONDS,
                read_timeout_seconds: DEFAULT_READ_TIMEOUT_SECONDS,
                v1: v1::Config::standard(),
                v2: v2::Config::standard(),
            }),
            res.connect_timeout_seconds == 10,
            res.read_timeout_seconds == 600,
    {
        ClientBuilder {
            base_url: None,
            auth_token,
            upload_api_version: UploadApiVersion::Auto,
            connect_timeout_seconds: DEFAULT_CONNECT_TIMEOUT_SECONDS,
            read_timeout_seconds: DEFAULT_READ_TIMEOUT_SECONDS,
            v1: v1::Config::default(),
            v2: v2::Config::default(),
        }
    }

    /// The client for the version of the upload API that is used.
    pub fn versioned(&self) -> (res: &ClientInner)
        ensures
            *res == self.inner(),
    {
        &self.inner
    }

    /// The version of the upload API that is used.
    pub fn upload_api_version(&self) -> (res: UploadApiVersion)
        ensures
            res == self.version(),
    {
        match self.inner {
            ClientInner::V1(_) => UploadApiVersion::V1,
            ClientInner::V2(_) => UploadApiVersion::V2,
        }
    }

    /// What the server told about the authentication token.
    pub fn auth_info(&self) -> (res: &AuthInfo)
        ensures
            *res == self.info(),
    {
        &self.auth_info
    }

    /// Check that what is to be uploaded is a directory.
    pub fn check_directory(path: Vec<u8>, is_dir: bool) -> (res: Result<Vec<u8>, Error>)
        ensures
            res is Ok <==> is_dir,
            res matches Ok(p) ==> p@ == path@,
            res matches Err(e) ==> e@ == ErrorView::NotADirectory(path@),
    {
        if is_dir {
            Ok(path)
        } else {
            Err(Error::NotADirectory(path))
        }
    }
}

/// A base URL is accepted exactly if its scheme is `http` or `https`. Validation adds at most a slash
/// to the end of its path, and changes nothing else.
pub proof fn law_validation_adds_at_most_a_slash(base_url: UrlParts)
    ensures
        validated(Some(base_url)) is Ok <==> base_url.is_web(),
        validated(Some(base_url)) matches Err(e) ==> e == ErrorView::InvalidBaseUrlScheme(base_url),
        validated(Some(base_url)) matches Ok(url) ==> {
            &&& url.has_trailing_slash()
            &&& url.path == base_url.path || url.path == base_url.path.push('/')
            &&& url.scheme == base_url.scheme
            &&& url.before_path == base_url.before_path
            &&& url.after_path == base_url.after_path
        },
{
}

/// A base URL that was validated is not changed by validating it again.
pub proof fn law_validation_is_idempotent(base_url: Option<UrlParts>)
    requires
        validated(base_url) is Ok,
    ensures
        validated(Some(validated(base_url)->Ok_0)) == validated(base_url),
        validated(base_url)->Ok_0.is_base(),
{
    lemma_default_base();
}

/// What is shown of a builder does not depend on the authentication token.
pub proof fn law_token_is_not_shown(builder: ClientBuilder, token: String)
    ensures
        (ClientBuilder { auth_token: token, ..builder }).shown() == builder.shown(),
{
}

/// A chunk size is rounded down to a positive multiple of 256 KiB that is less than 256 KiB away.
pub proof fn law_chunk_size_is_aligned(chunk_size: u64)
    requires
        chunk_size >= MIN_CHUNK_SIZE,
    ensures
        rounded_chunk_size(chunk_size) > 0,
        rounded_chunk_size(chunk_size) % MIN_CHUNK_SIZE == 0,
        rounded_chunk_size(chunk_size) <= chunk_size,
        chunk_size - rounded_chunk_size(chunk_size) < MIN_CHUNK_SIZE,
{
}

/// A base URL is accepted if its scheme is `http` or `https`, and gets a slash at the end of its
/// path if there is none. Without a base URL, it is that of Mozilla's server.
pub proof fn law_web_urls_are_accepted(base_url: UrlParts)
    ensures
        base_url.scheme == "http"@ || base_url.scheme == "https"@ ==> validated(Some(base_url))
            == Ok::<UrlParts, ErrorView>(
            UrlParts {
                path: if base_url.path.len() > 0 && base_url.path.last() == '/' {
                    base_url.path
                } else {
                    base_url.path.push('/')
                },
                ..base_url
            },
        ),
        base_url.scheme != "http"@ && base_url.scheme != "https"@ ==> validated(Some(base_url))
            == Err::<UrlParts, ErrorView>(ErrorView::InvalidBaseUrlScheme(base_url)),
        validated(None) is Ok,
        validated(None)->Ok_0.text() == "https://symbols.mozilla.org/"@,
        validated(None)->Ok_0.scheme == "https"@,
        validated(None)->Ok_0.path == "/"@,
{
    reveal_strlit("https://symbols.mozilla.org/");
    reveal_strlit("https");
    reveal_strlit("symbols.mozilla.org");
    reveal_strlit("://");
    reveal_strlit("/");
    assert(default_base().text() =~= "https://symbols.mozilla.org/"@);
}

/// A client can be built if the base URL has the scheme `http` or `https`, or none is given, and if
/// the authentication token holds hexadecimal digits only. Otherwise the base URL is objected to, or
/// else the token.
pub proof fn law_objections(builder: ClientBuilder)
    ensures
        ({
            let is_accepted = match builder.base_url {
                Some(u) => u@.scheme == "http"@ || u@.scheme == "https"@,
                None => true,
            };
            let is_hexadecimal = forall|i: int|
                0 <= i < builder.auth_token@.len() ==> "0123456789abcdefABCDEF"@.contains(
                    #[trigger] builder.auth_token@[i],
                );
            &&& builder.objection() is None <==> is_accepted && is_hexadecimal
            &&& !is_accepted ==> builder.objection() == Some(
                ErrorView::InvalidBaseUrlScheme(builder.base_url->0@),
            )
            &&& is_accepted && !is_hexadecimal ==> builder.objection() == Some(
                ErrorView::InvalidAuthToken,
            )
        }),
{
    crate::hex::law_hex_is_digit_by_digit(builder.auth_token@);
}

/// The version that the configuration names is used, whatever the server prefers. If it names none,
/// the server decides, between the versions 1 and 2.
pub proof fn law_version_is_chosen(pending: PendingView, preferred: u32)
    ensures
        pending.upload_api_version == UploadApiVersion::V1 ==> pending.version(preferred) == Some(
            UploadApiVersion::V1,
        ),
        pending.upload_api_version == UploadApiVersion::V2 ==> pending.version(preferred) == Some(
            UploadApiVersion::V2,
        ),
        pending.upload_api_version == UploadApiVersion::Auto ==> {
            &&& pending.version(preferred) == Some(UploadApiVersion::V1) <==> preferred == 1
            &&& pending.version(preferred) == Some(UploadApiVersion::V2) <==> preferred == 2
            &&& pending.version(preferred) is None <==> preferred != 1 && preferred != 2
        },
{
}

/// A client has the base URL, the token and the settings of its configuration.
pub proof fn law_client_has_its_configuration(one: v1::Client, two: v2::Client, pending: PendingView)
    ensures
        v1_client_of(one, pending) ==> {
            &&& one.base@.base_url == pending.base.base_url
            &&& one.base@.auth_token == pending.base.auth_token
            &&& one.zip_size_threshold == pending.v1.zip_size_threshold_v1
            &&& one.retry.retries == pending.v1.retries_v1
            &&& one.retry.delay_seconds == pending.v1.retry_delay_seconds_v1
            &&& one.retry.max_connections == Some(pending.v1.max_connections_v1)
        },
        v2_client_of(two, pending) ==> {
            &&& two.base@.base_url == pending.base.base_url
            &&& two.base@.auth_token == pending.base.auth_token
            &&& two.retry.retries == pending.v2.retries
            &&& two.retry.delay_seconds == pending.v2.retry_delay_seconds
            &&& two.retry.max_connections is None
            &&& two.batch_size == pending.v2.batch_size
            &&& two.max_file_uploads == pending.v2.max_file_uploads
            &&& two.file_upload_retries == pending.v2.file_upload_retries
            &&& two.file_upload_delay_seconds == pending.v2.file_upload_delay_seconds
            &&& two.chunk_size == pending.v2.chunk_size
        },
{
}

/// The version of a client is the one that it was made for.
pub proof fn law_version_is_that_of_client(client: Client)
    ensures
        client.version() == UploadApiVersion::V1 <==> client.inner() is V1,
        client.version() == UploadApiVersion::V2 <==> client.inner() is V2,
{
}

/// A chunk size is rounded down to a whole number of 262144 bytes, and by less than that. So a chunk
/// size that is such a multiple stays as it is.
pub proof fn law_chunk_size_is_rounded_down(chunk_size: u64)
    ensures
        rounded_chunk_size(chunk_size) % 262_144 == 0,
        rounded_chunk_size(chunk_size) <= chunk_size,
        chunk_size < rounded_chunk_size(chunk_size) + 262_144,
        chunk_size % 262_144 == 0 ==> rounded_chunk_size(chunk_size) == chunk_size,
{
}

/// Everything but the token is shown as it is, and in place of the token stands a fixed text.
pub proof fn law_settings_are_shown(builder: ClientBuilder)
    ensures
        builder.shown().base_url == (match builder.base_url {
            Some(u) => Some(u@),
            None => None,
        }),
        builder.shown().auth_token == "<redacted>"@,
        builder.shown().upload_api_version == builder.upload_api_version,
        builder.shown().connect_timeout_seconds == builder.connect_timeout_seconds,
        builder.shown().read_timeout_seconds == builder.read_timeout_seconds,
        builder.shown().v1 == builder.v1,
        builder.shown().v2 == builder.v2,
{
}

/// The outcome of a validation is seen as it is.
pub proof fn law_validation_is_seen_as_it_is(u: AbsoluteUrl, e: Error)
    ensures
        url_outcome(Ok(u)) == Ok::<UrlParts, ErrorView>(u@),
        url_outcome(Err(e)) == Err::<UrlParts, ErrorView>(e@),
        url_view(Some(u)) == Some(u@),
        url_view(None) is None,
{
}

} // verus!

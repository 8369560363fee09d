//! Errors that may occur while uploading symbols.

use crate::decimal::{decimal, push_decimal};
use crate::hex::hex_digit;
use crate::text::{join, lossy, lossy_text};
use crate::urls::{AbsoluteUrl, UrlParts};
use crate::version::UploadApiVersion;
use vstd::prelude::*;

verus! {

/// Errors that may occur while uploading symbols.
///
/// Errors of the file system, of the ZIP archiver and of the HTTP client are kept as the text
/// that they have for the user.
#[derive(Debug)]
pub enum Error {
    NotADirectory(Vec<u8>),
    InvalidBaseUrlScheme(AbsoluteUrl),
    IOError(String),
    ZipError(String),
    ReqwestError(String),
    SymbolsServer4xx { status: u16, msg: String },
    NotImplemented(UploadApiVersion),
    InvalidAuthToken,
    MissingRangeHeader,
    InvalidRangeHeader(Vec<u8>),
    GcsError { status: u16, msg: String },
    InvalidSymbolsServerResponse { msg: String },
}

/// An error, with the texts and the bytes that it holds.
pub enum ErrorView {
    NotADirectory(Seq<u8>),
    InvalidBaseUrlScheme(UrlParts),
    IOError(Seq<char>),
    ZipError(Seq<char>),
    ReqwestError(Seq<char>),
    SymbolsServer4xx { status: u16, msg: Seq<char> },
    NotImplemented(UploadApiVersion),
    InvalidAuthToken,
    MissingRangeHeader,
    InvalidRangeHeader(Seq<u8>),
    GcsError { status: u16, msg: Seq<char> },
    InvalidSymbolsServerResponse { msg: Seq<char> },
}

impl View for Error {
    type V = ErrorView;

    open spec fn view(&self) -> ErrorView {
        match self {
            Error::NotADirectory(p) => ErrorView::NotADirectory(p@),
            Error::InvalidBaseUrlScheme(u) => ErrorView::InvalidBaseUrlScheme(u@),
            Error::IOError(m) => ErrorView::IOError(m@),
            Error::ZipError(m) => ErrorView::ZipError(m@),
            Error::ReqwestError(m) => ErrorView::ReqwestError(m@),
            Error::SymbolsServer4xx { status, msg } => ErrorView::SymbolsServer4xx {
                status: *status,
                msg: msg@,
            },
            Error::NotImplemented(v) => ErrorView::NotImplemented(*v),
            Error::InvalidAuthToken => ErrorView::InvalidAuthToken,
            Error::MissingRangeHeader => ErrorView::MissingRangeHeader,
            Error::InvalidRangeHeader(h) => ErrorView::InvalidRangeHeader(h@),
            Error::GcsError { status, msg } => ErrorView::GcsError { status: *status, msg: msg@ },
            Error::InvalidSymbolsServerResponse { msg } =>
                ErrorView::InvalidSymbolsServerResponse { msg: msg@ },
        }
    }
}

/// Whether a byte of a header can be shown as it is: a tab, or printable ASCII.
pub open spec fn is_visible(b: u8) -> bool {
    b == 9 || 32 <= b < 127
}

/// How a byte of a header is shown between quotes. The double quote gets a backslash, and what
/// is not visible is written in hexadecimal digits without a leading zero.
pub open spec fn escaped_byte(b: u8) -> Seq<char> {
    if b == 34 {
        seq!['\\', '"']
    } else if is_visible(b) {
        seq![b as char]
    } else if b < 16 {
        seq!['\\', 'x', hex_digit(b as int)]
    } else {
        seq!['\\', 'x', hex_digit(b as int / 16), hex_digit(b as int % 16)]
    }
}

/// How the bytes of a header are shown between quotes.
pub open spec fn escaped(bytes: Seq<u8>) -> Seq<char>
    decreases bytes.len(),
{
    if bytes.len() == 0 {
        Seq::empty()
    } else {
        escaped(bytes.drop_last()) + escaped_byte(bytes.last())
    }
}

impl ErrorView {
    /// The message for the user.
    pub open spec fn message(self) -> Seq<char> {
        match self {
            ErrorView::NotADirectory(p) => "not a directory: "@ + lossy_text(p),
            ErrorView::InvalidBaseUrlScheme(u) => "URL must have http or https scheme: "@
                + u.text(),
            ErrorView::IOError(m) => "I/O error: "@ + m,
            ErrorView::ZipError(m) => "ZIP archiver error: "@ + m,
            ErrorView::ReqwestError(m) => "error sending HTTP request: "@ + m,
            ErrorView::SymbolsServer4xx { status, msg } => "status "@ + decimal(status as nat)
                + " response from symbols server: "@ + msg,
            ErrorView::NotImplemented(v) => "upload client not implemented: "@ + v.name(),
            ErrorView::InvalidAuthToken => "auth token must contain only hex digits"@,
            ErrorView::MissingRangeHeader => "missing range header in GCS response"@,
            ErrorView::InvalidRangeHeader(h) => "invalid range header in GCS response: \""@
                + escaped(h) + "\""@,
            ErrorView::GcsError { status, msg } => "status "@ + decimal(status as nat)
                + " response from GCS: "@ + msg,
            ErrorView::InvalidSymbolsServerResponse { msg } =>
                "invalid Symbols Server response: "@ + msg,
        }
    }
}

/// Append a byte of a header to `out`, as it is shown between quotes.
fn push_escaped_byte(out: &mut String, b: u8)
    ensures
        final(out)@ == old(out)@ + escaped_byte(b),
{
    if b == 34 {
        out.push('\\');
        out.push('"');
    } else if b == 9 || (32 <= b && b < 127) {
        out.push(b as char);
    } else {
        out.push('\\');
        out.push('x');
        let one: Vec<u8> = vec![b];
        let digits = crate::text::chars_of(crate::hex::encode_hex(one.as_slice()).as_str());
        assert(digits@ =~= seq![hex_digit(b as int / 16), hex_digit(b as int % 16)]);
        if b >= 16 {
            out.push(digits[0]);
        }
        out.push(digits[1]);
    }
    assert(out@ =~= old(out)@ + escaped_byte(b));
}

fn push_escaped(out: &mut String, bytes: &[u8])
    ensures
        final(out)@ == old(out)@ + escaped(bytes@),
{
    let n = bytes.len();
    assert(out@ =~= old(out)@ + escaped(bytes@.take(0)));
    for i in 0..n
        invariant
            n == bytes@.len(),
            out@ == old(out)@ + escaped(bytes@.take(i as int)),
    {
        push_escaped_byte(out, bytes[i]);
        assert(bytes@.take(i + 1).drop_last() =~= bytes@.take(i as int));
        assert(out@ =~= old(out)@ + escaped(bytes@.take(i + 1)));
    }
    assert(bytes@.take(n as int) =~= bytes@);
}

impl Error {
    /// The message for the user.
    pub fn message(&self) -> (res: String)
        ensures
            res@ == self@.message(),
    {
        match self {
            Error::NotADirectory(p) => join("not a directory: ", lossy(p.as_slice()).as_str()),
            Error::InvalidBaseUrlScheme(u) => join(
                "URL must have http or https scheme: ",
                u.as_str(),
            ),
            Error::IOError(m) => join("I/O error: ", m.as_str()),
            Error::ZipError(m) => join("ZIP archiver error: ", m.as_str()),
            Error::ReqwestError(m) => join("error sending HTTP request: ", m.as_str()),
            Error::SymbolsServer4xx { status, msg } => {
                let mut out = "status ".to_owned();
                push_decimal(&mut out, *status as u64);
                out.append(" response from symbols server: ");
                out.append(msg.as_str());
                out
            },
            Error::NotImplemented(v) => join(
                "upload client not implemented: ",
                v.debug_name().as_str(),
            ),
            Error::InvalidAuthToken => "auth token must contain only hex digits".to_owned(),
            Error::MissingRangeHeader => "missing range header in GCS response".to_owned(),
            Error::InvalidRangeHeader(h) => {
                let mut out = "invalid range header in GCS response: \"".to_owned();
                push_escaped(&mut out, h.as_slice());
                out.append("\"");
                out
            },
            Error::GcsError { status, msg } => {
                let mut out = "status ".to_owned();
                push_decimal(&mut out, *status as u64);
                out.append(" response from GCS: ");
                out.append(msg.as_str());
                out
            },
            Error::InvalidSymbolsServerResponse { msg } => join(
                "invalid Symbols Server response: ",
                msg.as_str(),
            ),
        }
    }
}

/// Each message says what is wrong, and ends with the text or the data of the error.
pub proof fn law_messages_hold_their_data(
    path: Seq<u8>,
    url: UrlParts,
    msg: Seq<char>,
    status: u16,
    version: UploadApiVersion,
    header: Seq<u8>,
)
    ensures
        ErrorView::NotADirectory(path).message() == "not a directory: "@ + lossy_text(path),
        ErrorView::InvalidBaseUrlScheme(url).message() == "URL must have http or https scheme: "@
            + url.before_path + url.path + url.after_path,
        ErrorView::IOError(msg).message() == "I/O error: "@ + msg,
        ErrorView::ZipError(msg).message() == "ZIP archiver error: "@ + msg,
        ErrorView::ReqwestError(msg).message() == "error sending HTTP request: "@ + msg,
        (ErrorView::SymbolsServer4xx { status, msg }).message() == "status "@ + decimal(status as nat)
            + " response from symbols server: "@ + msg,
        ErrorView::NotImplemented(version).message() == "upload client not implemented: "@
            + (match version {
            UploadApiVersion::Auto => "Auto"@,
            UploadApiVersion::V1 => "V1"@,
            UploadApiVersion::V2 => "V2"@,
        }),
        ErrorView::InvalidAuthToken.message() == "auth token must contain only hex digits"@,
        ErrorView::MissingRangeHeader.message() == "missing range header in GCS response"@,
        ErrorView::InvalidRangeHeader(header).message()
            == "invalid range header in GCS response: \""@ + escaped(header) + "\""@,
        (ErrorView::GcsError { status, msg }).message() == "status "@ + decimal(status as nat)
            + " response from GCS: "@ + msg,
        (ErrorView::InvalidSymbolsServerResponse { msg }).message()
            == "invalid Symbols Server response: "@ + msg,
{
    let start = "URL must have http or https scheme: "@;
    assert(start + url.text() =~= start + url.before_path + url.path + url.after_path);
}

/// A header is shown byte by byte.
pub proof fn law_header_is_shown_byte_by_byte(left: Seq<u8>, right: Seq<u8>)
    ensures
        escaped(Seq::empty()) == Seq::<char>::empty(),
        escaped(left + right) == escaped(left) + escaped(right),
    decreases right.len(),
{
    if right.len() == 0 {
        assert(left + right =~= left);
        assert(escaped(left) + escaped(right) =~= escaped(left));
    } else {
        law_header_is_shown_byte_by_byte(left, right.drop_last());
        assert((left + right).drop_last() =~= left + right.drop_last());
        assert((left + right).last() == right.last());
        assert(escaped(left + right) =~= escaped(left) + escaped(right));
    }
}

/// Tabs and printable ASCII are shown as they are, but for the double quote, which gets a
/// backslash. Any other byte is shown as its one or two hexadecimal digits behind `\x`.
pub proof fn law_byte_is_shown_or_escaped(b: u8)
    ensures
        is_visible(b) <==> b == 9 || 32 <= b <= 126,
        escaped(seq![b]) == if b == 34 {
            seq!['\\', '"']
        } else if b == 9 || 32 <= b <= 126 {
            seq![b as char]
        } else if b < 16 {
            seq!['\\', 'x', "0123456789abcdef"@[b as int]]
        } else {
            seq![
                '\\',
                'x',
                "0123456789abcdef"@[b as int / 16],
                "0123456789abcdef"@[b as int % 16],
            ]
        },
{
    crate::hex::law_byte_is_two_digits(seq![b], 0);
    assert(seq![b].drop_last() =~= Seq::empty());
    assert(escaped(Seq::empty()) =~= Seq::empty());
    assert(escaped(seq![b]) == escaped(seq![b].drop_last()) + escaped_byte(b));
    assert(escaped(seq![b]) =~= escaped_byte(b));
    assert(b < 16 ==> b as int / 16 == 0 && b as int % 16 == b);
    assert(crate::hex::hex_text(seq![b])[0] == hex_digit(b as int / 16));
    assert(crate::hex::hex_text(seq![b])[1] == hex_digit(b as int % 16));
}

/// Errors are seen with all their data.
pub proof fn law_errors_are_seen_as_they_are(
    bytes: Vec<u8>,
    url: AbsoluteUrl,
    msg: String,
    status: u16,
    version: UploadApiVersion,
)
    ensures
        Error::NotADirectory(bytes)@ == ErrorView::NotADirectory(bytes@),
        Error::InvalidBaseUrlScheme(url)@ == ErrorView::InvalidBaseUrlScheme(url@),
        Error::IOError(msg)@ == ErrorView::IOError(msg@),
        Error::ZipError(msg)@ == ErrorView::ZipError(msg@),
        Error::ReqwestError(msg)@ == ErrorView::ReqwestError(msg@),
        (Error::SymbolsServer4xx { status, msg })@ == (ErrorView::SymbolsServer4xx {
            status,
            msg: msg@,
        }),
        Error::NotImplemented(version)@ == ErrorView::NotImplemented(version),
        Error::InvalidAuthToken@ == ErrorView::InvalidAuthToken,
        Error::MissingRangeHeader@ == ErrorView::MissingRangeHeader,
        Error::InvalidRangeHeader(bytes)@ == ErrorView::InvalidRangeHeader(bytes@),
        (Error::GcsError { status, msg })@ == (ErrorView::GcsError { status, msg: msg@ }),
        (Error::InvalidSymbolsServerResponse { msg })@
            == (ErrorView::InvalidSymbolsServerResponse { msg: msg@ }),
{
}

} // verus!

//! Uploading a single file to a resumable upload session of Google Cloud Storage.
//!
//! The file is sent in chunks. After each chunk, the server either says that the upload is
//! complete, or how many bytes have already been transferred, or asks to try again later.

use crate::decimal::{
    decimal, law_decimal_reads_back, law_number_is_digits, number_of, parse_number, push_decimal,
};
use crate::error::{is_visible, Error, ErrorView};
use crate::text::{after_prefix, law_prefix_and_rest_are_the_text, strip_prefix};
use vstd::prelude::*;

verus! {

/// The content encoding for the upload, returned by the server.
///
/// Only "gzip" and no content encoding at all are supported.
#[derive(Clone, Copy, Debug, PartialEq, Eq, Structural)]
pub enum ContentEncoding {
    Gzip,
}

impl ContentEncoding {
    /// The value of the `content-encoding` header.
    pub open spec fn text(self) -> Seq<char> {
        "gzip"@
    }

    /// The value of the `content-encoding` header.
    pub fn header_value(self) -> (res: &'static str)
        ensures
            res@ == self.text(),
            res@ == "gzip"@,
    {
        "gzip"
    }
}

/// A part of a file, and how it is announced to the server.
#[derive(Debug)]
pub struct Chunk {
    /// Where the chunk starts in the file.
    pub start: u64,
    /// The number of bytes, the value of the `content-length` header.
    pub content_length: u64,
    /// The value of the `content-range` header.
    pub content_range: String,
}

/// A part of a file, and how it is announced to the server.
pub struct ChunkView {
    pub start: nat,
    pub content_length: nat,
    pub content_range: Seq<char>,
}

impl View for Chunk {
    type V = ChunkView;

    open spec fn view(&self) -> ChunkView {
        ChunkView {
            start: self.start as nat,
            content_length: self.content_length as nat,
            content_range: self.content_range@,
        }
    }
}

/// What is to be done with a response to a chunk.
#[derive(Debug)]
pub enum Reaction {
    /// Read the object in the body: the file has been uploaded.
    Finish,
    /// Send the next chunk.
    Continue,
    /// Wait and send the chunk again.
    Retry,
    /// Give up with the error that the HTTP client has for the status.
    Reject,
    /// Give up with this error.
    Fail(Error),
    /// The status has no meaning in the protocol, and is not an error either.
    Unexpected,
}

/// What is to be done with a response to a chunk.
pub enum ReactionView {
    Finish,
    Continue,
    Retry,
    Reject,
    Fail(ErrorView),
    Unexpected,
}

impl View for Reaction {
    type V = ReactionView;

    open spec fn view(&self) -> ReactionView {
        match self {
            Reaction::Finish => ReactionView::Finish,
            Reaction::Continue => ReactionView::Continue,
            Reaction::Retry => ReactionView::Retry,
            Reaction::Reject => ReactionView::Reject,
            Reaction::Fail(e) => ReactionView::Fail(e@),
            Reaction::Unexpected => ReactionView::Unexpected,
        }
    }
}

/// Statuses after which a chunk is worth sending again.
pub open spec fn is_retriable(status: u16) -> bool {
    status == 429 || status == 500 || status == 502 || status == 503 || status == 504
}

/// The text of a header, or `None` if some byte of it is not visible.
pub open spec fn header_text(bytes: Seq<u8>) -> Option<Seq<char>> {
    if forall|i: int| 0 <= i < bytes.len() ==> is_visible(bytes[i]) {
        Some(bytes.map_values(|b: u8| b as char))
    } else {
        None
    }
}

/// The position of the last byte that has been transferred, as the `range` header gives it.
pub open spec fn last_byte(range: Seq<u8>) -> Option<u64> {
    match header_text(range) {
        Some(text) => match after_prefix(text, "bytes=0-"@) {
            Some(rest) => number_of(rest),
            None => None,
        },
        None => None,
    }
}

/// The value of a `content-range` header.
pub open spec fn content_range_text(start: nat, end: nat, total: nat) -> Seq<char> {
    "bytes "@ + decimal(start) + "-"@ + decimal(end) + "/"@ + decimal(total)
}

fn header_chars(bytes: &[u8]) -> (res: Option<Vec<char>>)
    ensures
        res is Some <==> header_text(bytes@) is Some,
        res matches Some(chars) ==> header_text(bytes@) == Some(chars@),
{
    let mut out: Vec<char> = Vec::new();
    let n = bytes.len();
    for i in 0..n
        invariant
            n == bytes@.len(),
            forall|j: int| 0 <= j < i ==> is_visible(bytes@[j]),
            out@ == bytes@.take(i as int).map_values(|b: u8| b as char),
    {
        let b = bytes[i];
        if !(b == 9 || (32 <= b && b < 127)) {
            assert(!is_visible(bytes@[i as int]));
            return None;
        }
        out.push(b as char);
        assert(out@ =~= bytes@.take(i + 1).map_values(|b: u8| b as char));
    }
    assert(bytes@.take(n as int) =~= bytes@);
    Some(out)
}

/// Read the position of the last byte that has been transferred from a `range` header.
pub fn parse_range(range: &[u8]) -> (res: Option<u64>)
    ensures
        res == last_byte(range@),
{
    match header_chars(range) {
        Some(chars) => match strip_prefix(chars.as_slice(), "bytes=0-") {
            Some(rest) => parse_number(rest.as_slice()),
            None => None,
        },
        None => None,
    }
}

/// The state of the upload of one file.
#[derive(Debug)]
pub struct Transfer {
    file_size: u64,
    chunk_size: u64,
    transferred: u64,
    remaining_retries: usize,
}

/// The size of the file, the size of a chunk, how many bytes have been transferred, and how many
/// retries remain.
pub struct TransferView {
    pub file_size: nat,
    pub chunk_size: nat,
    pub transferred: nat,
    pub remaining_retries: nat,
}

impl View for Transfer {
    type V = TransferView;

    closed spec fn view(&self) -> TransferView {
        TransferView {
            file_size: self.file_size as nat,
            chunk_size: self.chunk_size as nat,
            transferred: self.transferred as nat,
            remaining_retries: self.remaining_retries as nat,
        }
    }
}

/// The view of an optional header.
pub open spec fn header_view(range: Option<Vec<u8>>) -> Option<Seq<u8>> {
    match range {
        Some(bytes) => Some(bytes@),
        None => None,
    }
}

impl TransferView {
    /// An upload of which nothing has been transferred.
    pub open spec fn start(file_size: nat, chunk_size: nat, retries: nat) -> TransferView {
        TransferView { file_size, chunk_size, transferred: 0, remaining_retries: retries }
    }

    /// The length of the next chunk: a whole chunk, or what is left of the file.
    pub open spec fn next_length(self) -> nat {
        if self.file_size - self.transferred <= self.chunk_size {
            (self.file_size - self.transferred) as nat
        } else {
            self.chunk_size
        }
    }

    /// The position of the last byte of the next chunk. If no byte has been transferred and the
    /// chunk is empty, there is no such position, and it is given as zero.
    pub open spec fn next_end(self) -> nat {
        if self.transferred + self.next_length() == 0 {
            0
        } else {
            (self.transferred + self.next_length() - 1) as nat
        }
    }

    /// The chunk that is sent next.
    pub open spec fn chunk(self) -> ChunkView {
        ChunkView {
            start: self.transferred,
            content_length: self.next_length(),
            content_range: content_range_text(self.transferred, self.next_end(), self.file_size),
        }
    }

    /// Whether a response can come from a server that has received no more than the file: it
    /// does not claim bytes after the end of the file.
    pub open spec fn accepts(self, status: u16, range: Option<Seq<u8>>) -> bool {
        status == 308 ==> (range matches Some(bytes) ==> (last_byte(bytes) matches Some(n) ==> n
            < self.file_size))
    }

    /// What is to be done with a response.
    pub open spec fn reaction(self, status: u16, range: Option<Seq<u8>>) -> ReactionView {
        if status == 200 || status == 201 {
            ReactionView::Finish
        } else if status == 308 {
            match range {
                Some(bytes) => match last_byte(bytes) {
                    Some(_) => ReactionView::Continue,
                    None => ReactionView::Fail(ErrorView::InvalidRangeHeader(bytes)),
                },
                None => ReactionView::Fail(ErrorView::MissingRangeHeader),
            }
        } else if is_retriable(status) {
            if self.remaining_retries == 0 {
                ReactionView::Reject
            } else {
                ReactionView::Retry
            }
        } else if 400 <= status < 600 {
            ReactionView::Reject
        } else {
            ReactionView::Unexpected
        }
    }

    /// The state after a response.
    pub open spec fn after(self, status: u16, range: Option<Seq<u8>>) -> TransferView {
        match self.reaction(status, range) {
            ReactionView::Continue => TransferView {
                transferred: (last_byte(range->0)->0 + 1) as nat,
                ..self
            },
            ReactionView::Retry => TransferView {
                remaining_retries: (self.remaining_retries - 1) as nat,
                ..self
            },
            _ => self,
        }
    }
}

impl Transfer {
    /// No more has been transferred than the file holds.
    #[verifier::type_invariant]
    spec fn is_within_file(self) -> bool {
        self.transferred <= self.file_size
    }

    /// The upload of a file of the given size, before the first chunk is sent.
    pub fn new(file_size: u64, chunk_size: u64, retries: usize) -> (res: Self)
        ensures
            res@ == TransferView::start(file_size as nat, chunk_size as nat, retries as nat),
            res@.file_size == file_size,
            res@.chunk_size == chunk_size,
            res@.transferred == 0,
            res@.remaining_retries == retries,
    {
        Transfer { file_size, chunk_size, transferred: 0, remaining_retries: retries }
    }

    /// The chunk that is to be sent next.
    pub fn next_chunk(&self) -> (res: Chunk)
        ensures
            res@ == self@.chunk(),
            res.start == self@.transferred,
            res.content_length <= self@.chunk_size,
            res.start + res.content_length <= self@.file_size,
            res.content_length == self@.chunk_size || res.start + res.content_length
                == self@.file_size,
    {
        proof {
            use_type_invariant(self);
        }
        let left: u64 = self.file_size - self.transferred;
        let content_length: u64 = if left <= self.chunk_size {
            left
        } else {
            self.chunk_size
        };
        let end: u64 = (self.transferred + content_length).saturating_sub(1);
        let mut content_range = "bytes ".to_owned();
        push_decimal(&mut content_range, self.transferred);
        content_range.append("-");
        push_decimal(&mut content_range, end);
        content_range.append("/");
        push_decimal(&mut content_range, self.file_size);
        Chunk { start: self.transferred, content_length, content_range }
    }

    /// Decide whether a response can be acted upon. A response that claims that bytes after the
    /// end of the file have been transferred cannot.
    pub fn accepts(&self, status: u16, range: &Option<Vec<u8>>) -> (res: bool)
        ensures
            res == self@.accepts(status, header_view(*range)),
    {
        if status != 308 {
            return true;
        }
        match range {
            Some(bytes) => match parse_range(bytes.as_slice()) {
                Some(n) => n < self.file_size,
                None => true,
            },
            None => true,
        }
    }

    /// Decide what to do with a response to the chunk that was sent, given its status and its
    /// `range` header.
    pub fn note(self, status: u16, range: Option<Vec<u8>>) -> (res: (Self, Reaction))
        requires
            self@.accepts(status, header_view(range)),
        ensures
            res.0@ == self@.after(status, header_view(range)),
            res.1@ == self@.reaction(status, header_view(range)),
    {
        proof {
            use_type_invariant(&self);
        }
        if status == 200 || status == 201 {
            // These status codes mean we are done uploading.
            return (self, Reaction::Finish);
        }
        if status == 308 {
            // Status code 308 is used by Google to indicate that the upload isn't complete yet.
            // The range header indicates how many bytes have already been successfully
            // transferred.
            return match range {
                Some(bytes) => match parse_range(bytes.as_slice()) {
                    Some(n) => (Transfer { transferred: n + 1, ..self }, Reaction::Continue),
                    None => (self, Reaction::Fail(Error::InvalidRangeHeader(bytes))),
                },
                None => (self, Reaction::Fail(Error::MissingRangeHeader)),
            };
        }
        if status == 429 || status == 500 || status == 502 || status == 503 || status == 504 {
            if self.remaining_retries == 0 {
                return (self, Reaction::Reject);
            }
            let remaining_retries = self.remaining_retries - 1;
            return (Transfer { remaining_retries, ..self }, Reaction::Retry);
        }
        if 400 <= status && status < 600 {
            return (self, Reaction::Reject);
        }
        (self, Reaction::Unexpected)
    }
}

/// A response: its status and its `range` header.
pub type Reply = (u16, Option<Seq<u8>>);

/// The state after a sequence of responses, or `None` if the upload ended before the last of them.
pub open spec fn after_replies(transfer: TransferView, replies: Seq<Reply>) -> Option<TransferView>
    decreases replies.len(),
{
    if replies.len() == 0 {
        Some(transfer)
    } else {
        match after_replies(transfer, replies.drop_last()) {
            Some(t) => {
                let (status, range) = replies.last();
                match t.reaction(status, range) {
                    ReactionView::Continue => Some(t.after(status, range)),
                    ReactionView::Retry => Some(t.after(status, range)),
                    _ => None,
                }
            },
            None => None,
        }
    }
}

/// The number of responses with a retriable status.
pub open spec fn retriable_count(replies: Seq<Reply>) -> nat
    decreases replies.len(),
{
    if replies.len() == 0 {
        0
    } else {
        retriable_count(replies.drop_last()) + if is_retriable(replies.last().0) {
            1nat
        } else {
            0nat
        }
    }
}

/// The number of retries bounds the number of retriable statuses that are accepted during the
/// upload of a file, however much has been transferred between them. Without retries, the first
/// one ends the upload.
pub proof fn law_retries_are_bounded(transfer: TransferView, replies: Seq<Reply>)
    requires
        after_replies(transfer, replies) is Some,
    ensures
        retriable_count(replies) <= transfer.remaining_retries,
        after_replies(transfer, replies)->0.remaining_retries == transfer.remaining_retries
            - retriable_count(replies),
    decreases replies.len(),
{
    if replies.len() > 0 {
        law_retries_are_bounded(transfer, replies.drop_last());
    }
}

/// Once all retries are used up, one more retriable status ends the upload with an error.
pub proof fn law_persistent_failure_is_reported(
    transfer: TransferView,
    replies: Seq<Reply>,
    status: u16,
    range: Option<Seq<u8>>,
)
    requires
        after_replies(transfer, replies) is Some,
        retriable_count(replies) == transfer.remaining_retries,
        is_retriable(status),
    ensures
        after_replies(transfer, replies)->0.reaction(status, range) is Reject,
{
    law_retries_are_bounded(transfer, replies);
}

/// A retry sends the same chunk again.
pub proof fn law_retry_repeats_chunk(
    transfer: TransferView,
    status: u16,
    range: Option<Seq<u8>>,
)
    requires
        transfer.reaction(status, range) is Retry,
    ensures
        transfer.after(status, range).chunk() == transfer.chunk(),
{
}

/// A `range` header names `n` as the last byte if and only if it reads `bytes=0-` and then a
/// number, and that number is `n`.
pub proof fn law_range_header_names_last_byte(header: Seq<u8>, n: u64)
    ensures
        last_byte(header) == Some(n) <==> exists|rest: Seq<char>| #[trigger]
            number_of(rest) == Some(n) && header.map_values(|b: u8| b as char) == "bytes=0-"@
                + rest,
{
    reveal_strlit("bytes=0-");
    let text = header.map_values(|b: u8| b as char);
    if last_byte(header) == Some(n) {
        let rest = after_prefix(text, "bytes=0-"@)->0;
        law_prefix_and_rest_are_the_text(text, "bytes=0-"@, rest);
        assert(number_of(rest) == Some(n) && text == "bytes=0-"@ + rest);
    }
    if exists|rest: Seq<char>| #[trigger]
        number_of(rest) == Some(n) && text == "bytes=0-"@ + rest {
        let rest = choose|rest: Seq<char>| #[trigger]
            number_of(rest) == Some(n) && text == "bytes=0-"@ + rest;
        law_prefix_and_rest_are_the_text(text, "bytes=0-"@, rest);
        law_number_is_digits(rest);
        assert forall|i: int| 0 <= i < header.len() implies is_visible(header[i]) by {
            assert(text[i] == header[i] as char);
            if i < 8 {
                assert(text[i] == "bytes=0-"@[i]);
            } else {
                assert(text[i] == rest[i - 8]);
                assert(rest[i - 8] == '+' || ('0' <= rest[i - 8] && rest[i - 8] <= '9'));
            }
        }
        assert(header_text(header) == Some(text));
    }
}

/// After a response with the status 308 and a `range` header that reads `bytes=0-n`, the next
/// chunk starts at the byte after `n`, whatever has been sent before. Nothing else changes.
pub proof fn law_next_chunk_follows_acknowledged_bytes(
    transfer: TransferView,
    header: Seq<u8>,
    n: u64,
)
    requires
        n < transfer.file_size,
        header.map_values(|b: u8| b as char) == "bytes=0-"@ + decimal(n as nat),
    ensures
        transfer.accepts(308, Some(header)),
        transfer.reaction(308, Some(header)) is Continue,
        transfer.after(308, Some(header)).chunk().start == n + 1,
        transfer.after(308, Some(header)).transferred == n + 1,
        transfer.after(308, Some(header)).file_size == transfer.file_size,
        transfer.after(308, Some(header)).chunk_size == transfer.chunk_size,
        transfer.after(308, Some(header)).remaining_retries == transfer.remaining_retries,
{
    law_decimal_reads_back(n);
    assert(number_of(decimal(n as nat)) == Some(n) && header.map_values(|b: u8| b as char)
        == "bytes=0-"@ + decimal(n as nat));
    law_range_header_names_last_byte(header, n);
}

/// A response can be acted upon unless it has the status 308 and its `range` header names a byte
/// after the end of the file.
pub proof fn law_only_bytes_after_the_end_are_refused(
    transfer: TransferView,
    status: u16,
    header: Seq<u8>,
)
    ensures
        transfer.accepts(status, None),
        !transfer.accepts(status, Some(header)) <==> status == 308 && last_byte(header) is Some
            && last_byte(header)->0 >= transfer.file_size,
{
}

/// A chunk starts where the transferred bytes end. It is as long as a chunk may be, unless it
/// reaches the end of the file, and it never goes beyond that.
pub proof fn law_chunk_is_full_or_last(transfer: TransferView)
    requires
        transfer.transferred <= transfer.file_size,
    ensures
        transfer.chunk().start == transfer.transferred,
        transfer.chunk().content_length <= transfer.chunk_size,
        transfer.chunk().start + transfer.chunk().content_length <= transfer.file_size,
        transfer.chunk().content_length == transfer.chunk_size || transfer.chunk().start
            + transfer.chunk().content_length == transfer.file_size,
{
}

/// A chunk of the bytes from `start` to `end` of a file is announced as
/// `bytes start-end/size`.
pub proof fn law_chunk_is_announced_by_its_bytes(transfer: TransferView, start: nat, end: nat)
    requires
        transfer.transferred <= transfer.file_size,
        transfer.chunk().start == start,
        transfer.chunk().start + transfer.chunk().content_length == end + 1,
    ensures
        transfer.chunk().content_range == "bytes "@ + decimal(start) + "-"@ + decimal(end) + "/"@
            + decimal(transfer.file_size),
{
}

/// An empty chunk at the beginning of a file is announced as if it were its first byte.
pub proof fn law_empty_chunk_is_announced(transfer: TransferView)
    requires
        transfer.transferred == 0,
        transfer.chunk().content_length == 0,
    ensures
        transfer.chunk().content_range == "bytes 0-0/"@ + decimal(transfer.file_size),
{
    reveal_strlit("bytes ");
    reveal_strlit("-");
    reveal_strlit("/");
    reveal_strlit("bytes 0-0/");
    assert(decimal(0) =~= seq!['0']);
    assert("bytes "@ + decimal(0) + "-"@ + decimal(0) + "/"@ =~= "bytes 0-0/"@);
}

/// What is done with a response depends on its status alone, but for the status 308, where it
/// depends on the `range` header, and for the retriable ones, where it depends on whether retries
/// remain.
pub proof fn law_status_decides(transfer: TransferView, status: u16, range: Option<Seq<u8>>)
    ensures
        transfer.reaction(status, range) is Finish <==> status == 200 || status == 201,
        transfer.reaction(status, range) is Continue <==> status == 308 && range is Some
            && last_byte(range->0) is Some,
        transfer.reaction(status, range) == ReactionView::Fail(ErrorView::MissingRangeHeader)
            <==> status == 308 && range is None,
        status == 308 && range is Some && last_byte(range->0) is None ==> transfer.reaction(
            status,
            range,
        ) == ReactionView::Fail(ErrorView::InvalidRangeHeader(range->0)),
        transfer.reaction(status, range) is Fail ==> status == 308,
        transfer.reaction(status, range) is Retry <==> transfer.remaining_retries > 0 && seq![
            429u16,
            500,
            502,
            503,
            504,
        ].contains(status),
        transfer.reaction(status, range) is Reject <==> 400 <= status < 600 && !(
        transfer.remaining_retries > 0 && seq![429u16, 500, 502, 503, 504].contains(status)),
{
    let list = seq![429u16, 500, 502, 503, 504];
    assert(list.contains(status) <==> is_retriable(status)) by {
        assert(list[0] == 429 && list[1] == 500 && list[2] == 502 && list[3] == 503 && list[4]
            == 504);
    }
}

/// A response that does not ask for the next chunk leaves what has been transferred as it is.
/// Retries are used up by retrying alone, one at a time.
pub proof fn law_other_responses_transfer_nothing(
    transfer: TransferView,
    status: u16,
    range: Option<Seq<u8>>,
)
    requires
        !(transfer.reaction(status, range) is Continue),
    ensures
        transfer.after(status, range).transferred == transfer.transferred,
        transfer.after(status, range).file_size == transfer.file_size,
        transfer.after(status, range).chunk_size == transfer.chunk_size,
        transfer.after(status, range).remaining_retries == transfer.remaining_retries - if
            transfer.reaction(status, range) is Retry {
            1int
        } else {
            0int
        },
{
}

/// The upload before it gets response number `i`.
pub open spec fn before_reply(transfer: TransferView, replies: Seq<Reply>, i: int) -> TransferView {
    after_replies(transfer, replies.take(i))->0
}

/// Whether chunk number `i` carries the byte at position `p`.
pub open spec fn is_carried(transfer: TransferView, replies: Seq<Reply>, i: int, p: int) -> bool {
    let chunk = before_reply(transfer, replies, i).chunk();
    chunk.start <= p < chunk.start + chunk.content_length
}

/// Whether response number `i` acknowledges no byte that has not been sent: a byte that it names
/// as the last one stands before the end of that chunk or of an earlier one.
pub open spec fn acknowledges_sent_bytes(
    transfer: TransferView,
    replies: Seq<Reply>,
    i: int,
) -> bool {
    let (status, range) = replies[i];
    status == 308 && range is Some ==> forall|n: u64|
        last_byte(range->0) == Some(n) ==> exists|j: int|
            0 <= j <= i && n < before_reply(transfer, replies, j).chunk().start + (
            #[trigger] before_reply(transfer, replies, j)).chunk().content_length
}

proof fn lemma_after_prefix_of_replies(transfer: TransferView, replies: Seq<Reply>, i: int)
    requires
        after_replies(transfer, replies) is Some,
        0 <= i <= replies.len(),
    ensures
        after_replies(transfer, replies.take(i)) is Some,
    decreases replies.len() - i,
{
    if i == replies.len() {
        assert(replies.take(i) =~= replies);
    } else {
        lemma_after_prefix_of_replies(transfer, replies, i + 1);
        assert(replies.take(i + 1).drop_last() =~= replies.take(i));
    }
}

proof fn lemma_within_file(transfer: TransferView, replies: Seq<Reply>, k: int)
    requires
        transfer.transferred == 0,
        after_replies(transfer, replies) is Some,
        forall|i: int| 0 <= i < replies.len() ==> acknowledges_sent_bytes(transfer, replies, i),
        0 <= k <= replies.len(),
    ensures
        before_reply(transfer, replies, k).transferred <= transfer.file_size,
        before_reply(transfer, replies, k).file_size == transfer.file_size,
    decreases k,
{
    if k == 0 {
        assert(replies.take(0) =~= Seq::empty());
    } else {
        lemma_after_prefix_of_replies(transfer, replies, k);
        lemma_after_prefix_of_replies(transfer, replies, k - 1);
        assert(replies.take(k).drop_last() =~= replies.take(k - 1));
        assert(replies.take(k).last() == replies[k - 1]);
        let before = before_reply(transfer, replies, k - 1);
        let (status, range) = replies[k - 1];
        assert(before_reply(transfer, replies, k) == before.after(status, range));
        assert(acknowledges_sent_bytes(transfer, replies, k - 1));
        lemma_within_file(transfer, replies, k - 1);
        if before.reaction(status, range) is Continue {
            let n = last_byte(range->0)->0;
            let j = choose|j: int|
                0 <= j <= k - 1 && n < before_reply(transfer, replies, j).chunk().start + (
                #[trigger] before_reply(transfer, replies, j)).chunk().content_length;
            lemma_within_file(transfer, replies, j);
        }
    }
}

proof fn lemma_sent_bytes_are_carried(
    transfer: TransferView,
    replies: Seq<Reply>,
    k: int,
    p: int,
)
    requires
        transfer.transferred == 0,
        after_replies(transfer, replies) is Some,
        forall|i: int| 0 <= i < replies.len() ==> acknowledges_sent_bytes(transfer, replies, i),
        0 <= k <= replies.len(),
        0 <= p < before_reply(transfer, replies, k).chunk().start + before_reply(
            transfer,
            replies,
            k,
        ).chunk().content_length,
    ensures
        exists|i: int| 0 <= i <= k && is_carried(transfer, replies, i, p),
    decreases k,
{
    let now = before_reply(transfer, replies, k);
    if now.chunk().start <= p {
        assert(is_carried(transfer, replies, k, p));
    } else if k == 0 {
        assert(replies.take(0) =~= Seq::empty());
    } else {
        lemma_after_prefix_of_replies(transfer, replies, k);
        lemma_after_prefix_of_replies(transfer, replies, k - 1);
        assert(replies.take(k).drop_last() =~= replies.take(k - 1));
        assert(replies.take(k).last() == replies[k - 1]);
        let before = before_reply(transfer, replies, k - 1);
        let (status, range) = replies[k - 1];
        assert(now == before.after(status, range));
        assert(acknowledges_sent_bytes(transfer, replies, k - 1));
        if before.reaction(status, range) is Continue {
            let n = last_byte(range->0)->0;
            assert(p <= n);
            let j = choose|j: int|
                0 <= j <= k - 1 && n < before_reply(transfer, replies, j).chunk().start + (
                #[trigger] before_reply(transfer, replies, j)).chunk().content_length;
            lemma_sent_bytes_are_carried(transfer, replies, j, p);
            let i = choose|i: int| 0 <= i <= j && is_carried(transfer, replies, i, p);
            assert(0 <= i <= k && is_carried(transfer, replies, i, p));
        } else {
            lemma_sent_bytes_are_carried(transfer, replies, k - 1, p);
            let i = choose|i: int| 0 <= i <= k - 1 && is_carried(transfer, replies, i, p);
            assert(0 <= i <= k && is_carried(transfer, replies, i, p));
        }
    }
}

/// The chunks leave no gap, whichever part of them the server keeps: as long as it acknowledges
/// nothing but what it was sent, each byte before the end of the last chunk stands in some chunk,
/// at its own place. If the last chunk reaches the end of the file, that is the whole file.
pub proof fn law_chunks_leave_no_gap(
    content: Seq<u8>,
    chunk_size: nat,
    retries: nat,
    replies: Seq<Reply>,
    p: int,
)
    requires
        ({
            let transfer = TransferView::start(content.len(), chunk_size, retries);
            &&& after_replies(transfer, replies) is Some
            &&& forall|i: int|
                0 <= i < replies.len() ==> acknowledges_sent_bytes(transfer, replies, i)
            &&& 0 <= p < after_replies(transfer, replies)->0.chunk().start + after_replies(
                transfer,
                replies,
            )->0.chunk().content_length
        }),
    ensures
        ({
            let transfer = TransferView::start(content.len(), chunk_size, retries);
            exists|i: int|
                0 <= i <= replies.len() && ({
                    let chunk = (#[trigger] before_reply(transfer, replies, i)).chunk();
                    let piece = content.subrange(
                        chunk.start as int,
                        (chunk.start + chunk.content_length) as int,
                    );
                    &&& 0 <= p - chunk.start < piece.len()
                    &&& piece[p - chunk.start] == content[p]
                })
        }),
{
    let transfer = TransferView::start(content.len(), chunk_size, retries);
    assert(replies.take(replies.len() as int) =~= replies);
    lemma_sent_bytes_are_carried(transfer, replies, replies.len() as int, p);
    let i = choose|i: int| 0 <= i <= replies.len() && is_carried(transfer, replies, i, p);
    lemma_within_file(transfer, replies, i);
    let chunk = before_reply(transfer, replies, i).chunk();
    let piece = content.subrange(chunk.start as int, (chunk.start + chunk.content_length) as int);
    assert(piece[p - chunk.start] == content[p]);
}

/// Chunks, headers and reactions are seen with all their parts.
pub proof fn law_chunks_are_seen_as_they_are(chunk: Chunk, header: Vec<u8>, e: Error)
    ensures
        chunk@.start == chunk.start,
        chunk@.content_length == chunk.content_length,
        chunk@.content_range == chunk.content_range@,
        header_view(Some(header)) == Some(header@),
        header_view(None) is None,
        Reaction::Finish@ is Finish,
        Reaction::Continue@ is Continue,
        Reaction::Retry@ is Retry,
        Reaction::Reject@ is Reject,
        Reaction::Fail(e)@ == ReactionView::Fail(e@),
        Reaction::Unexpected@ is Unexpected,
{
}

} // verus!

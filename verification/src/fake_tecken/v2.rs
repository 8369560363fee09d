//! How the fake symbols server answers requests of version 2 of the upload API.

use crate::decimal::{
    decimal, law_decimal_reads_back, lemma_decimal_holds_no, number_of, parse_number, push_decimal,
    to_decimal,
};
use crate::error::is_visible;
use crate::fake_tecken::storage::{StorageView, SymbolsStorage};
use crate::fake_tecken::{NOT_FOUND, USER};
use crate::gcs::{
    content_range_text, header_text, last_byte, ReactionView, Reply, TransferView,
};
use crate::summary::{lemma_push_contains, SummaryView};
use crate::text::{
    after_prefix, chars_of, lemma_after_prefix, lemma_split_joined, split_at_first, split_once,
    strip_prefix,
};
use crate::v2::{
    before_response, file_specs, has_own_keys, is_consistent, job_keys, processed, BatchView,
    FileSpecRequest, FileSpecView, ResponseView,
};
use vstd::prelude::*;

verus! {

/// The protocol for uploading files.
pub const PROTOCOL: &'static str = "gcs-resumable";

/// What is to be done with a file: it is uploaded to the given URL, or skipped.
#[derive(Debug)]
pub enum Answer {
    Upload { url: String },
    Skip,
}

/// The key of a file, and what is to be done with it.
#[derive(Debug)]
pub struct FileAnswer {
    pub key: String,
    pub action: Answer,
}

/// The response to a request for uploads.
#[derive(Debug)]
pub struct UploadResponse {
    pub id: u32,
    pub created_at: u64,
    pub user: String,
    pub try_symbols: bool,
    pub upload_protocol: String,
    pub files: Vec<FileAnswer>,
}

/// What is to be done with a file.
pub enum AnswerView {
    Upload { url: Seq<char> },
    Skip,
}

/// The key of a file, and what is to be done with it.
pub struct FileAnswerView {
    pub key: Seq<char>,
    pub action: AnswerView,
}

impl View for FileAnswer {
    type V = FileAnswerView;

    open spec fn view(&self) -> FileAnswerView {
        FileAnswerView {
            key: self.key@,
            action: match self.action {
                Answer::Upload { url } => AnswerView::Upload { url: url@ },
                Answer::Skip => AnswerView::Skip,
            },
        }
    }
}

/// The views of a list of answers.
pub open spec fn answers(list: Seq<FileAnswer>) -> Seq<FileAnswerView> {
    list.map_values(|a: FileAnswer| a@)
}

/// The URL for the upload of a file.
pub open spec fn session_url(host: Seq<char>, id: nat) -> Seq<char> {
    "http://"@ + host + "/gcs/resumable-upload/"@ + decimal(id)
}

/// The storage and the answers after a request.
#[verifier::ext_equal]
pub struct Answered {
    pub storage: StorageView,
    pub files: Seq<FileAnswerView>,
}

/// What answering for the files of a request one by one comes to. A file that is stored already
/// is skipped; for any other file, an upload is started.
pub open spec fn answered(storage: StorageView, host: Seq<char>, specs: Seq<FileSpecView>) -> Answered
    decreases specs.len(),
{
    if specs.len() == 0 {
        Answered { storage, files: Seq::empty() }
    } else {
        let before = answered(storage, host, specs.drop_last());
        let key = specs.last().key;
        if before.storage.uploaded.contains(key) {
            Answered {
                files: before.files.push(FileAnswerView { key, action: AnswerView::Skip }),
                ..before
            }
        } else {
            Answered {
                storage: before.storage.with_pending(key),
                files: before.files.push(
                    FileAnswerView {
                        key,
                        action: AnswerView::Upload {
                            url: session_url(host, before.storage.resumable_uploads + 1),
                        },
                    },
                ),
            }
        }
    }
}

proof fn lemma_answered(storage: StorageView, host: Seq<char>, specs: Seq<FileSpecView>)
    ensures
        ({
            let end = answered(storage, host, specs);
            &&& end.files.len() == specs.len()
            &&& end.storage.uploaded == storage.uploaded
            &&& end.storage.uploads == storage.uploads
            &&& storage.resumable_uploads <= end.storage.resumable_uploads
                <= storage.resumable_uploads + specs.len()
            &&& forall|i: int|
                0 <= i < specs.len() ==> {
                    &&& (#[trigger] end.files[i]).key == specs[i].key
                    &&& end.files[i].action is Skip <==> storage.uploaded.contains(specs[i].key)
                }
        }),
    decreases specs.len(),
{
    if specs.len() > 0 {
        let shorter = specs.drop_last();
        lemma_answered(storage, host, shorter);
        let before = answered(storage, host, shorter);
        let end = answered(storage, host, specs);
        assert forall|i: int| 0 <= i < specs.len() implies {
            &&& (#[trigger] end.files[i]).key == specs[i].key
            &&& end.files[i].action is Skip <==> storage.uploaded.contains(specs[i].key)
        } by {
            if i < shorter.len() {
                assert(end.files[i] == before.files[i]);
                assert(shorter[i] == specs[i]);
            }
        }
    }
}

/// Answer a request for uploads, made at the given time to the given host.
pub fn upload(
    storage: &mut SymbolsStorage,
    host: &str,
    now: u64,
    files: Vec<FileSpecRequest>,
) -> (res: UploadResponse)
    requires
        old(storage)@.uploads < u32::MAX,
        old(storage)@.resumable_uploads + files@.len() <= u32::MAX,
    ensures
        final(storage)@ == answered(
            old(storage)@,
            host@,
            file_specs(files@),
        ).storage.with_upload(),
        answers(res.files@) == answered(old(storage)@, host@, file_specs(files@)).files,
        res.id == old(storage)@.uploads + 1,
        res.created_at == now,
        res.user@ == USER@,
        res.user@ == "user@mozilla.com"@,
        !res.try_symbols,
        res.upload_protocol@ == PROTOCOL@,
        res.upload_protocol@ == "gcs-resumable"@,
{
    let ghost before = storage@;
    let ghost specs = file_specs(files@);
    let mut out: Vec<FileAnswer> = Vec::new();
    assert(answers(out@) =~= Seq::<FileAnswerView>::empty());
    assert(specs.take(0) =~= Seq::<FileSpecView>::empty());
    for file in it: files
        invariant
            it.seq() == files@,
            specs == file_specs(files@),
            before.resumable_uploads + files@.len() <= u32::MAX,
            storage@ == answered(before, host@, specs.take(it.index() as int)).storage,
            answers(out@) == answered(before, host@, specs.take(it.index() as int)).files,
    {
        let ghost i = it.index() as int;
        let ghost list = out@;
        assert(specs.take(i + 1).drop_last() =~= specs.take(i));
        assert(specs.take(i + 1).last() == file@);
        proof {
            lemma_answered(before, host@, specs.take(i));
        }
        let key = file.key;
        let action = if storage.uploaded_files().contains(key.as_str()) {
            Answer::Skip
        } else {
            let id = storage.initiate_file_upload(key.clone());
            let mut url = "http://".to_owned();
            url.append(host);
            url.append("/gcs/resumable-upload/");
            push_decimal(&mut url, id as u64);
            Answer::Upload { url }
        };
        let answer = FileAnswer { key, action };
        out.push(answer);
        assert(answers(out@) =~= answers(list).push(answer@));
    }
    assert(specs.take(files@.len() as int) =~= specs);
    proof {
        lemma_answered(before, host@, specs);
    }
    let id = storage.new_upload();
    UploadResponse {
        id,
        created_at: now,
        user: USER.to_owned(),
        try_symbols: false,
        upload_protocol: PROTOCOL.to_owned(),
        files: out,
    }
}

/// The last position of a chunk and the size of its file.
#[derive(Clone, Copy, Debug, PartialEq, Eq, Structural)]
pub struct ContentRange {
    pub end: u64,
    pub total: u64,
}

/// What a `content-range` header of the form `bytes <start>-<end>/<total>` says, or `None` if it
/// does not have this form.
pub open spec fn content_range(text: Seq<char>) -> Option<ContentRange> {
    match after_prefix(text, "bytes "@) {
        Some(rest) => match split_at_first(rest, '/') {
            Some((range, total)) => match split_at_first(range, '-') {
                Some((_, end)) => match (number_of(end), number_of(total)) {
                    (Some(end), Some(total)) => Some(ContentRange { end, total }),
                    _ => None,
                },
                None => None,
            },
            None => None,
        },
        None => None,
    }
}

/// Read a `content-range` header.
pub fn parse_content_range(text: &str) -> (res: Option<ContentRange>)
    ensures
        res == content_range(text@),
{
    let chars = chars_of(text);
    let rest = match strip_prefix(chars.as_slice(), "bytes ") {
        Some(rest) => rest,
        None => {
            return None;
        },
    };
    let (range, total) = match split_once(rest.as_slice(), '/') {
        Some(parts) => parts,
        None => {
            return None;
        },
    };
    let end = match split_once(range.as_slice(), '-') {
        Some((_, end)) => end,
        None => {
            return None;
        },
    };
    match (parse_number(end.as_slice()), parse_number(total.as_slice())) {
        (Some(end), Some(total)) => Some(ContentRange { end, total }),
        _ => None,
    }
}

/// The object that an upload made.
#[derive(Debug)]
pub struct GcsObject {
    pub md5_hash: String,
    pub name: String,
    pub size: String,
}

/// The response to a chunk: the upload is complete, or it is not. Either way the `range` header
/// says how much has been transferred.
#[derive(Debug)]
pub enum ChunkResponse {
    Complete { range: String, object: GcsObject },
    Incomplete { range: String },
}

/// What the response to a chunk says.
pub enum ChunkResponseView {
    Complete { range: Seq<char>, name: Seq<char>, size: Seq<char>, md5_hash: Seq<char> },
    Incomplete { range: Seq<char> },
}

impl View for ChunkResponse {
    type V = ChunkResponseView;

    open spec fn view(&self) -> ChunkResponseView {
        match self {
            ChunkResponse::Complete { range, object } => ChunkResponseView::Complete {
                range: range@,
                name: object.name@,
                size: object.size@,
                md5_hash: object.md5_hash@,
            },
            ChunkResponse::Incomplete { range } => ChunkResponseView::Incomplete { range: range@ },
        }
    }
}

/// The value of the `range` header after the byte at the given position has been transferred.
pub open spec fn range_text(end: nat) -> Seq<char> {
    "bytes=0-"@ + decimal(end)
}

/// Whether a chunk is the last one of its file.
pub open spec fn is_last(range: ContentRange) -> bool {
    range.end + 1 >= range.total
}

/// How the server responds to a chunk of an upload.
pub open spec fn responded(storage: StorageView, id: u32, range: ContentRange) -> Result<
    ChunkResponseView,
    u16,
> {
    if !storage.pending.contains_key(id) {
        Err(NOT_FOUND)
    } else if is_last(range) {
        Ok(
            ChunkResponseView::Complete {
                range: range_text(range.end as nat),
                name: storage.pending[id],
                size: decimal(range.total as nat),
                md5_hash: Seq::empty(),
            },
        )
    } else {
        Ok(ChunkResponseView::Incomplete { range: range_text(range.end as nat) })
    }
}

/// The view of a response or of a status.
pub open spec fn chunk_outcome(res: Result<ChunkResponse, u16>) -> Result<ChunkResponseView, u16> {
    match res {
        Ok(r) => Ok(r@),
        Err(status) => Err(status),
    }
}

/// Take a chunk of an upload.
pub fn resumable_upload(storage: &mut SymbolsStorage, id: u32, content_range: ContentRange) -> (res:
    Result<ChunkResponse, u16>)
    requires
        content_range.end < u64::MAX,
    ensures
        chunk_outcome(res) == responded(old(storage)@, id, content_range),
        final(storage)@ == (if is_last(content_range) {
            old(storage)@.completed(id)
        } else {
            old(storage)@
        }),
{
    let mut range = "bytes=0-".to_owned();
    push_decimal(&mut range, content_range.end);
    if content_range.end + 1 >= content_range.total {
        match storage.complete_file_upload(id) {
            Some(name) => {
                let object = GcsObject {
                    md5_hash: String::new(),
                    name,
                    size: to_decimal(content_range.total),
                };
                assert(object.md5_hash@ =~= Seq::<char>::empty());
                Ok(ChunkResponse::Complete { range, object })
            },
            None => Err(NOT_FOUND),
        }
    } else {
        broadcast use vstd::std_specs::hash::group_hash_axioms;

        if !storage.pending_uploads().contains_key(&id) {
            return Err(NOT_FOUND);
        }
        Ok(ChunkResponse::Incomplete { range })
    }
}

/// Every file of a request is answered, in order: it is skipped if it is stored, and it is to be
/// uploaded if it is not. Answering stores nothing.
pub proof fn law_every_file_is_answered(
    storage: StorageView,
    host: Seq<char>,
    specs: Seq<FileSpecView>,
    i: int,
)
    requires
        0 <= i < specs.len(),
    ensures
        answered(storage, host, specs).files.len() == specs.len(),
        answered(storage, host, specs).files[i].key == specs[i].key,
        answered(storage, host, specs).files[i].action is Skip <==> storage.uploaded.contains(
            specs[i].key,
        ),
        answered(storage, host, specs).storage.uploaded == storage.uploaded,
{
    lemma_answered(storage, host, specs);
}

/// What a chunk announces is what the server reads.
pub proof fn law_content_range_reads_back(start: u64, end: u64, total: u64)
    ensures
        content_range(content_range_text(start as nat, end as nat, total as nat)) == Some(
            ContentRange { end, total },
        ),
{
    let (s, e, t) = (decimal(start as nat), decimal(end as nat), decimal(total as nat));
    reveal_strlit("-");
    reveal_strlit("/");
    let range = s.push('-') + e;
    let rest = range.push('/') + t;
    assert(content_range_text(start as nat, end as nat, total as nat) =~= "bytes "@ + rest);
    lemma_after_prefix("bytes "@, rest);
    lemma_decimal_holds_no(start as nat, '-');
    lemma_decimal_holds_no(start as nat, '/');
    lemma_decimal_holds_no(end as nat, '/');
    assert forall|i: int| 0 <= i < range.len() implies range[i] != '/' by {
        if i < s.len() {
            assert(s[i] == range[i]);
        } else if i > s.len() {
            assert(e[i - s.len() - 1] == range[i]);
        }
    }
    lemma_split_joined(range, '/', t);
    lemma_split_joined(s, '-', e);
    law_decimal_reads_back(end);
    law_decimal_reads_back(total);
}

/// The bytes of an ASCII text.
pub open spec fn ascii(text: Seq<char>) -> Seq<u8> {
    text.map_values(|c: char| c as u8)
}

/// What the server writes into a `range` header is what the client reads.
pub proof fn law_range_reads_back(end: u64)
    ensures
        last_byte(ascii(range_text(end as nat))) == Some(end),
{
    let text = range_text(end as nat);
    let bytes = ascii(text);
    reveal_strlit("bytes=0-");
    crate::decimal::lemma_decimal(end as nat);
    assert forall|i: int| 0 <= i < text.len() implies 32 <= (#[trigger] text[i]) as u32
        && (text[i] as u32) < 127 by {
        if i >= 8 {
            assert(text[i] == decimal(end as nat)[i - 8]);
            assert(crate::decimal::is_digit(decimal(end as nat)[i - 8]));
        }
    }
    assert forall|i: int| 0 <= i < bytes.len() implies is_visible(#[trigger] bytes[i]) && bytes[i]
        as char == text[i] by {
        let c = text[i];
        assert(32 <= c as u32 && (c as u32) < 127);
    }
    assert(bytes.map_values(|b: u8| b as char) =~= text);
    assert(header_text(bytes) == Some(text));
    lemma_after_prefix("bytes=0-"@, decimal(end as nat));
    law_decimal_reads_back(end);
}

/// An upload that was started.
pub struct Session {
    pub storage: StorageView,
    pub id: u32,
}

impl Session {
    /// Whether the upload is not complete yet.
    pub open spec fn is_pending(self) -> bool {
        self.storage.pending.contains_key(self.id)
    }

    /// The reply to a chunk, as the client sees it.
    pub open spec fn reply_to(self, range: ContentRange) -> Reply {
        match responded(self.storage, self.id, range) {
            Ok(ChunkResponseView::Complete { range, .. }) => (200, Some(ascii(range))),
            Ok(ChunkResponseView::Incomplete { range }) => (308, Some(ascii(range))),
            Err(status) => (status, None),
        }
    }

    /// The reply to the chunk that is sent next, as the client sees it.
    pub open spec fn next_reply(self, transfer: TransferView) -> Reply {
        self.reply_to(content_range(transfer.chunk().content_range)->0)
    }
}

/// The state of an upload after the given number of chunks.
pub open spec fn after_chunks(session: Session, transfer: TransferView, chunks: nat) -> TransferView
    decreases chunks,
{
    if chunks == 0 {
        transfer
    } else {
        let before = after_chunks(session, transfer, (chunks - 1) as nat);
        let (status, range) = session.next_reply(before);
        before.after(status, range)
    }
}

/// What the client does with the reply to chunk number `k`, counted from zero.
pub open spec fn reaction_to(session: Session, transfer: TransferView, k: nat) -> ReactionView {
    let before = after_chunks(session, transfer, k);
    let (status, range) = session.next_reply(before);
    before.reaction(status, range)
}

/// The part of the file that chunk number `k` carries.
pub open spec fn piece(
    session: Session,
    content: Seq<u8>,
    transfer: TransferView,
    k: nat,
) -> Seq<u8> {
    let chunk = after_chunks(session, transfer, k).chunk();
    content.subrange(chunk.start as int, (chunk.start + chunk.content_length) as int)
}

/// What the first chunks carry together.
pub open spec fn received(
    session: Session,
    content: Seq<u8>,
    transfer: TransferView,
    chunks: nat,
) -> Seq<u8>
    decreases chunks,
{
    if chunks == 0 {
        Seq::empty()
    } else {
        received(session, content, transfer, (chunks - 1) as nat) + piece(
            session,
            content,
            transfer,
            (chunks - 1) as nat,
        )
    }
}

/// The number of chunks of a file. An empty file has one chunk, which is empty.
pub open spec fn chunk_count(file_size: nat, chunk_size: nat) -> nat {
    if file_size == 0 {
        1
    } else {
        ((file_size + chunk_size - 1) / (chunk_size as int)) as nat
    }
}

proof fn lemma_chunk_count(file_size: nat, chunk_size: nat)
    requires
        chunk_size > 0,
    ensures
        chunk_count(file_size, chunk_size) >= 1,
        (chunk_count(file_size, chunk_size) - 1) * chunk_size <= file_size,
        file_size > 0 ==> (chunk_count(file_size, chunk_size) - 1) * chunk_size < file_size,
        file_size <= chunk_count(file_size, chunk_size) * chunk_size,
{
    if file_size > 0 {
        let n = chunk_count(file_size, chunk_size) as int;
        let (s, c) = (file_size as int, chunk_size as int);
        vstd::arithmetic::div_mod::lemma_fundamental_div_mod(s + c - 1, c);
        vstd::arithmetic::div_mod::lemma_mod_bound(s + c - 1, c);
        assert(n >= 1) by (nonlinear_arith)
            requires
                n == (s + c - 1) / c,
                s >= 1,
                c >= 1,
        ;
        assert((n - 1) * c == c * n - c) by (nonlinear_arith);
        assert(n * c == c * n) by (nonlinear_arith);
    } else {
        let n = chunk_count(file_size, chunk_size) as int;
        assert((n - 1) * chunk_size == 0 && n * chunk_size == chunk_size) by (nonlinear_arith)
            requires
                n == 1,
        ;
    }
}

proof fn lemma_step(session: Session, transfer: TransferView)
    requires
        session.is_pending(),
        transfer.transferred <= transfer.file_size <= u64::MAX,
    ensures
        ({
            let (status, range) = session.next_reply(transfer);
            if transfer.next_end() + 1 >= transfer.file_size {
                transfer.reaction(status, range) is Finish
            } else {
                &&& transfer.reaction(status, range) is Continue
                &&& transfer.after(status, range) == (TransferView {
                    transferred: transfer.next_end() + 1,
                    ..transfer
                })
            }
        }),
{
    let end = transfer.next_end() as u64;
    let total = transfer.file_size as u64;
    law_content_range_reads_back(transfer.transferred as u64, end, total);
    assert(content_range(transfer.chunk().content_range) == Some(ContentRange { end, total }));
    law_range_reads_back(end);
}

#[verifier::spinoff_prover]
proof fn lemma_exchange(
    session: Session,
    content: Seq<u8>,
    chunk_size: nat,
    retries: nat,
    k: nat,
)
    requires
        session.is_pending(),
        chunk_size > 0,
        content.len() <= u64::MAX,
        k < chunk_count(content.len(), chunk_size),
    ensures
        ({
            let start = TransferView::start(content.len(), chunk_size, retries);
            &&& after_chunks(session, start, k) == (TransferView {
                transferred: (k * chunk_size) as nat,
                ..start
            })
            &&& k * chunk_size <= content.len()
            &&& received(session, content, start, k) == content.take((k * chunk_size) as int)
        }),
    decreases k,
{
    let start = TransferView::start(content.len(), chunk_size, retries);
    let n = chunk_count(content.len(), chunk_size);
    lemma_chunk_count(content.len(), chunk_size);
    assert(k * chunk_size <= (n - 1) * chunk_size) by (nonlinear_arith)
        requires
            k <= n - 1,
            chunk_size > 0,
    ;
    if k == 0 {
        assert(received(session, content, start, 0) =~= content.take(0));
    } else {
        let j = (k - 1) as nat;
        lemma_exchange(session, content, chunk_size, retries, j);
        lemma_full_chunk(content.len(), chunk_size, j);
        let before = after_chunks(session, start, j);
        let (from, to) = ((j * chunk_size) as int, (k * chunk_size) as int);
        assert(before.next_length() == chunk_size);
        lemma_step(session, before);
        assert(piece(session, content, start, j) == content.subrange(from, to));
        assert(content.take(from) + content.subrange(from, to) =~= content.take(to));
    }
}

/// A chunk that is not the last one is a whole chunk, and more follows it.
proof fn lemma_full_chunk(file_size: nat, chunk_size: nat, j: nat)
    requires
        chunk_size > 0,
        j + 1 < chunk_count(file_size, chunk_size),
    ensures
        j * chunk_size + chunk_size == (j + 1) * chunk_size,
        (j + 1) * chunk_size < file_size,
{
    let n = chunk_count(file_size, chunk_size);
    lemma_chunk_count(file_size, chunk_size);
    assert(j * chunk_size + chunk_size == (j + 1) * chunk_size) by (nonlinear_arith);
    assert((j + 1) * chunk_size <= (n - 1) * chunk_size) by (nonlinear_arith)
        requires
            j + 1 <= n - 1,
            chunk_size > 0,
    ;
}

/// An upload whose chunks all arrive is complete after as many chunks as the file has: every
/// reply before the last asks for the next chunk, and the last reply ends the upload, after which
/// the file is stored. Together, the chunks carry the file, each byte once and in order.
#[verifier::spinoff_prover]
pub proof fn law_upload_completes(
    session: Session,
    content: Seq<u8>,
    chunk_size: nat,
    retries: nat,
)
    requires
        session.is_pending(),
        chunk_size > 0,
        content.len() <= u64::MAX,
    ensures
        ({
            let start = TransferView::start(content.len(), chunk_size, retries);
            let n = chunk_count(content.len(), chunk_size);
            &&& forall|k: nat| k + 1 < n ==> #[trigger] reaction_to(session, start, k) is Continue
            &&& reaction_to(session, start, (n - 1) as nat) is Finish
            &&& received(session, content, start, n) == content
            &&& session.storage.completed(session.id).uploaded.contains(
                session.storage.pending[session.id],
            )
        }),
{
    let start = TransferView::start(content.len(), chunk_size, retries);
    let size = content.len();
    let n = chunk_count(size, chunk_size);
    lemma_chunk_count(size, chunk_size);
    assert forall|k: nat| k + 1 < n implies #[trigger] reaction_to(session, start, k) is Continue by {
        lemma_exchange(session, content, chunk_size, retries, k);
        lemma_full_chunk(size, chunk_size, k);
        lemma_step(session, after_chunks(session, start, k));
    }
    let last = (n - 1) as nat;
    lemma_exchange(session, content, chunk_size, retries, last);
    assert(last * chunk_size + chunk_size == n * chunk_size) by (nonlinear_arith)
        requires
            last == n - 1,
    ;
    lemma_step(session, after_chunks(session, start, last));
    assert(received(session, content, start, n) =~= content);
    let key = session.storage.pending[session.id];
    lemma_push_contains(session.storage.uploaded, key, key);
}

/// Whether the client reads an answer of the server as the given response.
pub open spec fn reads_as(answer: FileAnswerView, response: ResponseView) -> bool {
    &&& answer.key == response.key
    &&& match answer.action {
        AnswerView::Upload { .. } => response.action is Upload,
        AnswerView::Skip => response.action is Skip,
    }
}

/// Whether the client reads the answers of the server to a request for a batch as the given
/// responses.
pub open spec fn are_read_as(
    storage: StorageView,
    host: Seq<char>,
    batch: BatchView,
    list: Seq<ResponseView>,
) -> bool {
    let files = answered(storage, host, batch.file_specs).files;
    &&& list.len() == files.len()
    &&& forall|i: int| 0 <= i < list.len() ==> reads_as(files[i], #[trigger] list[i])
}

/// The keys of the files of a batch.
pub open spec fn spec_keys(specs: Seq<FileSpecView>) -> Seq<Seq<char>> {
    specs.map_values(|s: FileSpecView| s.key)
}

proof fn lemma_read_answers(
    storage: StorageView,
    host: Seq<char>,
    batch: BatchView,
    summary: SummaryView,
    list: Seq<ResponseView>,
    k: int,
)
    requires
        is_consistent(batch),
        spec_keys(batch.file_specs).no_duplicates(),
        are_read_as(storage, host, batch, list),
        0 <= k <= list.len(),
    ensures
        ({
            let keys = spec_keys(batch.file_specs);
            let end = processed(before_response(batch, summary), list.take(k));
            &&& end.summary == (SummaryView { skipped: end.summary.skipped, ..summary })
            &&& forall|key: Seq<char>| #[trigger]
                end.summary.skipped.contains(key) <==> summary.skipped.contains(key)
                    || keys.take(k).contains(key) && storage.uploaded.contains(key)
            &&& forall|key: Seq<char>| #[trigger]
                job_keys(end.jobs).contains(key) <==> keys.take(k).contains(key)
                    && !storage.uploaded.contains(key)
            &&& has_own_keys(end.pending)
            &&& forall|j: int| k <= j < keys.len() ==> end.pending.contains_key(#[trigger] keys[j])
        }),
    decreases k,
{
    let keys = spec_keys(batch.file_specs);
    let start = before_response(batch, summary);
    let end = processed(start, list.take(k));
    lemma_answered(storage, host, batch.file_specs);
    if k == 0 {
        assert forall|j: int| 0 <= j < keys.len() implies batch.sym_files.contains_key(
            #[trigger] keys[j],
        ) by {
            assert(batch.file_specs[j].key == keys[j]);
        }
        assert(end.summary =~= summary);
    } else {
        lemma_read_answers(storage, host, batch, summary, list, k - 1);
        let before = processed(start, list.take(k - 1));
        let files = answered(storage, host, batch.file_specs).files;
        let key = keys[k - 1];
        assert(list.take(k).drop_last() =~= list.take(k - 1));
        assert(list.take(k).last() == list[k - 1]);
        assert(reads_as(files[k - 1], list[k - 1]));
        assert(files[k - 1].key == batch.file_specs[k - 1].key);
        assert(before.pending.contains_key(key));
        assert(keys.take(k) =~= keys.take(k - 1).push(key));
        assert forall|x: Seq<char>| keys.take(k).contains(x) <==> keys.take(k - 1).contains(x) || x
            == key by {
            lemma_push_contains(keys.take(k - 1), key, x);
        }
        if storage.uploaded.contains(key) {
            assert forall|x: Seq<char>| #[trigger]
                end.summary.skipped.contains(x) <==> summary.skipped.contains(x)
                    || keys.take(k).contains(x) && storage.uploaded.contains(x) by {
                lemma_push_contains(before.summary.skipped, key, x);
                assert(before.summary.skipped.contains(x) <==> summary.skipped.contains(x)
                    || keys.take(k - 1).contains(x) && storage.uploaded.contains(x));
                assert(keys.take(k).contains(x) <==> keys.take(k - 1).contains(x) || x == key);
            }
            assert forall|x: Seq<char>| #[trigger]
                job_keys(end.jobs).contains(x) <==> keys.take(k).contains(x)
                    && !storage.uploaded.contains(x) by {
                assert(job_keys(before.jobs).contains(x) <==> keys.take(k - 1).contains(x)
                    && !storage.uploaded.contains(x));
                assert(keys.take(k).contains(x) <==> keys.take(k - 1).contains(x) || x == key);
            }
        } else {
            assert(job_keys(end.jobs) =~= job_keys(before.jobs).push(key));
            assert forall|x: Seq<char>| #[trigger]
                job_keys(end.jobs).contains(x) <==> keys.take(k).contains(x)
                    && !storage.uploaded.contains(x) by {
                lemma_push_contains(job_keys(before.jobs), key, x);
                assert(job_keys(before.jobs).contains(x) <==> keys.take(k - 1).contains(x)
                    && !storage.uploaded.contains(x));
                assert(keys.take(k).contains(x) <==> keys.take(k - 1).contains(x) || x == key);
            }
            assert forall|x: Seq<char>| #[trigger]
                end.summary.skipped.contains(x) <==> summary.skipped.contains(x)
                    || keys.take(k).contains(x) && storage.uploaded.contains(x) by {
                assert(before.summary.skipped.contains(x) <==> summary.skipped.contains(x)
                    || keys.take(k - 1).contains(x) && storage.uploaded.contains(x));
                assert(keys.take(k).contains(x) <==> keys.take(k - 1).contains(x) || x == key);
            }
        }
        assert forall|x: Seq<char>| #[trigger] end.pending.contains_key(x) implies
            end.pending[x].key == x by {
            assert(before.pending.contains_key(x));
        }
        assert forall|j: int| k <= j < keys.len() implies end.pending.contains_key(
            #[trigger] keys[j],
        ) by {
            assert(before.pending.contains_key(keys[j]));
            assert(keys[j] != keys[k - 1]);
        }
    }
}

/// What the client makes of the answers of the server agrees with the storage: the files of a
/// batch that are stored are skipped, those that are not are uploaded, and nothing fails. What was
/// in the summary before stays there.
pub proof fn law_jobs_agree_with_storage(
    storage: StorageView,
    host: Seq<char>,
    batch: BatchView,
    summary: SummaryView,
    list: Seq<ResponseView>,
    key: Seq<char>,
)
    requires
        is_consistent(batch),
        spec_keys(batch.file_specs).no_duplicates(),
        are_read_as(storage, host, batch, list),
    ensures
        ({
            let keys = spec_keys(batch.file_specs);
            let end = processed(before_response(batch, summary), list);
            &&& end.summary.skipped.contains(key) <==> summary.skipped.contains(key)
                || keys.contains(key) && storage.uploaded.contains(key)
            &&& job_keys(end.jobs).contains(key) <==> keys.contains(key)
                && !storage.uploaded.contains(key)
            &&& end.summary == (SummaryView { skipped: end.summary.skipped, ..summary })
        }),
{
    let keys = spec_keys(batch.file_specs);
    let n = list.len() as int;
    lemma_answered(storage, host, batch.file_specs);
    lemma_read_answers(storage, host, batch, summary, list, n);
    let end = processed(before_response(batch, summary), list.take(n));
    assert(list.take(n) =~= list);
    assert(keys.take(n) =~= keys);
    assert(end.summary.skipped.contains(key) <==> summary.skipped.contains(key) || keys.take(
        n,
    ).contains(key) && storage.uploaded.contains(key));
    assert(job_keys(end.jobs).contains(key) <==> keys.take(n).contains(key)
        && !storage.uploaded.contains(key));
}

/// Files are answered one by one. A file that is stored is skipped. For any other file an upload is
/// started, and the answer is the URL with the number of that upload.
pub proof fn law_files_are_answered_in_order(
    storage: StorageView,
    host: Seq<char>,
    specs: Seq<FileSpecView>,
    spec: FileSpecView,
)
    ensures
        answered(storage, host, Seq::empty()).storage == storage,
        answered(storage, host, Seq::empty()).files.len() == 0,
        ({
            let before = answered(storage, host, specs);
            let end = answered(storage, host, specs.push(spec));
            let id = before.storage.resumable_uploads + 1;
            if storage.uploaded.contains(spec.key) {
                &&& end.storage == before.storage
                &&& end.files == before.files.push(
                    FileAnswerView { key: spec.key, action: AnswerView::Skip },
                )
            } else {
                &&& end.storage == before.storage.with_pending(spec.key)
                &&& end.files == before.files.push(
                    FileAnswerView {
                        key: spec.key,
                        action: AnswerView::Upload {
                            url: "http://"@ + host + "/gcs/resumable-upload/"@ + decimal(id),
                        },
                    },
                )
            }
        }),
{
    lemma_answered(storage, host, specs);
    assert(specs.push(spec).drop_last() =~= specs);
}

/// A `content-range` header of the form `bytes <start>-<end>/<total>` is read, whatever stands for
/// the start.
pub proof fn law_content_range_is_read(
    start: Seq<char>,
    end: Seq<char>,
    total: Seq<char>,
    e: u64,
    t: u64,
)
    requires
        !start.contains('-'),
        !start.contains('/'),
        number_of(end) == Some(e),
        number_of(total) == Some(t),
    ensures
        content_range("bytes "@ + start + "-"@ + end + "/"@ + total) == Some(
            ContentRange { end: e, total: t },
        ),
{
    reveal_strlit("-");
    reveal_strlit("/");
    crate::decimal::law_number_is_digits(end);
    let range = start.push('-') + end;
    let rest = range.push('/') + total;
    assert("bytes "@ + start + "-"@ + end + "/"@ + total =~= "bytes "@ + rest);
    lemma_after_prefix("bytes "@, rest);
    assert forall|i: int| 0 <= i < range.len() implies range[i] != '/' by {
        if i < start.len() {
            assert(start[i] == range[i]);
            assert(start.contains(start[i]));
        } else if i > start.len() {
            assert(end[i - start.len() - 1] == range[i]);
        }
    }
    lemma_split_joined(range, '/', total);
    lemma_split_joined(start, '-', end);
}

/// Only a `content-range` header of this form is read, and what is read are the numbers in it.
pub proof fn law_content_range_has_its_form(text: Seq<char>)
    requires
        content_range(text) is Some,
    ensures
        exists|start: Seq<char>, end: Seq<char>, total: Seq<char>|
            {
                &&& text == #[trigger] ("bytes "@ + start + "-"@ + end + "/"@ + total)
                &&& !start.contains('-')
                &&& number_of(end) == Some(content_range(text)->0.end)
                &&& number_of(total) == Some(content_range(text)->0.total)
            },
{
    reveal_strlit("-");
    reveal_strlit("/");
    let rest = after_prefix(text, "bytes "@)->0;
    crate::text::law_prefix_and_rest_are_the_text(text, "bytes "@, rest);
    crate::text::law_split_is_at_first(rest, '/');
    let (range, total) = split_at_first(rest, '/')->0;
    crate::text::law_split_is_at_first(range, '-');
    let (start, end) = split_at_first(range, '-')->0;
    assert(text =~= "bytes "@ + start + "-"@ + end + "/"@ + total);
}

/// A chunk of an upload that is not pending is not found. The chunk that reaches the end of the file
/// completes the upload, and any other chunk is acknowledged up to its last byte.
pub proof fn law_chunk_is_acknowledged(storage: StorageView, id: u32, range: ContentRange)
    ensures
        is_last(range) <==> range.end + 1 >= range.total,
        !storage.pending.contains_key(id) ==> responded(storage, id, range) == Err::<
            ChunkResponseView,
            u16,
        >(404),
        storage.pending.contains_key(id) && range.end + 1 >= range.total ==> responded(
            storage,
            id,
            range,
        ) == Ok::<ChunkResponseView, u16>(
            ChunkResponseView::Complete {
                range: "bytes=0-"@ + decimal(range.end as nat),
                name: storage.pending[id],
                size: decimal(range.total as nat),
                md5_hash: Seq::empty(),
            },
        ),
        storage.pending.contains_key(id) && range.end + 1 < range.total ==> responded(
            storage,
            id,
            range,
        ) == Ok::<ChunkResponseView, u16>(
            ChunkResponseView::Incomplete { range: "bytes=0-"@ + decimal(range.end as nat) },
        ),
{
}

/// Answers and responses are seen with all their parts.
pub proof fn law_answers_are_seen_as_they_are(
    key: String,
    url: String,
    list: Seq<FileAnswer>,
    i: int,
    range: String,
    object: GcsObject,
    status: u16,
)
    ensures
        (FileAnswer { key, action: Answer::Upload { url } })@ == (FileAnswerView {
            key: key@,
            action: AnswerView::Upload { url: url@ },
        }),
        (FileAnswer { key, action: Answer::Skip })@ == (FileAnswerView {
            key: key@,
            action: AnswerView::Skip,
        }),
        answers(list).len() == list.len(),
        0 <= i < list.len() ==> answers(list)[i] == list[i]@,
        chunk_outcome(Ok(ChunkResponse::Complete { range, object })) == Ok::<
            ChunkResponseView,
            u16,
        >(
            ChunkResponseView::Complete {
                range: range@,
                name: object.name@,
                size: object.size@,
                md5_hash: object.md5_hash@,
            },
        ),
        chunk_outcome(Ok(ChunkResponse::Incomplete { range })) == Ok::<ChunkResponseView, u16>(
            ChunkResponseView::Incomplete { range: range@ },
        ),
        chunk_outcome(Err(status)) == Err::<ChunkResponseView, u16>(status),
{
}

} // verus!

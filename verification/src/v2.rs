//! The client for version 2 of the upload API, which uploads each symbols file on its own.
//!
//! Symbols files are grouped into batches. For each batch, the symbols server is asked what is to
//! be done with each of its files, and those that it does not have yet are uploaded.

use crate::base::{self, Method, Request, Retry, UPLOAD_V2};
use crate::digest::{md5_of, Hasher};
use crate::error::{Error, ErrorView};
use crate::gcs::{ContentEncoding, Transfer, TransferView};
use crate::hex::{encode_hex, hex_text};
use crate::pool::{Pool, PoolView};
use crate::summary::{
    accounted, close_outcome, key_errors, lemma_accounted_merged, lemma_accounted_push,
    lemma_no_keys, SummaryView, UploadSummary,
};
use crate::sym_files::{InvalidKeyError, InvalidKeyView, SymbolsFile, SymbolsFileView};
use crate::text::join;
use crate::urls::{AbsoluteUrl, UrlParts};
use vstd::hash_map::StringHashMap;
use vstd::multiset::Multiset;
use vstd::prelude::*;

verus! {

/// The default of [`Config::retries`].
pub const DEFAULT_RETRIES: usize = 2;

/// The default of [`Config::retry_delay_seconds`].
pub const DEFAULT_RETRY_DELAY_SECONDS: u64 = 30;

/// The default of [`Config::batch_size`].
pub const DEFAULT_BATCH_SIZE: usize = 128;

/// The default of [`Config::max_file_uploads`].
pub const DEFAULT_MAX_FILE_UPLOADS: u32 = 16;

/// The default of [`Config::file_upload_retries`].
pub const DEFAULT_FILE_UPLOAD_RETRIES: usize = 10;

/// The default of [`Config::file_upload_delay_seconds`].
pub const DEFAULT_FILE_UPLOAD_DELAY_SECONDS: u64 = 1;

/// The default of [`Config::chunk_size`], 16 MiB.
pub const DEFAULT_CHUNK_SIZE: u64 = 16_777_216;

/// Configuration for the v2 upload client.
#[derive(Clone, Copy, Debug, PartialEq, Eq, Structural)]
pub struct Config {
    /// The number of retries for symbols server requests.
    ///
    /// On retriable status codes, symbols server requests are retried this number of times, in
    /// addition to the original request. A value of 0 disables retrying.
    pub retries: usize,
    /// The delay in seconds between symbols server request retries.
    pub retry_delay_seconds: u64,
    /// The number of symbols files per request to the symbols server.
    pub batch_size: usize,
    /// The maximum number of concurrent file uploads to GCS.
    pub max_file_uploads: u32,
    /// The number of retries for individual file uploads to GCS.
    ///
    /// The number of retriable status codes that are accepted before bailing out for each file
    /// upload. A value of 0 disables retrying.
    pub file_upload_retries: usize,
    /// The retry delay in seconds between GCS upload request retries.
    pub file_upload_delay_seconds: u64,
    /// The chunk size for file uploads to GCS.
    pub chunk_size: u64,
}

impl Config {
    /// The configuration that is used unless something else is said.
    pub open spec fn standard() -> Config {
        Config {
            retries: DEFAULT_RETRIES,
            retry_delay_seconds: DEFAULT_RETRY_DELAY_SECONDS,
            batch_size: DEFAULT_BATCH_SIZE,
            max_file_uploads: DEFAULT_MAX_FILE_UPLOADS,
            file_upload_retries: DEFAULT_FILE_UPLOAD_RETRIES,
            file_upload_delay_seconds: DEFAULT_FILE_UPLOAD_DELAY_SECONDS,
            chunk_size: DEFAULT_CHUNK_SIZE,
        }
    }
}

impl Default for Config {
    fn default() -> (res: Self)
        ensures
            res == Config::standard(),
            res.retries == 2,
            res.retry_delay_seconds == 30,
            res.batch_size == 128,
            res.max_file_uploads == 16,
            res.file_upload_retries == 10,
            res.file_upload_delay_seconds == 1,
            res.chunk_size == 16 * 1024 * 1024,
    {
        Config {
            retries: DEFAULT_RETRIES,
            retry_delay_seconds: DEFAULT_RETRY_DELAY_SECONDS,
            batch_size: DEFAULT_BATCH_SIZE,
            max_file_uploads: DEFAULT_MAX_FILE_UPLOADS,
            file_upload_retries: DEFAULT_FILE_UPLOAD_RETRIES,
            file_upload_delay_seconds: DEFAULT_FILE_UPLOAD_DELAY_SECONDS,
            chunk_size: DEFAULT_CHUNK_SIZE,
        }
    }
}

/// The v2 upload client.
pub struct Client {
    pub base: base::Client,
    pub retry: Retry,
    pub batch_size: usize,
    pub max_file_uploads: u32,
    pub file_upload_retries: usize,
    pub file_upload_delay_seconds: u64,
    pub chunk_size: u64,
}

impl Client {
    pub fn new(base: base::Client, config: Config) -> (res: Self)
        ensures
            res.base@ == base@,
            res.retry == (Retry {
                retries: config.retries,
                delay_seconds: config.retry_delay_seconds,
                max_connections: None,
            }),
            res.batch_size == config.batch_size,
            res.max_file_uploads == config.max_file_uploads,
            res.file_upload_retries == config.file_upload_retries,
            res.file_upload_delay_seconds == config.file_upload_delay_seconds,
            res.chunk_size == config.chunk_size,
    {
        let retry = Retry::builder().retries(config.retries).delay_seconds(
            config.retry_delay_seconds,
        ).build();
        Client {
            base,
            retry,
            batch_size: config.batch_size,
            max_file_uploads: config.max_file_uploads,
            file_upload_retries: config.file_upload_retries,
            file_upload_delay_seconds: config.file_upload_delay_seconds,
            chunk_size: config.chunk_size,
        }
    }

    /// The head of the request that asks what is to be done with a batch of files.
    pub fn upload_request(&self) -> (res: Request)
        ensures
            res.method == Method::Post,
            res.url@ == self.base@.base_url.below(UPLOAD_V2@),
            res.url@.text() == self.base@.base_url.before_path + self.base@.base_url.path
                + "upload/v2/"@,
            res.header@ == base::AUTH_HEADER@,
            res.token@ == self.base@.auth_token,
    {
        proof {
            base::lemma_paths_are_plain();
        }
        self.base.request(Method::Post, UPLOAD_V2)
    }

    /// The batches for this client, before the first file.
    pub fn batches(&self) -> (res: Batches)
        ensures
            res@ == BatchesView::empty(self.batch_size as nat),
            res@.batch_size == self.batch_size,
    {
        Batches::new(self.batch_size)
    }

    /// The limit on concurrent file uploads.
    pub fn uploads(&self) -> (res: Pool)
        requires
            self.max_file_uploads > 0,
        ensures
            res@ == PoolView::empty(self.max_file_uploads as nat),
            res@.limit == self.max_file_uploads,
    {
        Pool::new(self.max_file_uploads as usize)
    }

    /// The upload of a file of the given size, before the first chunk is sent.
    pub fn transfer(&self, file_size: u64) -> (res: Transfer)
        ensures
            res@ == TransferView::start(
                file_size as nat,
                self.chunk_size as nat,
                self.file_upload_retries as nat,
            ),
            res@.file_size == file_size,
            res@.chunk_size == self.chunk_size,
            res@.remaining_retries == self.file_upload_retries,
    {
        Transfer::new(file_size, self.chunk_size, self.file_upload_retries)
    }
}

/// Data for a single symbols file in an upload request.
#[derive(Debug)]
pub struct FileSpecRequest {
    pub key: String,
    pub size: u64,
    pub md5_hash: String,
}

/// The key, the size and the hexadecimal MD5 digest of a file.
pub struct FileSpecView {
    pub key: Seq<char>,
    pub size: nat,
    pub md5_hash: Seq<char>,
}

impl View for FileSpecRequest {
    type V = FileSpecView;

    open spec fn view(&self) -> FileSpecView {
        FileSpecView { key: self.key@, size: self.size as nat, md5_hash: self.md5_hash@ }
    }
}

/// The data for a file with the given key and content.
pub open spec fn spec_of(key: Seq<char>, content: Seq<u8>) -> FileSpecView {
    FileSpecView { key, size: content.len(), md5_hash: hex_text(md5_of(content)) }
}

/// The data for a file that is read piece by piece.
pub struct FileSpec {
    key: String,
    size: u64,
    hasher: Hasher,
}

/// The key of a file, and what has been read of it.
pub struct PartialSpecView {
    pub key: Seq<char>,
    pub content: Seq<u8>,
}

impl View for FileSpec {
    type V = PartialSpecView;

    closed spec fn view(&self) -> PartialSpecView {
        PartialSpecView { key: self.key@, content: self.hasher@ }
    }
}

impl FileSpec {
    /// The size is that of what has been read.
    #[verifier::type_invariant]
    spec fn is_counted(self) -> bool {
        self.size == self.hasher@.len()
    }

    /// Nothing of the file has been read yet.
    pub fn new(sym_file: &SymbolsFile) -> (res: Self)
        ensures
            res@ == (PartialSpecView { key: sym_file@.key, content: Seq::empty() }),
    {
        FileSpec { key: sym_file.key().to_owned(), size: 0, hasher: Hasher::new() }
    }

    /// Take in the next piece of the file.
    pub fn update(self, bytes: &[u8]) -> (res: Self)
        requires
            self@.content.len() + bytes@.len() <= u64::MAX,
        ensures
            res@ == (PartialSpecView { content: self@.content + bytes@, ..self@ }),
    {
        proof {
            use_type_invariant(&self);
        }
        let mut hasher = self.hasher;
        let size: u64 = self.size + bytes.len() as u64;
        hasher.update(bytes);
        FileSpec { key: self.key, size, hasher }
    }

    /// The number of bytes that have been read.
    pub fn size(&self) -> (res: u64)
        ensures
            res == self@.content.len(),
    {
        proof {
            use_type_invariant(self);
        }
        self.size
    }

    /// The data for the file, all of which has been read.
    pub fn finish(self) -> (res: FileSpecRequest)
        ensures
            res@ == spec_of(self@.key, self@.content),
            res.key@ == self@.key,
            res.size == self@.content.len(),
            res.md5_hash@ == hex_text(md5_of(self@.content)),
    {
        proof {
            use_type_invariant(&self);
        }
        let md5_hash = encode_hex(self.hasher.finish().as_slice());
        FileSpecRequest { key: self.key, size: self.size, md5_hash }
    }
}

/// A batch of symbols files together with the data about them.
pub struct FileBatch {
    pub sym_files: StringHashMap<SymbolsFile>,
    pub file_specs: Vec<FileSpecRequest>,
}

/// The files of a batch by their keys, and the data about them.
#[verifier::ext_equal]
pub struct BatchView {
    pub sym_files: Map<Seq<char>, SymbolsFileView>,
    pub file_specs: Seq<FileSpecView>,
}

/// The views of the files of a map.
pub open spec fn files(map: Map<Seq<char>, SymbolsFile>) -> Map<Seq<char>, SymbolsFileView> {
    map.map_values(|f: SymbolsFile| f@)
}

/// The views of a list of file data.
pub open spec fn file_specs(list: Seq<FileSpecRequest>) -> Seq<FileSpecView> {
    list.map_values(|s: FileSpecRequest| s@)
}

impl View for FileBatch {
    type V = BatchView;

    open spec fn view(&self) -> BatchView {
        BatchView { sym_files: files(self.sym_files@), file_specs: file_specs(self.file_specs@) }
    }
}

impl BatchView {
    /// A batch without files.
    pub open spec fn empty() -> BatchView {
        BatchView { sym_files: Map::empty(), file_specs: Seq::empty() }
    }

    /// The batch with one more file.
    pub open spec fn with_file(self, file: SymbolsFileView, spec: FileSpecView) -> BatchView {
        BatchView {
            sym_files: self.sym_files.insert(file.key, file),
            file_specs: self.file_specs.push(spec),
        }
    }
}

impl FileBatch {
    /// A batch without files.
    pub fn new() -> (res: Self)
        ensures
            res@ == BatchView::empty(),
            res.sym_files@ == Map::<Seq<char>, SymbolsFile>::empty(),
            res.file_specs@.len() == 0,
    {
        let res = FileBatch { sym_files: StringHashMap::new(), file_specs: Vec::new() };
        assert(res@ =~= BatchView::empty());
        res
    }

    /// Add a file.
    pub fn insert(&mut self, sym_file: SymbolsFile, spec: FileSpecRequest)
        ensures
            final(self)@ == old(self)@.with_file(sym_file@, spec@),
            final(self).file_specs@ == old(self).file_specs@.push(spec),
            final(self).sym_files@ == old(self).sym_files@.insert(sym_file@.key, sym_file),
    {
        let key = sym_file.key().to_owned();
        self.file_specs.push(spec);
        self.sym_files.insert(key, sym_file);
        assert(self@ =~= old(self)@.with_file(sym_file@, spec@));
    }
}

/// How symbols files are grouped into batches.
pub struct Batches {
    batch_size: usize,
    current: FileBatch,
}

/// The number of files in a batch, and the batch that is not complete yet.
pub struct BatchesView {
    pub batch_size: nat,
    pub current: BatchView,
}

impl View for Batches {
    type V = BatchesView;

    closed spec fn view(&self) -> BatchesView {
        BatchesView { batch_size: self.batch_size as nat, current: self.current@ }
    }
}

/// The view of a batch, if there is one.
pub open spec fn batch_view(batch: Option<FileBatch>) -> Option<BatchView> {
    match batch {
        Some(b) => Some(b@),
        None => None,
    }
}

impl BatchesView {
    /// Before the first file.
    pub open spec fn empty(batch_size: nat) -> BatchesView {
        BatchesView { batch_size, current: BatchView::empty() }
    }

    /// The batch that is complete with one more file, if it is.
    pub open spec fn completed(self, file: SymbolsFileView, spec: FileSpecView) -> Option<BatchView> {
        let batch = self.current.with_file(file, spec);
        if batch.file_specs.len() >= self.batch_size {
            Some(batch)
        } else {
            None
        }
    }

    /// What is left after one more file.
    pub open spec fn after(self, file: SymbolsFileView, spec: FileSpecView) -> BatchesView {
        BatchesView {
            current: match self.completed(file, spec) {
                Some(_) => BatchView::empty(),
                None => self.current.with_file(file, spec),
            },
            ..self
        }
    }

    /// The batch that is left after the last file, if it is not empty.
    pub open spec fn rest(self) -> Option<BatchView> {
        if self.current.file_specs.len() > 0 {
            Some(self.current)
        } else {
            None
        }
    }
}

impl Batches {
    pub fn new(batch_size: usize) -> (res: Self)
        ensures
            res@ == BatchesView::empty(batch_size as nat),
            res@.batch_size == batch_size,
            res@.current.file_specs.len() == 0,
            res@.current.sym_files == Map::<Seq<char>, SymbolsFileView>::empty(),
    {
        Batches { batch_size, current: FileBatch::new() }
    }

    /// Add a file to the current batch. A batch that is complete is handed out.
    pub fn add(self, sym_file: SymbolsFile, spec: FileSpecRequest) -> (res: (
        Self,
        Option<FileBatch>,
    ))
        ensures
            res.0@ == self@.after(sym_file@, spec@),
            batch_view(res.1) == self@.completed(sym_file@, spec@),
    {
        let mut current = self.current;
        current.insert(sym_file, spec);
        if current.file_specs.len() >= self.batch_size {
            (Batches { batch_size: self.batch_size, current: FileBatch::new() }, Some(current))
        } else {
            (Batches { batch_size: self.batch_size, current }, None)
        }
    }

    /// The batch that is left when all files have been added.
    pub fn finish(self) -> (res: Option<FileBatch>)
        ensures
            batch_view(res) == self@.rest(),
    {
        if self.current.file_specs.is_empty() {
            None
        } else {
            Some(self.current)
        }
    }
}

/// A single symbols file together with an upload URL.
#[derive(Debug)]
pub struct UploadJob {
    pub sym_file: SymbolsFile,
    pub session_url: AbsoluteUrl,
    pub content_encoding: Option<ContentEncoding>,
}

/// A file, where it is uploaded to, and how it is encoded.
pub struct JobView {
    pub sym_file: SymbolsFileView,
    pub session_url: UrlParts,
    pub content_encoding: Option<ContentEncoding>,
}

impl View for UploadJob {
    type V = JobView;

    open spec fn view(&self) -> JobView {
        JobView {
            sym_file: self.sym_file@,
            session_url: self.session_url@,
            content_encoding: self.content_encoding,
        }
    }
}

/// An action specification for an individual file in the response of the symbols server.
#[derive(Debug)]
pub enum ActionSpec {
    Upload { url: AbsoluteUrl, content_encoding: Option<ContentEncoding> },
    Skip,
    Error { msg: String },
}

/// The response for an individual file.
#[derive(Debug)]
pub struct FileSpecResponse {
    pub key: String,
    pub action: ActionSpec,
}

/// What is to be done with a file.
pub enum ActionView {
    Upload { url: UrlParts, content_encoding: Option<ContentEncoding> },
    Skip,
    Error { msg: Seq<char> },
}

/// The key of a file, and what is to be done with it.
pub struct ResponseView {
    pub key: Seq<char>,
    pub action: ActionView,
}

impl View for ActionSpec {
    type V = ActionView;

    open spec fn view(&self) -> ActionView {
        match self {
            ActionSpec::Upload { url, content_encoding } => ActionView::Upload {
                url: url@,
                content_encoding: *content_encoding,
            },
            ActionSpec::Skip => ActionView::Skip,
            ActionSpec::Error { msg } => ActionView::Error { msg: msg@ },
        }
    }
}

impl View for FileSpecResponse {
    type V = ResponseView;

    open spec fn view(&self) -> ResponseView {
        ResponseView { key: self.key@, action: self.action@ }
    }
}

/// The views of the responses for the files of a batch.
pub open spec fn responses(list: Seq<FileSpecResponse>) -> Seq<ResponseView> {
    list.map_values(|r: FileSpecResponse| r@)
}

/// The views of a list of jobs.
pub open spec fn jobs(list: Seq<UploadJob>) -> Seq<JobView> {
    list.map_values(|j: UploadJob| j@)
}

/// How far the response of the symbols server for a batch has been processed: the files that no
/// job has been made for, the jobs, and the summary.
#[verifier::ext_equal]
pub struct Progress {
    pub pending: Map<Seq<char>, SymbolsFileView>,
    pub jobs: Seq<JobView>,
    pub summary: SummaryView,
}

/// The error for a response with a key that is not in the batch.
pub open spec fn unknown_key(key: Seq<char>) -> ErrorView {
    ErrorView::InvalidSymbolsServerResponse { msg: "unknown key "@ + key }
}

impl Progress {
    /// The progress after the response for one more file.
    ///
    /// A file that is to be uploaded makes a job, unless it is unknown, or has made one already.
    pub open spec fn after(self, response: ResponseView) -> Progress {
        let key = response.key;
        match response.action {
            ActionView::Upload { url, content_encoding } => if self.pending.contains_key(key) {
                Progress {
                    pending: self.pending.remove(key),
                    jobs: self.jobs.push(
                        JobView {
                            sym_file: self.pending[key],
                            session_url: url,
                            content_encoding,
                        },
                    ),
                    ..self
                }
            } else {
                Progress { summary: self.summary.with_upload(key, Err(unknown_key(key))), ..self }
            },
            ActionView::Skip => Progress { summary: self.summary.with_skip(key), ..self },
            ActionView::Error { msg } => Progress {
                summary: self.summary.with_upload(
                    key,
                    Err(ErrorView::InvalidSymbolsServerResponse { msg }),
                ),
                ..self
            },
        }
    }
}

/// The progress after the responses for several files.
pub open spec fn processed(start: Progress, list: Seq<ResponseView>) -> Progress
    decreases list.len(),
{
    if list.len() == 0 {
        start
    } else {
        processed(start, list.drop_last()).after(list.last())
    }
}

/// The progress before the response for a batch.
pub open spec fn before_response(batch: BatchView, summary: SummaryView) -> Progress {
    Progress { pending: batch.sym_files, jobs: Seq::empty(), summary }
}

/// Whether a job is what an answer asks for: to upload the file with its key to its URL, in its
/// content encoding.
pub open spec fn answers_job(response: FileSpecResponse, job: UploadJob) -> bool {
    &&& response.key@ == job.sym_file@.key
    &&& response.action matches ActionSpec::Upload { url, content_encoding }
    &&& url@ == job.session_url@
    &&& content_encoding == job.content_encoding
}

/// Process the response of the symbols server for a batch. Skips and errors are recorded in the
/// summary; the result holds the jobs for the files that are to be uploaded.
pub fn collect_upload_jobs(
    batch: FileBatch,
    list: Vec<FileSpecResponse>,
    summary: UploadSummary,
) -> (res: (Vec<UploadJob>, UploadSummary))
    ensures
        jobs(res.0@) == processed(before_response(batch@, summary@), responses(list@)).jobs,
        res.1@ == processed(before_response(batch@, summary@), responses(list@)).summary,
        has_own_keys(batch@.sym_files) ==> forall|i: int|
            0 <= i < res.0@.len() ==> exists|j: int|
                0 <= j < list@.len() && answers_job(list@[j], #[trigger] res.0@[i]),
{
    let ghost start = before_response(batch@, summary@);
    let mut pending = batch.sym_files;
    let mut out: Vec<UploadJob> = Vec::new();
    let mut summary = summary;
    assert(jobs(out@) =~= start.jobs);
    assert(responses(list@.take(0)) =~= Seq::<ResponseView>::empty());
    for response in it: list
        invariant
            it.seq() == list@,
            (Progress { pending: files(pending@), jobs: jobs(out@), summary: summary@ })
                == processed(start, responses(list@.take(it.index() as int))),
    {
        let ghost i = it.index() as int;
        let ghost before = Progress { pending: files(pending@), jobs: jobs(out@), summary: summary@ };
        let ghost view = response@;
        assert(responses(list@.take(i + 1)).drop_last() =~= responses(list@.take(i)));
        assert(responses(list@.take(i + 1)).last() == response@);
        let key = response.key;
        match response.action {
            ActionSpec::Upload { url, content_encoding } => {
                match pending.get(key.as_str()) {
                    Some(found) => {
                        let sym_file = found.clone();
                        pending.remove(key.as_str());
                        out.push(UploadJob { sym_file, session_url: url, content_encoding });
                    },
                    None => {
                        // The symbols server returned a spec for a key we don't know about. This
                        // can only happen due to a bug.
                        let msg = join("unknown key ", key.as_str());
                        summary.record_upload(
                            key,
                            Err(Error::InvalidSymbolsServerResponse { msg }),
                        );
                    },
                }
            },
            ActionSpec::Skip => summary.record_skip(key),
            ActionSpec::Error { msg } => {
                // The only error the server returns is a key validation error. Since we have the
                // same key validation on the client side, we can only reach this point due to a
                // bug.
                summary.record_upload(key, Err(Error::InvalidSymbolsServerResponse { msg }));
            },
        }
        assert(Progress { pending: files(pending@), jobs: jobs(out@), summary: summary@ }
            =~= before.after(view));
    }
    assert(list@.take(list@.len() as int) =~= list@);
    proof {
        if has_own_keys(batch@.sym_files) {
            lemma_jobs_are_answered(start, list@, out@);
        }
    }
    (out, summary)
}

/// The summary of an upload: what became of the files that were uploaded, what was met during
/// discovery, what the symbols server answered, and whether the temporary directory could be
/// removed.
pub open spec fn summarized(
    uploads: SummaryView,
    discovery_errors: Seq<InvalidKeyView>,
    requests: SummaryView,
    close: Result<(), Seq<char>>,
) -> SummaryView {
    uploads.with_discovery(discovery_errors).merged(requests).with_close(close)
}

/// Sum up an upload: what became of the files that were uploaded, what was met during discovery,
/// what the symbols server answered, and whether the temporary directory could be removed.
pub fn summarize(
    uploads: UploadSummary,
    discovery_errors: Vec<InvalidKeyError>,
    requests: UploadSummary,
    close: Result<(), String>,
) -> (res: UploadSummary)
    ensures
        res@ == summarized(
            uploads@,
            key_errors(discovery_errors@),
            requests@,
            close_outcome(close),
        ),
        res.discovery_errors@ == discovery_errors@ + requests.discovery_errors@,
        res.uploaded_keys@ == uploads.uploaded_keys@ + requests.uploaded_keys@,
        res.skipped_keys@ == uploads.skipped_keys@ + requests.skipped_keys@,
        res.failed_keys@ == uploads.failed_keys@ + requests.failed_keys@,
        close is Ok ==> res.upload_errors@ == uploads.upload_errors@ + requests.upload_errors@,
        close matches Err(msg) ==> res.upload_errors@ == (uploads.upload_errors@
            + requests.upload_errors@).push(Error::IOError(msg)),
{
    let mut summary = uploads;
    summary.record_discovery(discovery_errors);
    summary.merge(requests);
    summary.record_close(close);
    summary
}

/// A file and the data about it.
pub type Item = (SymbolsFileView, FileSpecView);

/// Whether the data about each file is given under the key of the file.
pub open spec fn keys_agree(items: Seq<Item>) -> bool {
    forall|i: int| 0 <= i < items.len() ==> (#[trigger] items[i]).0.key == items[i].1.key
}

/// What is left after the given files, and the batches that were complete, in order.
pub open spec fn batched(batch_size: nat, items: Seq<Item>) -> (BatchesView, Seq<BatchView>)
    decreases items.len(),
{
    if items.len() == 0 {
        (BatchesView::empty(batch_size), Seq::empty())
    } else {
        let (before, batches) = batched(batch_size, items.drop_last());
        let (file, spec) = items.last();
        match before.completed(file, spec) {
            Some(batch) => (before.after(file, spec), batches.push(batch)),
            None => (before.after(file, spec), batches),
        }
    }
}

/// All batches that the given files make.
pub open spec fn batches_of(batch_size: nat, items: Seq<Item>) -> Seq<BatchView> {
    let (left, batches) = batched(batch_size, items);
    match left.rest() {
        Some(batch) => batches.push(batch),
        None => batches,
    }
}

/// The data about the files of several batches, one batch after the other.
pub open spec fn specs_of(batches: Seq<BatchView>) -> Seq<FileSpecView>
    decreases batches.len(),
{
    if batches.len() == 0 {
        Seq::empty()
    } else {
        specs_of(batches.drop_last()) + batches.last().file_specs
    }
}

/// Whether a batch has a file for a key exactly if it has data for it, and under its own key.
pub open spec fn is_consistent(batch: BatchView) -> bool {
    &&& forall|key: Seq<char>| #[trigger]
        batch.sym_files.contains_key(key) <==> exists|i: int|
            0 <= i < batch.file_specs.len() && (#[trigger] batch.file_specs[i]).key == key
    &&& has_own_keys(batch.sym_files)
}

/// Whether every file stands under its own key.
pub open spec fn has_own_keys(map: Map<Seq<char>, SymbolsFileView>) -> bool {
    forall|key: Seq<char>| #[trigger] map.contains_key(key) ==> map[key].key == key
}

/// The number of files in a complete batch.
pub open spec fn full_size(batch_size: nat) -> nat {
    if batch_size == 0 {
        1
    } else {
        batch_size
    }
}

proof fn lemma_with_file(batch: BatchView, file: SymbolsFileView, spec: FileSpecView)
    requires
        is_consistent(batch),
        file.key == spec.key,
    ensures
        is_consistent(batch.with_file(file, spec)),
{
    let longer = batch.with_file(file, spec);
    assert forall|key: Seq<char>| #[trigger]
        longer.sym_files.contains_key(key) <==> exists|i: int|
            0 <= i < longer.file_specs.len() && (#[trigger] longer.file_specs[i]).key == key by {
        if longer.sym_files.contains_key(key) {
            if key == spec.key {
                assert(longer.file_specs[batch.file_specs.len() as int].key == key);
            } else {
                assert(batch.sym_files.contains_key(key));
                let i = choose|i: int|
                    0 <= i < batch.file_specs.len() && (#[trigger] batch.file_specs[i]).key == key;
                assert(longer.file_specs[i].key == key);
            }
        }
        if exists|i: int|
            0 <= i < longer.file_specs.len() && (#[trigger] longer.file_specs[i]).key == key {
            let i = choose|i: int|
                0 <= i < longer.file_specs.len() && (#[trigger] longer.file_specs[i]).key == key;
            if i < batch.file_specs.len() {
                assert(batch.file_specs[i].key == key);
                assert(batch.sym_files.contains_key(key));
            }
        }
    }
    assert forall|key: Seq<char>| #[trigger] longer.sym_files.contains_key(key) implies
        longer.sym_files[key].key == key by {
        if key != file.key {
            assert(batch.sym_files.contains_key(key));
        }
    }
}

proof fn lemma_batched(batch_size: nat, items: Seq<Item>)
    ensures
        ({
            let (left, batches) = batched(batch_size, items);
            &&& left.batch_size == batch_size
            &&& specs_of(batches) + left.current.file_specs == items.map_values(|i: Item| i.1)
            &&& left.current.file_specs.len() < full_size(batch_size)
            &&& forall|i: int|
                0 <= i < batches.len() ==> (#[trigger] batches[i]).file_specs.len() == full_size(
                    batch_size,
                )
            &&& keys_agree(items) ==> is_consistent(left.current)
            &&& keys_agree(items) ==> forall|i: int|
                0 <= i < batches.len() ==> is_consistent(#[trigger] batches[i])
        }),
    decreases items.len(),
{
    let (left, batches) = batched(batch_size, items);
    if items.len() == 0 {
        assert(specs_of(batches) + left.current.file_specs =~= items.map_values(|i: Item| i.1));
    } else {
        let shorter = items.drop_last();
        let (before, earlier) = batched(batch_size, shorter);
        let (file, spec) = items.last();
        lemma_batched(batch_size, shorter);
        assert(items.map_values(|i: Item| i.1) =~= shorter.map_values(|i: Item| i.1).push(spec));
        if keys_agree(items) {
            assert forall|i: int| 0 <= i < shorter.len() implies (#[trigger] shorter[i]).0.key
                == shorter[i].1.key by {
                assert(shorter[i] == items[i]);
            }
            assert(items[items.len() - 1].0.key == items[items.len() - 1].1.key);
            lemma_with_file(before.current, file, spec);
        }
        match before.completed(file, spec) {
            Some(batch) => {
                assert(batches.drop_last() =~= earlier);
                assert(specs_of(batches) + left.current.file_specs =~= specs_of(earlier)
                    + before.current.file_specs.push(spec));
                assert(specs_of(earlier) + before.current.file_specs.push(spec) =~= (specs_of(
                    earlier,
                ) + before.current.file_specs).push(spec));
            },
            None => {
                assert(specs_of(batches) + left.current.file_specs =~= (specs_of(earlier)
                    + before.current.file_specs).push(spec));
            },
        }
    }
}

/// The batches hold the data about all files, in the order of the files. Every batch but the last
/// is complete, and the last is not empty and not larger than the others.
pub proof fn law_batches_hold_all_files(batch_size: nat, items: Seq<Item>)
    ensures
        specs_of(batches_of(batch_size, items)) == items.map_values(|i: Item| i.1),
        forall|i: int|
            0 <= i < batches_of(batch_size, items).len() ==> {
                let len = #[trigger] batches_of(batch_size, items)[i].file_specs.len();
                &&& 0 < len <= full_size(batch_size)
                &&& i + 1 < batches_of(batch_size, items).len() ==> len == full_size(batch_size)
            },
{
    lemma_batched(batch_size, items);
    let (left, batches) = batched(batch_size, items);
    let all = batches_of(batch_size, items);
    match left.rest() {
        Some(batch) => {
            assert(all.drop_last() =~= batches);
        },
        None => {
            assert(specs_of(batches) =~= specs_of(batches) + left.current.file_specs);
        },
    }
}

/// Each batch has a file for exactly the keys that it has data for.
pub proof fn law_batches_are_consistent(batch_size: nat, items: Seq<Item>, i: int)
    requires
        keys_agree(items),
        0 <= i < batches_of(batch_size, items).len(),
    ensures
        is_consistent(batches_of(batch_size, items)[i]),
{
    lemma_batched(batch_size, items);
    let (left, batches) = batched(batch_size, items);
    if i < batches.len() {
        assert(batches_of(batch_size, items)[i] == batches[i]);
    }
}

/// The keys of responses.
pub open spec fn response_keys(list: Seq<ResponseView>) -> Seq<Seq<char>> {
    list.map_values(|r: ResponseView| r.key)
}

/// The keys of jobs.
pub open spec fn job_keys(list: Seq<JobView>) -> Seq<Seq<char>> {
    list.map_values(|j: JobView| j.sym_file.key)
}

/// The keys that have been dealt with: those of the jobs, and those that the summary accounts for.
pub open spec fn dealt_with(progress: Progress) -> Multiset<Seq<char>> {
    accounted(progress.summary).add(job_keys(progress.jobs).to_multiset())
}

proof fn lemma_after(progress: Progress, response: ResponseView)
    requires
        has_own_keys(progress.pending),
    ensures
        has_own_keys(progress.after(response).pending),
        dealt_with(progress.after(response)) == dealt_with(progress).insert(response.key),
{
    broadcast use vstd::seq_lib::group_to_multiset_ensures;

    let key = response.key;
    let end = progress.after(response);
    lemma_accounted_push(progress.summary, key, Err(unknown_key(key)));
    if let ActionView::Error { msg } = response.action {
        lemma_accounted_push(
            progress.summary,
            key,
            Err(ErrorView::InvalidSymbolsServerResponse { msg }),
        );
    }
    if response.action is Upload && progress.pending.contains_key(key) {
        assert(job_keys(end.jobs) =~= job_keys(progress.jobs).push(key));
    }
    assert(dealt_with(end) =~= dealt_with(progress).insert(key));
    assert forall|k: Seq<char>| #[trigger] end.pending.contains_key(k) implies end.pending[k].key
        == k by {
        assert(progress.pending.contains_key(k));
    }
}

proof fn lemma_processed(start: Progress, list: Seq<ResponseView>)
    requires
        has_own_keys(start.pending),
    ensures
        has_own_keys(processed(start, list).pending),
        dealt_with(processed(start, list)) == dealt_with(start).add(
            response_keys(list).to_multiset(),
        ),
    decreases list.len(),
{
    broadcast use vstd::seq_lib::group_to_multiset_ensures;

    if list.len() == 0 {
        lemma_no_keys(response_keys(list));
        assert(dealt_with(start) =~= dealt_with(start).add(response_keys(list).to_multiset()));
    } else {
        lemma_processed(start, list.drop_last());
        lemma_after(processed(start, list.drop_last()), list.last());
        assert(response_keys(list) =~= response_keys(list.drop_last()).push(list.last().key));
        assert(dealt_with(processed(start, list)) =~= dealt_with(start).add(
            response_keys(list).to_multiset(),
        ));
    }
}

/// Each answer of the symbols server leads to exactly one of these: a job for its key, or its key
/// is recorded as skipped or as failed.
pub proof fn law_every_answer_is_processed(
    batch: BatchView,
    summary: SummaryView,
    list: Seq<ResponseView>,
)
    requires
        has_own_keys(batch.sym_files),
    ensures
        dealt_with(processed(before_response(batch, summary), list)) == accounted(summary).add(
            response_keys(list).to_multiset(),
        ),
{
    let start = before_response(batch, summary);
    lemma_processed(start, list);
    lemma_no_keys(job_keys(start.jobs));
    assert(dealt_with(start) =~= accounted(summary));
}

proof fn lemma_jobs(start: Progress, list: Seq<ResponseView>)
    requires
        start.jobs.len() == 0,
        has_own_keys(start.pending),
    ensures
        ({
            let end = processed(start, list);
            &&& job_keys(end.jobs).no_duplicates()
            &&& forall|i: int|
                0 <= i < end.jobs.len() ==> {
                    let file = (#[trigger] end.jobs[i]).sym_file;
                    &&& start.pending.contains_key(file.key)
                    &&& start.pending[file.key] == file
                    &&& !end.pending.contains_key(file.key)
                }
            &&& forall|key: Seq<char>| #[trigger]
                end.pending.contains_key(key) ==> start.pending.contains_key(key)
                    && start.pending[key] == end.pending[key]
        }),
    decreases list.len(),
{
    if list.len() > 0 {
        lemma_jobs(start, list.drop_last());
        let before = processed(start, list.drop_last());
        let end = processed(start, list);
        let response = list.last();
        if response.action is Upload && before.pending.contains_key(response.key) {
            assert(job_keys(end.jobs) =~= job_keys(before.jobs).push(response.key));
            assert forall|i: int| 0 <= i < before.jobs.len() implies job_keys(before.jobs)[i]
                != response.key by {
                assert(!before.pending.contains_key(before.jobs[i].sym_file.key));
            }
        } else {
            assert(end.jobs == before.jobs);
            assert(end.pending == before.pending);
        }
    }
}

/// Only files of the batch are uploaded, each at most once, whatever the symbols server answers.
pub proof fn law_files_are_uploaded_once(
    batch: BatchView,
    summary: SummaryView,
    list: Seq<ResponseView>,
)
    requires
        has_own_keys(batch.sym_files),
    ensures
        ({
            let jobs = processed(before_response(batch, summary), list).jobs;
            &&& job_keys(jobs).no_duplicates()
            &&& forall|i: int|
                0 <= i < jobs.len() ==> {
                    let file = (#[trigger] jobs[i]).sym_file;
                    batch.sym_files.contains_key(file.key) && batch.sym_files[file.key] == file
                }
        }),
{
    lemma_jobs(before_response(batch, summary), list);
}

/// The outcome of the upload of a file.
pub type Outcome = (Seq<char>, Result<(), ErrorView>);

/// The keys of outcomes.
pub open spec fn outcome_keys(outcomes: Seq<Outcome>) -> Seq<Seq<char>> {
    outcomes.map_values(|o: Outcome| o.0)
}

/// The summary with the outcomes of several files added.
pub open spec fn recorded(summary: SummaryView, outcomes: Seq<Outcome>) -> SummaryView
    decreases outcomes.len(),
{
    if outcomes.len() == 0 {
        summary
    } else {
        let (key, result) = outcomes.last();
        recorded(summary, outcomes.drop_last()).with_upload(key, result)
    }
}

proof fn lemma_recorded(summary: SummaryView, outcomes: Seq<Outcome>)
    ensures
        accounted(recorded(summary, outcomes)) =~= accounted(summary).add(
            outcome_keys(outcomes).to_multiset(),
        ),
    decreases outcomes.len(),
{
    broadcast use vstd::seq_lib::group_to_multiset_ensures;

    if outcomes.len() == 0 {
        lemma_no_keys(outcome_keys(outcomes));
    } else {
        let (key, result) = outcomes.last();
        lemma_recorded(summary, outcomes.drop_last());
        lemma_accounted_push(recorded(summary, outcomes.drop_last()), key, result);
        assert(outcome_keys(outcomes) =~= outcome_keys(outcomes.drop_last()).push(key));
    }
}

/// A batch, and the answers of the symbols server for it.
pub type Round = (BatchView, Seq<ResponseView>);

/// What is collected from the answers for several batches: the jobs, and the summary.
pub struct Collected {
    pub jobs: Seq<JobView>,
    pub summary: SummaryView,
}

/// What is collected from the answers for several batches, one batch after the other.
pub open spec fn collected(summary: SummaryView, rounds: Seq<Round>) -> Collected
    decreases rounds.len(),
{
    if rounds.len() == 0 {
        Collected { jobs: Seq::empty(), summary }
    } else {
        let before = collected(summary, rounds.drop_last());
        let (batch, list) = rounds.last();
        let end = processed(before_response(batch, before.summary), list);
        Collected { jobs: before.jobs + end.jobs, summary: end.summary }
    }
}

/// The keys of all answers.
pub open spec fn answered_keys(rounds: Seq<Round>) -> Seq<Seq<char>>
    decreases rounds.len(),
{
    if rounds.len() == 0 {
        Seq::empty()
    } else {
        answered_keys(rounds.drop_last()) + response_keys(rounds.last().1)
    }
}

/// Whether every file of every batch stands under its own key.
pub open spec fn all_have_own_keys(rounds: Seq<Round>) -> bool {
    forall|i: int| 0 <= i < rounds.len() ==> has_own_keys((#[trigger] rounds[i]).0.sym_files)
}

/// Over any number of batches, each answer of the symbols server leads to exactly one of these: a
/// job for its key, or its key is recorded as skipped or as failed. That holds of errors and of
/// answers with unknown keys, too.
pub proof fn law_all_answers_are_processed(summary: SummaryView, rounds: Seq<Round>)
    requires
        all_have_own_keys(rounds),
    ensures
        ({
            let end = collected(summary, rounds);
            accounted(end.summary).add(job_keys(end.jobs).to_multiset()) == accounted(summary).add(
                answered_keys(rounds).to_multiset(),
            )
        }),
    decreases rounds.len(),
{
    let end = collected(summary, rounds);
    if rounds.len() == 0 {
        lemma_no_keys(job_keys(end.jobs));
        lemma_no_keys(answered_keys(rounds));
    } else {
        let shorter = rounds.drop_last();
        let before = collected(summary, shorter);
        let (batch, list) = rounds.last();
        let progress = processed(before_response(batch, before.summary), list);
        assert forall|i: int| 0 <= i < shorter.len() implies has_own_keys(
            (#[trigger] shorter[i]).0.sym_files,
        ) by {
            assert(shorter[i] == rounds[i]);
        }
        assert(has_own_keys(rounds[rounds.len() - 1].0.sym_files));
        law_all_answers_are_processed(summary, shorter);
        law_every_answer_is_processed(batch, before.summary, list);
        assert(job_keys(end.jobs) =~= job_keys(before.jobs) + job_keys(progress.jobs));
        vstd::seq_lib::lemma_multiset_commutative(job_keys(before.jobs), job_keys(progress.jobs));
        vstd::seq_lib::lemma_multiset_commutative(answered_keys(shorter), response_keys(list));
        assert(dealt_with(progress) == accounted(end.summary).add(
            job_keys(progress.jobs).to_multiset(),
        ));
        assert(accounted(end.summary).add(job_keys(end.jobs).to_multiset()) =~= dealt_with(
            progress,
        ).add(job_keys(before.jobs).to_multiset()));
        assert(dealt_with(progress).add(job_keys(before.jobs).to_multiset()) =~= accounted(
            before.summary,
        ).add(job_keys(before.jobs).to_multiset()).add(response_keys(list).to_multiset()));
        assert(accounted(summary).add(answered_keys(shorter).to_multiset()).add(
            response_keys(list).to_multiset(),
        ) =~= accounted(summary).add(answered_keys(rounds).to_multiset()));
    }
}

/// In the end the summary accounts for each answer of the symbols server exactly once, over any
/// number of batches: as uploaded, as skipped or as failed. The uploads may end in any order.
pub proof fn law_every_answer_is_accounted_for(
    rounds: Seq<Round>,
    outcomes: Seq<Outcome>,
    discovery_errors: Seq<InvalidKeyView>,
    close: Result<(), Seq<char>>,
)
    requires
        all_have_own_keys(rounds),
        outcome_keys(outcomes).to_multiset() == job_keys(
            collected(SummaryView::empty(), rounds).jobs,
        ).to_multiset(),
    ensures
        accounted(
            summarized(
                recorded(SummaryView::empty(), outcomes),
                discovery_errors,
                collected(SummaryView::empty(), rounds).summary,
                close,
            ),
        ) == answered_keys(rounds).to_multiset(),
{
    let empty = SummaryView::empty();
    let uploads = recorded(empty, outcomes);
    let end = collected(empty, rounds);
    lemma_recorded(empty, outcomes);
    law_all_answers_are_processed(empty, rounds);
    lemma_accounted_merged(uploads, end.summary);
    lemma_no_keys(Seq::empty());
    assert(accounted(empty) =~= Multiset::empty());
    assert(accounted(summarized(uploads, discovery_errors, end.summary, close)) == accounted(
        uploads.merged(end.summary),
    ));
    assert(accounted(uploads).add(accounted(end.summary)) =~= accounted(end.summary).add(
        job_keys(end.jobs).to_multiset(),
    ));
    assert(accounted(empty).add(answered_keys(rounds).to_multiset()) =~= answered_keys(
        rounds,
    ).to_multiset());
}

/// The data for a file is its key, the number of its bytes, and the digest of all its bytes in
/// hexadecimal digits. So the size of a file that is read in two pieces is the sum of their sizes.
pub proof fn law_spec_describes_whole_content(key: Seq<char>, content: Seq<u8>, more: Seq<u8>)
    ensures
        spec_of(key, content).key == key,
        spec_of(key, content).size == content.len(),
        spec_of(key, content).md5_hash == hex_text(md5_of(content)),
        spec_of(key, content + more).size == spec_of(key, content).size + more.len(),
        spec_of(key, content + more).md5_hash == hex_text(md5_of(content + more)),
{
}

/// Requests, jobs and answers are seen with all their parts.
pub proof fn law_parts_are_seen_as_they_are(
    spec: FileSpecRequest,
    job: UploadJob,
    response: FileSpecResponse,
    url: AbsoluteUrl,
    content_encoding: Option<ContentEncoding>,
    msg: String,
)
    ensures
        spec@ == (FileSpecView { key: spec.key@, size: spec.size as nat, md5_hash: spec.md5_hash@ }),
        job@ == (JobView {
            sym_file: job.sym_file@,
            session_url: job.session_url@,
            content_encoding: job.content_encoding,
        }),
        response@ == (ResponseView { key: response.key@, action: response.action@ }),
        (ActionSpec::Upload { url, content_encoding })@ == (ActionView::Upload {
            url: url@,
            content_encoding,
        }),
        ActionSpec::Skip@ == ActionView::Skip,
        (ActionSpec::Error { msg })@ == (ActionView::Error { msg: msg@ }),
{
}

/// Lists are seen item by item, in their order, and maps key by key.
pub proof fn law_collections_are_seen_item_by_item(
    specs: Seq<FileSpecRequest>,
    list: Seq<FileSpecResponse>,
    out: Seq<UploadJob>,
    map: Map<Seq<char>, SymbolsFile>,
    i: int,
    key: Seq<char>,
)
    ensures
        file_specs(specs).len() == specs.len(),
        0 <= i < specs.len() ==> file_specs(specs)[i] == specs[i]@,
        responses(list).len() == list.len(),
        0 <= i < list.len() ==> responses(list)[i] == list[i]@,
        jobs(out).len() == out.len(),
        0 <= i < out.len() ==> jobs(out)[i] == out[i]@,
        files(map).contains_key(key) <==> map.contains_key(key),
        map.contains_key(key) ==> files(map)[key] == map[key]@,
{
}

/// One more file is in the batch under its key, and its data stands behind that of the others. What
/// the batch has under other keys stays.
pub proof fn law_batch_takes_file(
    batch: BatchView,
    file: SymbolsFileView,
    spec: FileSpecView,
    key: Seq<char>,
)
    ensures
        batch.with_file(file, spec).sym_files.contains_key(file.key),
        batch.with_file(file, spec).sym_files[file.key] == file,
        key != file.key ==> (batch.with_file(file, spec).sym_files.contains_key(key)
            <==> batch.sym_files.contains_key(key)),
        key != file.key && batch.sym_files.contains_key(key) ==> batch.with_file(
            file,
            spec,
        ).sym_files[key] == batch.sym_files[key],
        batch.with_file(file, spec).file_specs == batch.file_specs.push(spec),
{
}

/// A batch is handed out with the file that makes it as large as a batch is to be, and the next file
/// begins a new one. Until then the files stay in the batch.
pub proof fn law_batch_is_handed_out_when_complete(
    batches: BatchesView,
    file: SymbolsFileView,
    spec: FileSpecView,
)
    ensures
        batches.completed(file, spec) is Some <==> batches.current.file_specs.len() + 1
            >= batches.batch_size,
        batches.completed(file, spec) matches Some(batch) ==> batch == batches.current.with_file(
            file,
            spec,
        ) && batches.after(file, spec).current.file_specs.len() == 0 && batches.after(
            file,
            spec,
        ).current.sym_files == Map::<Seq<char>, SymbolsFileView>::empty(),
        batches.completed(file, spec) is None ==> batches.after(file, spec).current
            == batches.current.with_file(file, spec),
        batches.after(file, spec).batch_size == batches.batch_size,
{
}

/// After the last file, the batch that has begun is handed out as it is, unless it has no file.
pub proof fn law_incomplete_batch_is_handed_out_in_the_end(batches: BatchesView)
    ensures
        batches.rest() is Some <==> batches.current.file_specs.len() > 0,
        batches.rest() matches Some(batch) ==> batch == batches.current,
{
}

/// An answer to upload a file makes a job for it with the URL and the content encoding of the
/// answer, if the file is in the batch and no job has been made for it, and changes nothing else.
pub proof fn law_answer_to_upload_makes_job(
    progress: Progress,
    key: Seq<char>,
    url: UrlParts,
    content_encoding: Option<ContentEncoding>,
)
    requires
        progress.pending.contains_key(key),
    ensures
        ({
            let response = ResponseView {
                key,
                action: ActionView::Upload { url, content_encoding },
            };
            let job = JobView {
                sym_file: progress.pending[key],
                session_url: url,
                content_encoding,
            };
            &&& progress.after(response).jobs == progress.jobs.push(job)
            &&& progress.after(response).pending == progress.pending.remove(key)
            &&& progress.after(response).summary == progress.summary
        }),
{
}

/// Any other answer makes no job. A skip is recorded as skipped. An error is recorded as failed with
/// the message of the server, and an unknown key with a message that names it.
pub proof fn law_other_answers_are_recorded(
    progress: Progress,
    key: Seq<char>,
    url: UrlParts,
    content_encoding: Option<ContentEncoding>,
    msg: Seq<char>,
)
    ensures
        progress.after(ResponseView { key, action: ActionView::Skip }) == (Progress {
            summary: SummaryView {
                skipped: progress.summary.skipped.push(key),
                ..progress.summary
            },
            ..progress
        }),
        progress.after(ResponseView { key, action: ActionView::Error { msg } }) == (Progress {
            summary: SummaryView {
                failed: progress.summary.failed.push(key),
                upload_errors: progress.summary.upload_errors.push(
                    ErrorView::InvalidSymbolsServerResponse { msg },
                ),
                ..progress.summary
            },
            ..progress
        }),
        !progress.pending.contains_key(key) ==> progress.after(
            ResponseView { key, action: ActionView::Upload { url, content_encoding } },
        ) == (Progress {
            summary: SummaryView {
                failed: progress.summary.failed.push(key),
                upload_errors: progress.summary.upload_errors.push(
                    ErrorView::InvalidSymbolsServerResponse { msg: "unknown key "@ + key },
                ),
                ..progress.summary
            },
            ..progress
        }),
{
}

/// Answers are processed one after the other, beginning with all files of the batch, without a job
/// and with the summary as it is.
pub proof fn law_answers_are_processed_in_order(
    batch: BatchView,
    summary: SummaryView,
    start: Progress,
    list: Seq<ResponseView>,
    response: ResponseView,
)
    ensures
        before_response(batch, summary).pending == batch.sym_files,
        before_response(batch, summary).jobs.len() == 0,
        before_response(batch, summary).summary == summary,
        processed(start, Seq::empty()) == start,
        processed(start, list.push(response)) == processed(start, list).after(response),
{
    assert(list.push(response).drop_last() =~= list);
}

/// Whether answer number `j` is the first one that asks to upload the file with the key.
pub open spec fn is_first_upload(list: Seq<ResponseView>, j: int, key: Seq<char>) -> bool {
    &&& 0 <= j < list.len()
    &&& list[j].key == key
    &&& list[j].action is Upload
    &&& forall|m: int| 0 <= m < j ==> !((#[trigger] list[m]).key == key && list[m].action is Upload)
}

/// Whether no answer asks to upload the file with the key.
pub open spec fn has_no_upload(list: Seq<ResponseView>, key: Seq<char>) -> bool {
    forall|m: int|
        0 <= m < list.len() ==> !((#[trigger] list[m]).key == key && list[m].action is Upload)
}

/// Whether answer number `j` is what made the job.
pub open spec fn makes_job(list: Seq<ResponseView>, j: int, job: JobView) -> bool {
    &&& is_first_upload(list, j, job.sym_file.key)
    &&& list[j].action == (ActionView::Upload {
        url: job.session_url,
        content_encoding: job.content_encoding,
    })
}

/// Whether some answer is what made the job.
pub open spec fn is_made(list: Seq<ResponseView>, job: JobView) -> bool {
    exists|j: int| makes_job(list, j, job)
}

proof fn lemma_jobs_have_answers(start: Progress, list: Seq<ResponseView>)
    requires
        start.jobs.len() == 0,
        has_own_keys(start.pending),
    ensures
        forall|i: int|
            0 <= i < processed(start, list).jobs.len() ==> is_made(
                list,
                #[trigger] processed(start, list).jobs[i],
            ),
        forall|key: Seq<char>| #[trigger]
            processed(start, list).pending.contains_key(key) <==> start.pending.contains_key(key)
                && has_no_upload(list, key),
    decreases list.len(),
{
    if list.len() > 0 {
        let shorter = list.drop_last();
        let before = processed(start, shorter);
        let end = processed(start, list);
        let response = list.last();
        let last = list.len() - 1;
        lemma_jobs_have_answers(start, shorter);
        lemma_jobs(start, shorter);
        assert forall|i: int| 0 <= i < end.jobs.len() implies is_made(
            list,
            #[trigger] end.jobs[i],
        ) by {
            let job = end.jobs[i];
            if i < before.jobs.len() {
                assert(job == before.jobs[i]);
                assert(is_made(shorter, before.jobs[i]));
                let j = choose|j: int| makes_job(shorter, j, before.jobs[i]);
                assert forall|m: int| 0 <= m < j implies !((#[trigger] list[m]).key
                    == job.sym_file.key && list[m].action is Upload) by {
                    assert(shorter[m] == list[m]);
                }
                assert(makes_job(list, j, job));
            } else {
                assert(before.pending.contains_key(response.key));
                assert(has_no_upload(shorter, response.key));
                assert(start.pending[response.key] == before.pending[response.key]);
                assert(job.sym_file.key == response.key);
                assert forall|m: int| 0 <= m < last implies !((#[trigger] list[m]).key
                    == response.key && list[m].action is Upload) by {
                    assert(shorter[m] == list[m]);
                }
                assert(makes_job(list, last, job));
            }
        }
        assert forall|key: Seq<char>| #[trigger]
            end.pending.contains_key(key) <==> start.pending.contains_key(key) && has_no_upload(
                list,
                key,
            ) by {
            if end.pending.contains_key(key) {
                assert(before.pending.contains_key(key));
                assert forall|m: int| 0 <= m < list.len() implies !((#[trigger] list[m]).key == key
                    && list[m].action is Upload) by {
                    if m < last {
                        assert(shorter[m] == list[m]);
                    }
                }
            }
            if start.pending.contains_key(key) && has_no_upload(list, key) {
                assert forall|m: int| 0 <= m < shorter.len() implies !((#[trigger] shorter[m]).key
                    == key && shorter[m].action is Upload) by {
                    assert(shorter[m] == list[m]);
                }
                assert(has_no_upload(shorter, key));
                assert(before.pending.contains_key(key));
                assert(!(list[last].key == key && list[last].action is Upload));
            }
        }
    }
}

/// Every job carries the URL and the content encoding of the first answer that asks to upload the
/// file with its key.
pub proof fn law_jobs_follow_their_answers(
    batch: BatchView,
    summary: SummaryView,
    list: Seq<ResponseView>,
    i: int,
)
    requires
        has_own_keys(batch.sym_files),
        0 <= i < processed(before_response(batch, summary), list).jobs.len(),
    ensures
        ({
            let job = processed(before_response(batch, summary), list).jobs[i];
            exists|j: int|
                #![trigger list[j]]
                {
                    &&& 0 <= j < list.len()
                    &&& list[j].key == job.sym_file.key
                    &&& list[j].action == (ActionView::Upload {
                        url: job.session_url,
                        content_encoding: job.content_encoding,
                    })
                    &&& forall|m: int|
                        0 <= m < j ==> !((#[trigger] list[m]).key == job.sym_file.key
                            && list[m].action is Upload)
                }
        }),
{
    let start = before_response(batch, summary);
    lemma_jobs_have_answers(start, list);
    let job = processed(start, list).jobs[i];
    assert(is_made(list, job));
    let j = choose|j: int| makes_job(list, j, job);
    assert(list[j].key == job.sym_file.key);
}

/// The first answer that asks to upload a file of the batch makes a job for that file, with the URL
/// and the content encoding of the answer.
pub proof fn law_first_answer_makes_job(
    batch: BatchView,
    summary: SummaryView,
    list: Seq<ResponseView>,
    j: int,
    url: UrlParts,
    content_encoding: Option<ContentEncoding>,
)
    requires
        has_own_keys(batch.sym_files),
        0 <= j < list.len(),
        batch.sym_files.contains_key(list[j].key),
        list[j].action == (ActionView::Upload { url, content_encoding }),
        forall|m: int|
            0 <= m < j ==> !((#[trigger] list[m]).key == list[j].key && list[m].action is Upload),
    ensures
        processed(before_response(batch, summary), list).jobs.contains(
            JobView {
                sym_file: batch.sym_files[list[j].key],
                session_url: url,
                content_encoding,
            },
        ),
    decreases list.len(),
{
    let start = before_response(batch, summary);
    let shorter = list.drop_last();
    let before = processed(start, shorter);
    let end = processed(start, list);
    let job = JobView {
        sym_file: batch.sym_files[list[j].key],
        session_url: url,
        content_encoding,
    };
    if j == list.len() - 1 {
        lemma_jobs_have_answers(start, shorter);
        lemma_jobs(start, shorter);
        assert forall|m: int| 0 <= m < shorter.len() implies !((#[trigger] shorter[m]).key
            == list[j].key && shorter[m].action is Upload) by {
            assert(shorter[m] == list[m]);
        }
        assert(has_no_upload(shorter, list[j].key));
        assert(before.pending.contains_key(list[j].key));
        assert(end.jobs[before.jobs.len() as int] == job);
    } else {
        assert(shorter[j] == list[j]);
        assert forall|m: int| 0 <= m < j implies !((#[trigger] shorter[m]).key == shorter[j].key
            && shorter[m].action is Upload) by {
            assert(shorter[m] == list[m]);
        }
        law_first_answer_makes_job(batch, summary, shorter, j, url, content_encoding);
        let k = choose|k: int| 0 <= k < before.jobs.len() && before.jobs[k] == job;
        assert(end.jobs[k] == job);
    }
}

proof fn lemma_jobs_are_answered(
    start: Progress,
    list: Seq<FileSpecResponse>,
    out: Seq<UploadJob>,
)
    requires
        start.jobs.len() == 0,
        has_own_keys(start.pending),
        jobs(out) == processed(start, responses(list)).jobs,
    ensures
        forall|i: int|
            0 <= i < out.len() ==> exists|j: int|
                0 <= j < list.len() && answers_job(list[j], #[trigger] out[i]),
{
    assert forall|i: int| 0 <= i < out.len() implies exists|j: int|
        0 <= j < list.len() && answers_job(list[j], #[trigger] out[i]) by {
        lemma_jobs_have_answers(start, responses(list));
        assert(jobs(out)[i] == out[i]@);
        assert(is_made(responses(list), jobs(out)[i]));
        let j = choose|j: int| makes_job(responses(list), j, jobs(out)[i]);
        assert(responses(list)[j] == list[j]@);
        assert(answers_job(list[j], out[i]));
    }
}

proof fn lemma_recorded_errors(summary: SummaryView, outcomes: Seq<Outcome>)
    ensures
        recorded(summary, outcomes).upload_errors.len() >= summary.upload_errors.len(),
        recorded(summary, outcomes).upload_errors.len() == summary.upload_errors.len() <==> forall|
            i: int,
        |
            0 <= i < outcomes.len() ==> (#[trigger] outcomes[i]).1 is Ok,
    decreases outcomes.len(),
{
    if outcomes.len() > 0 {
        let shorter = outcomes.drop_last();
        lemma_recorded_errors(summary, shorter);
        if forall|i: int| 0 <= i < outcomes.len() ==> (#[trigger] outcomes[i]).1 is Ok {
            assert forall|i: int| 0 <= i < shorter.len() implies (#[trigger] shorter[i]).1 is Ok by {
                assert(outcomes[i].1 is Ok);
            }
            assert(outcomes[outcomes.len() - 1].1 is Ok);
        }
        if recorded(summary, outcomes).upload_errors.len() == summary.upload_errors.len() {
            assert(outcomes.last().1 is Ok);
            assert forall|i: int| 0 <= i < outcomes.len() implies (#[trigger] outcomes[i]).1 is
                Ok by {
                if i < shorter.len() {
                    assert(shorter[i].1 is Ok);
                }
            }
        }
    }
}

proof fn lemma_answers_are_no_discovery(start: Progress, list: Seq<ResponseView>)
    ensures
        processed(start, list).summary.discovery_errors == start.summary.discovery_errors,
        processed(start, list).summary.uploaded == start.summary.uploaded,
    decreases list.len(),
{
    if list.len() > 0 {
        lemma_answers_are_no_discovery(start, list.drop_last());
    }
}

proof fn lemma_rounds_are_no_discovery(summary: SummaryView, rounds: Seq<Round>)
    ensures
        collected(summary, rounds).summary.discovery_errors == summary.discovery_errors,
    decreases rounds.len(),
{
    if rounds.len() > 0 {
        let (batch, list) = rounds.last();
        let before = collected(summary, rounds.drop_last());
        lemma_rounds_are_no_discovery(summary, rounds.drop_last());
        lemma_answers_are_no_discovery(before_response(batch, before.summary), list);
    }
}

/// The summary holds every error of the discovery, in their order, and no others. It is a success
/// if and only if there was none, every file was uploaded, no answer of the symbols server was an
/// error, and the temporary directory could be removed.
pub proof fn law_summary_holds_discovery_errors(
    rounds: Seq<Round>,
    outcomes: Seq<Outcome>,
    discovery_errors: Seq<InvalidKeyView>,
    close: Result<(), Seq<char>>,
)
    ensures
        ({
            let uploads = recorded(SummaryView::empty(), outcomes);
            let requests = collected(SummaryView::empty(), rounds).summary;
            let summary = summarized(uploads, discovery_errors, requests, close);
            &&& summary.discovery_errors == discovery_errors
            &&& summary.success() <==> discovery_errors.len() == 0 && (forall|i: int|
                0 <= i < outcomes.len() ==> (#[trigger] outcomes[i]).1 is Ok)
                && requests.upload_errors.len() == 0 && close is Ok
        }),
{
    let uploads = recorded(SummaryView::empty(), outcomes);
    let requests = collected(SummaryView::empty(), rounds).summary;
    let summary = summarized(uploads, discovery_errors, requests, close);
    lemma_recorded_errors(SummaryView::empty(), outcomes);
    lemma_rounds_are_no_discovery(SummaryView::empty(), rounds);
    assert(summary.discovery_errors =~= discovery_errors);
}

/// What became of the files, and what the symbols server answered, stands in the summary one after
/// the other. The only error that is added is that of the removal of the temporary directory.
pub proof fn law_summary_holds_uploads_and_requests(
    uploads: SummaryView,
    discovery_errors: Seq<InvalidKeyView>,
    requests: SummaryView,
    msg: Seq<char>,
)
    ensures
        ({
            let removed = summarized(uploads, discovery_errors, requests, Ok(()));
            let kept = summarized(uploads, discovery_errors, requests, Err(msg));
            &&& removed == (SummaryView {
                uploaded: uploads.uploaded + requests.uploaded,
                skipped: uploads.skipped + requests.skipped,
                failed: uploads.failed + requests.failed,
                discovery_errors: discovery_errors + requests.discovery_errors,
                upload_errors: uploads.upload_errors + requests.upload_errors,
            })
            &&& kept == (SummaryView {
                upload_errors: removed.upload_errors.push(ErrorView::IOError(msg)),
                ..removed
            })
        }),
{
}

/// The answers for a batch add no error if and only if each of them is a skip or makes a job: the
/// first answer to upload a file of the batch.
pub proof fn law_errors_come_from_unusable_answers(
    batch: BatchView,
    summary: SummaryView,
    list: Seq<ResponseView>,
)
    requires
        has_own_keys(batch.sym_files),
    ensures
        ({
            let end = processed(before_response(batch, summary), list).summary;
            &&& end.upload_errors.len() >= summary.upload_errors.len()
            &&& end.upload_errors.len() - summary.upload_errors.len() == end.failed.len()
                - summary.failed.len()
            &&& end.upload_errors.len() == summary.upload_errors.len() <==> forall|j: int|
                0 <= j < list.len() ==> (#[trigger] list[j]).action is Skip || (
                batch.sym_files.contains_key(list[j].key) && is_first_upload(list, j, list[j].key))
        }),
    decreases list.len(),
{
    let start = before_response(batch, summary);
    if list.len() > 0 {
        let shorter = list.drop_last();
        let last = list.len() - 1;
        let before = processed(start, shorter);
        let end = processed(start, list);
        law_errors_come_from_unusable_answers(batch, summary, shorter);
        lemma_jobs_have_answers(start, shorter);
        assert forall|j: int, key: Seq<char>| 0 <= j < shorter.len() implies (
        #[trigger] is_first_upload(shorter, j, key) <==> is_first_upload(list, j, key)) by {
            assert(forall|m: int| 0 <= m <= j ==> #[trigger] shorter[m] == list[m]);
            assert(forall|m: int| 0 <= m <= j ==> shorter[m] == #[trigger] list[m]);
        }
        assert(is_first_upload(list, last, list[last].key) <==> list[last].action is Upload
            && has_no_upload(shorter, list[last].key)) by {
            assert(forall|m: int| 0 <= m < last ==> #[trigger] shorter[m] == list[m]);
            assert(forall|m: int| 0 <= m < last ==> shorter[m] == #[trigger] list[m]);
        }
        assert(before.pending.contains_key(list[last].key) <==> batch.sym_files.contains_key(
            list[last].key,
        ) && has_no_upload(shorter, list[last].key));
        if end.summary.upload_errors.len() == summary.upload_errors.len() {
            assert forall|j: int| 0 <= j < list.len() implies (#[trigger] list[j]).action is Skip
                || (batch.sym_files.contains_key(list[j].key) && is_first_upload(
                list,
                j,
                list[j].key,
            )) by {
                if j < last {
                    assert(shorter[j] == list[j]);
                    assert(is_first_upload(shorter, j, list[j].key) <==> is_first_upload(
                        list,
                        j,
                        list[j].key,
                    ));
                }
            }
        }
        if forall|j: int|
            0 <= j < list.len() ==> (#[trigger] list[j]).action is Skip || (
            batch.sym_files.contains_key(list[j].key) && is_first_upload(list, j, list[j].key)) {
            assert forall|j: int| 0 <= j < shorter.len() implies (
            #[trigger] shorter[j]).action is Skip || (batch.sym_files.contains_key(shorter[j].key)
                && is_first_upload(shorter, j, shorter[j].key)) by {
                assert(shorter[j] == list[j]);
                assert(list[j].action is Skip || (batch.sym_files.contains_key(list[j].key)
                    && is_first_upload(list, j, list[j].key)));
                assert(is_first_upload(shorter, j, list[j].key) <==> is_first_upload(
                    list,
                    j,
                    list[j].key,
                ));
            }
            assert(list[last].action is Skip || (batch.sym_files.contains_key(list[last].key)
                && is_first_upload(list, last, list[last].key)));
        }
    }
}

/// Batches are seen as they are, and a batch that is not there is not seen.
pub proof fn law_batches_are_seen_as_they_are(batch: FileBatch)
    ensures
        batch@.sym_files == files(batch.sym_files@),
        batch@.file_specs == file_specs(batch.file_specs@),
        batch_view(Some(batch)) == Some(batch@),
        batch_view(None) is None,
{
}

/// In a batch that is filled file by file, every file stands under its own key.
pub proof fn law_files_stand_under_their_own_keys(
    batch: BatchView,
    file: SymbolsFileView,
    spec: FileSpecView,
)
    ensures
        has_own_keys(BatchView::empty().sym_files),
        has_own_keys(batch.sym_files) ==> has_own_keys(batch.with_file(file, spec).sym_files),
{
    let longer = batch.with_file(file, spec).sym_files;
    if has_own_keys(batch.sym_files) {
        assert forall|key: Seq<char>| #[trigger] longer.contains_key(key) implies longer[key].key
            == key by {
            if key != file.key {
                assert(batch.sym_files.contains_key(key));
            }
        }
    }
}

} // verus!

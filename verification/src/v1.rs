//! The client for version 1 of the upload API, which takes ZIP archives of symbols files.

use crate::base::{self, Method, Request, Retry, UPLOAD_V1};
use crate::decimal::{decimal, law_decimal_reads_back, push_decimal};
use crate::error::{Error, ErrorView};
use crate::keys::KeySet;
use crate::paths::{copy_bytes, join_path, joined};
use crate::summary::{
    accounted, archive_outcome, close_outcome, key_errors, keys_without, lemma_concat_contains,
    lemma_concat_distinct, lemma_contains_count, lemma_distinct_count, lemma_find_last,
    lemma_keys_without, lemma_keys_without_count, lemma_no_keys, lemma_push_contains,
    lemma_same_length, SummaryView, UploadSummary,
};
use crate::sym_files::{InvalidKeyError, InvalidKeyView, SymbolsFile};
use crate::text::texts;
use vstd::multiset::Multiset;
use vstd::prelude::*;
use vstd::utf8::*;

verus! {

/// The default of [`Config::max_connections_v1`].
pub const DEFAULT_MAX_CONNECTIONS_V1: u32 = 3;

/// The default of [`Config::zip_size_threshold_v1`], 64 MiB.
pub const DEFAULT_ZIP_SIZE_THRESHOLD_V1: u64 = 67_108_864;

/// The default of [`Config::retries_v1`].
pub const DEFAULT_RETRIES_V1: usize = 5;

/// The default of [`Config::retry_delay_seconds_v1`].
pub const DEFAULT_RETRY_DELAY_SECONDS_V1: u64 = 60;

/// Configuration for the v1 upload client.
#[derive(Clone, Copy, Debug, PartialEq, Eq, Structural)]
pub struct Config {
    /// The maximum number of concurrent uploads using the v1 upload API.
    pub max_connections_v1: u32,
    /// The ZIP archive size threshold in bytes.
    ///
    /// When building ZIP archives for v1 of the upload API, a new archive is started once the
    /// size of the current archive exceeds this threshold. ZIP archives still can get much
    /// bigger than this value since member files can be big.
    pub zip_size_threshold_v1: u64,
    /// The number of retries for the version 1 upload API.
    ///
    /// On retriable status codes, uploading ZIP archives is retried this number of times, in
    /// addition to the original request. A value of 0 disables retrying.
    pub retries_v1: usize,
    /// The delay in seconds between retries for version 1 of the upload API.
    pub retry_delay_seconds_v1: u64,
}

impl Config {
    /// The configuration that is used unless something else is said.
    pub open spec fn standard() -> Config {
        Config {
            max_connections_v1: DEFAULT_MAX_CONNECTIONS_V1,
            zip_size_threshold_v1: DEFAULT_ZIP_SIZE_THRESHOLD_V1,
            retries_v1: DEFAULT_RETRIES_V1,
            retry_delay_seconds_v1: DEFAULT_RETRY_DELAY_SECONDS_V1,
        }
    }
}

impl Default for Config {
    fn default() -> (res: Self)
        ensures
            res == Config::standard(),
            res.max_connections_v1 == 3,
            res.zip_size_threshold_v1 == 64 * 1024 * 1024,
            res.retries_v1 == 5,
            res.retry_delay_seconds_v1 == 60,
    {
        Config {
            max_connections_v1: DEFAULT_MAX_CONNECTIONS_V1,
            zip_size_threshold_v1: DEFAULT_ZIP_SIZE_THRESHOLD_V1,
            retries_v1: DEFAULT_RETRIES_V1,
            retry_delay_seconds_v1: DEFAULT_RETRY_DELAY_SECONDS_V1,
        }
    }
}

/// The v1 upload client.
pub struct Client {
    pub base: base::Client,
    pub zip_size_threshold: u64,
    pub retry: Retry,
}

impl Client {
    pub fn new(base: base::Client, config: Config) -> (res: Self)
        ensures
            res.base@ == base@,
            res.zip_size_threshold == config.zip_size_threshold_v1,
            res.retry == (Retry {
                retries: config.retries_v1,
                delay_seconds: config.retry_delay_seconds_v1,
                max_connections: Some(config.max_connections_v1),
            }),
    {
        let retry = Retry::builder().max_connections(config.max_connections_v1).retries(
            config.retries_v1,
        ).delay_seconds(config.retry_delay_seconds_v1).build();
        Client { base, zip_size_threshold: config.zip_size_threshold_v1, retry }
    }

    /// The head of the request that uploads an archive.
    pub fn upload_request(&self) -> (res: Request)
        ensures
            res.method == Method::Post,
            res.url@ == self.base@.base_url.below(UPLOAD_V1@),
            res.url@.text() == self.base@.base_url.before_path + self.base@.base_url.path
                + "upload/"@,
            res.header@ == base::AUTH_HEADER@,
            res.token@ == self.base@.auth_token,
    {
        proof {
            base::lemma_paths_are_plain();
        }
        self.base.request(Method::Post, UPLOAD_V1)
    }

    /// The plan for archives in the directory `temp_path`.
    pub fn plan(&self, temp_path: Vec<u8>) -> (res: ArchivePlan)
        ensures
            res@ == PlanView::empty(temp_path@, self.zip_size_threshold),
    {
        ArchivePlan::new(temp_path, self.zip_size_threshold)
    }
}

/// How a member of an archive is stored.
#[derive(Clone, Copy, Debug, PartialEq, Eq, Structural)]
pub enum Compression {
    Stored,
    Deflated,
}

/// Choose how a symbols file is stored in an archive. Files that are already compressed are
/// stored as they are.
pub fn compression_for(file: &SymbolsFile) -> (res: Compression)
    ensures
        res == (if file@.is_compressed() {
            Compression::Stored
        } else {
            Compression::Deflated
        }),
{
    if file.is_compressed() {
        Compression::Stored
    } else {
        Compression::Deflated
    }
}

/// A ZIP archive of symbols files.
#[derive(Debug)]
pub struct Archive {
    /// The file name, under which the archive is uploaded.
    pub name: String,
    /// The path.
    pub path: Vec<u8>,
    /// The keys of the files in the archive.
    pub keys: Vec<String>,
}

/// The name, the path and the keys of an archive.
pub struct ArchiveView {
    pub name: Seq<char>,
    pub path: Seq<u8>,
    pub keys: Seq<Seq<char>>,
}

impl View for Archive {
    type V = ArchiveView;

    open spec fn view(&self) -> ArchiveView {
        ArchiveView { name: self.name@, path: self.path@, keys: texts(self.keys@) }
    }
}

/// The name of archive number `i`.
pub open spec fn archive_name(i: nat) -> Seq<char> {
    "symbols-"@ + decimal(i) + ".zip"@
}

/// The view of an archive, if there is one.
pub open spec fn archive_view(archive: Option<Archive>) -> Option<ArchiveView> {
    match archive {
        Some(a) => Some(a@),
        None => None,
    }
}

/// How symbols files are put into archives.
pub struct ArchivePlan {
    temp_path: Vec<u8>,
    threshold: u64,
    next: u32,
    current: Option<Archive>,
}

/// The state of a plan: where the archives lie, the size above which an archive is full, the
/// number of archives so far, and the archive that is open.
pub struct PlanView {
    pub temp_path: Seq<u8>,
    pub threshold: u64,
    pub next: nat,
    pub current: Option<ArchiveView>,
}

impl View for ArchivePlan {
    type V = PlanView;

    closed spec fn view(&self) -> PlanView {
        PlanView {
            temp_path: self.temp_path@,
            threshold: self.threshold,
            next: self.next as nat,
            current: archive_view(self.current),
        }
    }
}

impl PlanView {
    /// A plan without archives.
    pub open spec fn empty(temp_path: Seq<u8>, threshold: u64) -> PlanView {
        PlanView { temp_path, threshold, next: 0, current: None }
    }

    /// The archive that is started next.
    pub open spec fn fresh(self) -> ArchiveView {
        ArchiveView {
            name: archive_name(self.next),
            path: joined(self.temp_path, encode_utf8(archive_name(self.next))),
            keys: Seq::empty(),
        }
    }

    /// The plan with an open archive: the one that is open, or a fresh one.
    pub open spec fn begun(self) -> PlanView {
        match self.current {
            Some(_) => self,
            None => PlanView { next: self.next + 1, current: Some(self.fresh()), ..self },
        }
    }

    /// The plan with a key added to the open archive.
    pub open spec fn with_key(self, key: Seq<char>) -> PlanView {
        let archive = self.current->0;
        PlanView {
            current: Some(ArchiveView { keys: archive.keys.push(key), ..archive }),
            ..self
        }
    }

    /// Whether the open archive, which has the given size, is full: it exceeds the threshold.
    pub open spec fn is_full(self, size: u64) -> bool {
        size > self.threshold
    }

    /// The plan without an open archive.
    pub open spec fn closed(self) -> PlanView {
        PlanView { current: None, ..self }
    }
}

impl ArchivePlan {
    pub fn new(temp_path: Vec<u8>, threshold: u64) -> (res: Self)
        ensures
            res@ == PlanView::empty(temp_path@, threshold),
    {
        ArchivePlan { temp_path, threshold, next: 0, current: None }
    }

    /// The number of archives that have been started.
    pub fn count(&self) -> (res: u32)
        ensures
            res == self@.next,
    {
        self.next
    }

    /// Make sure that an archive is open for the next file. The result is the path of the
    /// archive that is to be created, or `None` if one is open already.
    pub fn begin(&mut self) -> (res: Option<Vec<u8>>)
        requires
            old(self)@.current is None ==> old(self)@.next < i32::MAX,
        ensures
            final(self)@ == old(self)@.begun(),
            res is Some <==> old(self)@.current is None,
            res matches Some(path) ==> path@ == old(self)@.fresh().path,
    {
        if self.current.is_some() {
            return None;
        }
        let mut name = "symbols-".to_owned();
        push_decimal(&mut name, self.next as u64);
        name.append(".zip");
        let path = join_path(self.temp_path.as_slice(), name.as_str().as_bytes());
        let created = copy_bytes(path.as_slice());
        self.next = self.next + 1;
        let archive = Archive { name, path, keys: Vec::new() };
        assert(texts(archive.keys@) =~= Seq::<Seq<char>>::empty());
        self.current = Some(archive);
        Some(created)
    }

    /// Take note that a file was added to the open archive.
    pub fn added(&mut self, file: SymbolsFile)
        requires
            old(self)@.current is Some,
        ensures
            final(self)@ == old(self)@.with_key(file@.key),
    {
        let mut archive = self.current.take().unwrap();
        let ghost before = archive.keys@;
        archive.keys.push(file.into_key());
        assert(texts(archive.keys@) =~= texts(before).push(file@.key));
        self.current = Some(archive);
    }

    /// Decide what to do now that the open archive has the given size. An archive that is full
    /// is handed out: it is to be finished and uploaded.
    pub fn measured(&mut self, size: u64) -> (res: Option<Archive>)
        requires
            old(self)@.current is Some,
        ensures
            old(self)@.is_full(size) ==> archive_view(res) == old(self)@.current && final(self)@
                == old(self)@.closed(),
            !old(self)@.is_full(size) ==> res is None && final(self)@ == old(self)@,
            res is Some <==> size > old(self)@.threshold,
    {
        if size > self.threshold {
            self.current.take()
        } else {
            None
        }
    }

    /// The archive that is still open when all files have been added.
    pub fn finish(self) -> (res: Option<Archive>)
        ensures
            archive_view(res) == self@.current,
    {
        self.current
    }
}

/// What became of an archive: the keys of its files, and the keys that the server skipped or the
/// error.
pub type ArchiveOutcome = (Vec<String>, Result<KeySet, Error>);

/// What became of an archive.
pub type OutcomeView = (Seq<Seq<char>>, Result<Seq<Seq<char>>, ErrorView>);

/// The views of a list of outcomes.
pub open spec fn outcomes(list: Seq<ArchiveOutcome>) -> Seq<OutcomeView> {
    list.map_values(|o: ArchiveOutcome| (texts(o.0@), archive_outcome(o.1)))
}

/// The summary with the outcomes of several archives added.
pub open spec fn recorded(summary: SummaryView, list: Seq<OutcomeView>) -> SummaryView
    decreases list.len(),
{
    if list.len() == 0 {
        summary
    } else {
        let (keys, result) = list.last();
        recorded(summary, list.drop_last()).with_archive(keys, result)
    }
}

/// The summary of an upload: what became of the archives, what was met during discovery, and
/// whether the temporary directory could be removed.
pub open spec fn summarized(
    list: Seq<OutcomeView>,
    discovery_errors: Seq<InvalidKeyView>,
    close: Result<(), Seq<char>>,
) -> SummaryView {
    recorded(SummaryView::empty(), list).with_discovery(discovery_errors).with_close(close)
}

/// Sum up an upload: what became of the archives, what was met during discovery, and whether the
/// temporary directory could be removed.
pub fn summarize(
    list: Vec<ArchiveOutcome>,
    discovery_errors: Vec<InvalidKeyError>,
    close: Result<(), String>,
) -> (res: UploadSummary)
    ensures
        res@ == summarized(
            outcomes(list@),
            key_errors(discovery_errors@),
            close_outcome(close),
        ),
        res.discovery_errors@ == discovery_errors@,
{
    let mut summary = UploadSummary::new();
    assert(outcomes(list@.take(0)) =~= Seq::<OutcomeView>::empty());
    for outcome in it: list
        invariant
            it.seq() == list@,
            summary@ == recorded(
                SummaryView::empty(),
                outcomes(list@.take(it.index() as int)),
            ),
    {
        let ghost i = it.index() as int;
        assert(outcomes(list@.take(i + 1)).drop_last() =~= outcomes(list@.take(i)));
        assert(outcomes(list@.take(i + 1)).last() == (
            texts(outcome.0@),
            archive_outcome(outcome.1),
        ));
        let (keys, result) = outcome;
        summary.record_archive(keys, result);
    }
    assert(list@.take(list@.len() as int) =~= list@);
    summary.record_discovery(discovery_errors);
    summary.record_close(close);
    summary
}

/// A file that was added to an archive: its key, and the size of the archive afterwards.
pub type Addition = (Seq<char>, u64);

/// The state of the plan after the given files, and the archives that were full, in order.
pub open spec fn planned(
    temp_path: Seq<u8>,
    threshold: u64,
    files: Seq<Addition>,
) -> (PlanView, Seq<ArchiveView>)
    decreases files.len(),
{
    if files.len() == 0 {
        (PlanView::empty(temp_path, threshold), Seq::empty())
    } else {
        let (before, archives) = planned(temp_path, threshold, files.drop_last());
        let (key, size) = files.last();
        let plan = before.begun().with_key(key);
        if plan.is_full(size) {
            (plan.closed(), archives.push(plan.current->0))
        } else {
            (plan, archives)
        }
    }
}

/// All archives that the given files make, the one that is open at the end included.
pub open spec fn archives_of(
    temp_path: Seq<u8>,
    threshold: u64,
    files: Seq<Addition>,
) -> Seq<ArchiveView> {
    let (plan, archives) = planned(temp_path, threshold, files);
    match plan.current {
        Some(archive) => archives.push(archive),
        None => archives,
    }
}

/// The keys of archives, one archive after the other.
pub open spec fn keys_of(archives: Seq<ArchiveView>) -> Seq<Seq<char>>
    decreases archives.len(),
{
    if archives.len() == 0 {
        Seq::empty()
    } else {
        keys_of(archives.drop_last()) + archives.last().keys
    }
}

/// The number of files after which the archive was full.
pub open spec fn full_count(threshold: u64, files: Seq<Addition>) -> nat
    decreases files.len(),
{
    if files.len() == 0 {
        0
    } else {
        full_count(threshold, files.drop_last()) + if files.last().1 > threshold {
            1nat
        } else {
            0nat
        }
    }
}

proof fn lemma_keys_of_push(archives: Seq<ArchiveView>, archive: ArchiveView)
    ensures
        keys_of(archives.push(archive)) == keys_of(archives) + archive.keys,
{
    assert(archives.push(archive).drop_last() =~= archives);
}

proof fn lemma_planned(temp_path: Seq<u8>, threshold: u64, files: Seq<Addition>)
    ensures
        ({
            let (plan, archives) = planned(temp_path, threshold, files);
            let all = archives_of(temp_path, threshold, files);
            &&& plan.temp_path == temp_path
            &&& plan.threshold == threshold
            &&& keys_of(all) == files.map_values(|f: Addition| f.0)
            &&& plan.next == all.len()
            &&& archives.len() == full_count(threshold, files)
            &&& plan.current is Some <==> files.len() > 0 && files.last().1 <= threshold
            &&& forall|i: int|
                0 <= i < all.len() ==> {
                    &&& (#[trigger] all[i]).name == archive_name(i as nat)
                    &&& all[i].path == joined(temp_path, encode_utf8(archive_name(i as nat)))
                    &&& all[i].keys.len() > 0
                }
        }),
    decreases files.len(),
{
    let (plan, archives) = planned(temp_path, threshold, files);
    let all = archives_of(temp_path, threshold, files);
    if files.len() == 0 {
        assert(keys_of(all) =~= files.map_values(|f: Addition| f.0));
    } else {
        let shorter = files.drop_last();
        let (before, earlier) = planned(temp_path, threshold, shorter);
        let all_before = archives_of(temp_path, threshold, shorter);
        let (key, size) = files.last();
        let added = before.begun().with_key(key);
        let archive = added.current->0;
        lemma_planned(temp_path, threshold, shorter);
        assert(files.map_values(|f: Addition| f.0) =~= shorter.map_values(
            |f: Addition| f.0,
        ).push(key));
        assert(all =~= earlier.push(archive));
        lemma_keys_of_push(earlier, archive);
        if before.current is Some {
            lemma_keys_of_push(earlier, before.current->0);
            assert(all_before == earlier.push(before.current->0));
            assert(all_before[earlier.len() as int] == before.current->0);
            assert(archive.keys == before.current->0.keys.push(key));
            assert(keys_of(all) =~= keys_of(all_before).push(key));
        } else {
            assert(all_before == earlier);
            assert(archive.keys =~= seq![key]);
            assert(keys_of(all) =~= keys_of(all_before).push(key));
        }
        assert forall|i: int| 0 <= i < all.len() implies {
            &&& (#[trigger] all[i]).name == archive_name(i as nat)
            &&& all[i].path == joined(temp_path, encode_utf8(archive_name(i as nat)))
            &&& all[i].keys.len() > 0
        } by {
            if i < earlier.len() {
                assert(all[i] == earlier[i]);
                assert(all_before[i] == earlier[i]);
            }
        }
    }
}

/// The archives hold the keys of all files, each as often as it came, in the order of the files,
/// and no archive is empty.
pub proof fn law_archives_hold_all_files(temp_path: Seq<u8>, threshold: u64, files: Seq<Addition>)
    ensures
        keys_of(archives_of(temp_path, threshold, files)) == files.map_values(
            |f: Addition| f.0,
        ),
        forall|i: int|
            0 <= i < archives_of(temp_path, threshold, files).len() ==> #[trigger] archives_of(
                temp_path,
                threshold,
                files,
            )[i].keys.len() > 0,
{
    lemma_planned(temp_path, threshold, files);
}

/// A new archive is started once the size of the current archive exceeds the threshold. So there
/// are as many archives as times the threshold was exceeded, and one more if the last file did
/// not exceed it.
pub proof fn law_archive_is_closed_above_threshold(
    temp_path: Seq<u8>,
    threshold: u64,
    files: Seq<Addition>,
)
    ensures
        archives_of(temp_path, threshold, files).len() == full_count(threshold, files) + (if
        files.len() > 0 && files.last().1 <= threshold {
            1nat
        } else {
            0nat
        }),
{
    lemma_planned(temp_path, threshold, files);
}

/// No two archives have the same name.
pub proof fn law_archive_names_differ(
    temp_path: Seq<u8>,
    threshold: u64,
    files: Seq<Addition>,
    i: int,
    j: int,
)
    requires
        0 <= i < j < archives_of(temp_path, threshold, files).len(),
        j <= u64::MAX,
    ensures
        archives_of(temp_path, threshold, files)[i].name != archives_of(
            temp_path,
            threshold,
            files,
        )[j].name,
{
    lemma_planned(temp_path, threshold, files);
    let all = archives_of(temp_path, threshold, files);
    assert(all[i].name == archive_name(i as nat));
    assert(all[j].name == archive_name(j as nat));
    lemma_archive_name(i as nat);
    lemma_archive_name(j as nat);
    law_decimal_reads_back(i as u64);
    law_decimal_reads_back(j as u64);
}

proof fn lemma_recorded(list: Seq<OutcomeView>, i: int, key: Seq<char>)
    requires
        0 <= i < list.len(),
        list[i].0.contains(key),
    ensures
        ({
            let summary = recorded(SummaryView::empty(), list);
            match list[i].1 {
                Ok(_) => summary.uploaded.contains(key) || summary.skipped.contains(key),
                Err(e) => summary.failed.contains(key) && summary.upload_errors.contains(e),
            }
        }),
    decreases list.len(),
{
    let before = recorded(SummaryView::empty(), list.drop_last());
    let summary = recorded(SummaryView::empty(), list);
    let (keys, result) = list.last();
    if i == list.len() - 1 {
        match result {
            Ok(skipped) => {
                lemma_keys_without(keys, skipped);
                lemma_concat_contains(before.uploaded, keys_without(keys, skipped), key);
                lemma_concat_contains(before.skipped, skipped, key);
                assert(keys_without(keys, skipped).contains(key) || skipped.contains(key));
            },
            Err(e) => {
                lemma_concat_contains(before.failed, keys, key);
                lemma_push_contains(before.upload_errors, e, e);
            },
        }
    } else {
        lemma_recorded(list.drop_last(), i, key);
        match result {
            Ok(skipped) => {
                lemma_concat_contains(before.uploaded, keys_without(keys, skipped), key);
                lemma_concat_contains(before.skipped, skipped, key);
            },
            Err(e) => {
                lemma_concat_contains(before.failed, keys, key);
                if let Err(f) = list[i].1 {
                    lemma_push_contains(before.upload_errors, e, f);
                }
            },
        }
    }
}

/// The summary accounts for every file of every archive: it is uploaded or skipped if the archive
/// was taken, and it failed, with the error of the archive, if it was not.
pub proof fn law_every_file_is_accounted_for(
    list: Seq<OutcomeView>,
    discovery_errors: Seq<InvalidKeyView>,
    close: Result<(), Seq<char>>,
    i: int,
    key: Seq<char>,
)
    requires
        0 <= i < list.len(),
        list[i].0.contains(key),
    ensures
        ({
            let summary = summarized(list, discovery_errors, close);
            match list[i].1 {
                Ok(_) => summary.uploaded.contains(key) || summary.skipped.contains(key),
                Err(e) => summary.failed.contains(key) && summary.upload_errors.contains(e),
            }
        }),
{
    lemma_recorded(list, i, key);
    if let Err(msg) = close {
        if let Err(e) = list[i].1 {
            lemma_push_contains(
                recorded(SummaryView::empty(), list).upload_errors,
                ErrorView::IOError(msg),
                e,
            );
        }
    }
}

/// The keys of all archives, one archive after the other.
pub open spec fn files_of(list: Seq<OutcomeView>) -> Seq<Seq<char>>
    decreases list.len(),
{
    if list.len() == 0 {
        Seq::empty()
    } else {
        files_of(list.drop_last()) + list.last().0
    }
}

/// Whether the keys that the server skipped are keys of the archive, none of them twice.
pub open spec fn skips_own_files(outcome: OutcomeView) -> bool {
    outcome.1 matches Ok(skipped) ==> {
        &&& skipped.no_duplicates()
        &&& forall|key: Seq<char>| #[trigger] skipped.contains(key) ==> outcome.0.contains(key)
    }
}

proof fn lemma_accounted_archives(list: Seq<OutcomeView>)
    requires
        files_of(list).no_duplicates(),
        forall|i: int| 0 <= i < list.len() ==> skips_own_files(#[trigger] list[i]),
    ensures
        accounted(recorded(SummaryView::empty(), list)) == files_of(list).to_multiset(),
    decreases list.len(),
{
    let summary = recorded(SummaryView::empty(), list);
    if list.len() == 0 {
        lemma_no_keys(Seq::empty());
        assert(accounted(summary) =~= files_of(list).to_multiset());
    } else {
        let shorter = list.drop_last();
        let (keys, result) = list.last();
        let before = recorded(SummaryView::empty(), shorter);
        lemma_concat_distinct(files_of(shorter), keys);
        assert forall|i: int| 0 <= i < shorter.len() implies skips_own_files(
            #[trigger] shorter[i],
        ) by {
            assert(shorter[i] == list[i]);
        }
        lemma_accounted_archives(shorter);
        vstd::seq_lib::lemma_multiset_commutative(files_of(shorter), keys);
        assert(skips_own_files(list[list.len() - 1]));
        match result {
            Ok(skipped) => {
                let uploaded = keys_without(keys, skipped);
                lemma_keys_without_count(keys, skipped);
                vstd::seq_lib::lemma_multiset_commutative(before.uploaded, uploaded);
                vstd::seq_lib::lemma_multiset_commutative(before.skipped, skipped);
                assert(accounted(summary) =~= accounted(before).add(
                    uploaded.to_multiset().add(skipped.to_multiset()),
                ));
            },
            Err(_) => {
                vstd::seq_lib::lemma_multiset_commutative(before.failed, keys);
                assert(accounted(summary) =~= accounted(before).add(keys.to_multiset()));
            },
        }
    }
}

/// Every file is uploaded, skipped or failed, it is only one of them, and it is listed once. This
/// is so if no key occurs twice, and the server skips only what it was sent.
pub proof fn law_files_are_partitioned(
    list: Seq<OutcomeView>,
    discovery_errors: Seq<InvalidKeyView>,
    close: Result<(), Seq<char>>,
    key: Seq<char>,
)
    requires
        files_of(list).no_duplicates(),
        forall|i: int| 0 <= i < list.len() ==> skips_own_files(#[trigger] list[i]),
    ensures
        ({
            let summary = summarized(list, discovery_errors, close);
            let uploaded = summary.uploaded.to_multiset().count(key);
            let skipped = summary.skipped.to_multiset().count(key);
            let failed = summary.failed.to_multiset().count(key);
            uploaded + skipped + failed == (if files_of(list).contains(key) {
                1nat
            } else {
                0nat
            })
        }),
{
    let recorded = recorded(SummaryView::empty(), list);
    lemma_accounted_archives(list);
    lemma_distinct_count(files_of(list), key);
    assert(accounted(recorded).count(key) == recorded.uploaded.to_multiset().count(key)
        + recorded.skipped.to_multiset().count(key) + recorded.failed.to_multiset().count(key));
}

/// How often each key and each error is recorded, without their order.
#[verifier::ext_equal]
pub struct Tally {
    pub uploaded: Multiset<Seq<char>>,
    pub skipped: Multiset<Seq<char>>,
    pub failed: Multiset<Seq<char>>,
    pub upload_errors: Multiset<ErrorView>,
}

/// How often each key and each error is recorded in a summary.
pub open spec fn tally(summary: SummaryView) -> Tally {
    Tally {
        uploaded: summary.uploaded.to_multiset(),
        skipped: summary.skipped.to_multiset(),
        failed: summary.failed.to_multiset(),
        upload_errors: summary.upload_errors.to_multiset(),
    }
}

impl Tally {
    /// Both tallies together.
    pub open spec fn plus(self, other: Tally) -> Tally {
        Tally {
            uploaded: self.uploaded.add(other.uploaded),
            skipped: self.skipped.add(other.skipped),
            failed: self.failed.add(other.failed),
            upload_errors: self.upload_errors.add(other.upload_errors),
        }
    }
}

/// What one archive adds to a summary.
pub open spec fn share(outcome: OutcomeView) -> Tally {
    tally(SummaryView::empty().with_archive(outcome.0, outcome.1))
}

proof fn lemma_share(summary: SummaryView, outcome: OutcomeView)
    ensures
        tally(summary.with_archive(outcome.0, outcome.1)) == tally(summary).plus(share(outcome)),
{
    broadcast use vstd::seq_lib::group_to_multiset_ensures;

    let (keys, result) = outcome;
    let empty = SummaryView::empty();
    let alone = empty.with_archive(keys, result);
    let none = Seq::<ErrorView>::empty();
    lemma_no_keys(Seq::empty());
    assert(none.to_multiset() =~= Multiset::<ErrorView>::empty()) by {
        assert forall|e: ErrorView| #[trigger] none.to_multiset().count(e) == 0 by {
            lemma_contains_count(none, e);
        }
    }
    match result {
        Ok(skipped) => {
            let uploaded = keys_without(keys, skipped);
            vstd::seq_lib::lemma_multiset_commutative(summary.uploaded, uploaded);
            vstd::seq_lib::lemma_multiset_commutative(summary.skipped, skipped);
            assert(alone.uploaded =~= uploaded);
            assert(alone.skipped =~= skipped);
        },
        Err(e) => {
            vstd::seq_lib::lemma_multiset_commutative(summary.failed, keys);
            assert(alone.failed =~= keys);
        },
    }
    assert(tally(summary.with_archive(keys, result)) =~= tally(summary).plus(share(outcome)));
}

proof fn lemma_tally_without(list: Seq<OutcomeView>, i: int)
    requires
        0 <= i < list.len(),
    ensures
        tally(recorded(SummaryView::empty(), list)) == tally(
            recorded(SummaryView::empty(), list.remove(i)),
        ).plus(share(list[i])),
    decreases list.len(),
{
    let empty = SummaryView::empty();
    let shorter = list.drop_last();
    let last = list.last();
    lemma_share(recorded(empty, shorter), last);
    if i == list.len() - 1 {
        assert(list.remove(i) =~= shorter);
    } else {
        lemma_tally_without(shorter, i);
        assert(list.remove(i).drop_last() =~= shorter.remove(i));
        assert(list.remove(i).last() == last);
        lemma_share(recorded(empty, shorter.remove(i)), last);
        let rest = tally(recorded(empty, shorter.remove(i)));
        assert(rest.plus(share(list[i])).plus(share(last)) =~= rest.plus(share(last)).plus(
            share(list[i]),
        ));
    }
}

proof fn lemma_tally_permuted(a: Seq<OutcomeView>, b: Seq<OutcomeView>)
    requires
        a.to_multiset() == b.to_multiset(),
    ensures
        tally(recorded(SummaryView::empty(), a)) == tally(recorded(SummaryView::empty(), b)),
    decreases a.len(),
{
    lemma_same_length(a, b);
    if a.len() > 0 {
        let i = lemma_find_last(a, b);
        lemma_tally_permuted(a.drop_last(), b.remove(i));
        lemma_tally_without(b, i);
        lemma_share(recorded(SummaryView::empty(), a.drop_last()), a.last());
    }
}

/// The order in which the uploads of archives end does not matter: the summary lists the same keys
/// as uploaded, as skipped and as failed, and the same errors, each as often.
pub proof fn law_order_does_not_matter(
    a: Seq<OutcomeView>,
    b: Seq<OutcomeView>,
    discovery_errors: Seq<InvalidKeyView>,
    close: Result<(), Seq<char>>,
)
    requires
        a.to_multiset() == b.to_multiset(),
    ensures
        tally(summarized(a, discovery_errors, close)) == tally(
            summarized(b, discovery_errors, close),
        ),
        summarized(a, discovery_errors, close).success() == summarized(
            b,
            discovery_errors,
            close,
        ).success(),
{
    broadcast use vstd::seq_lib::group_to_multiset_ensures;

    lemma_tally_permuted(a, b);
    let of_a = recorded(SummaryView::empty(), a);
    let of_b = recorded(SummaryView::empty(), b);
    assert(tally(of_a).upload_errors == tally(of_b).upload_errors);
    lemma_same_length(of_a.upload_errors, of_b.upload_errors);
}

proof fn lemma_archive_name(i: nat)
    ensures
        archive_name(i).subrange(8, archive_name(i).len() - 4) == decimal(i),
{
    reveal_strlit("symbols-");
    reveal_strlit(".zip");
    assert(archive_name(i).subrange(8, archive_name(i).len() - 4) =~= decimal(i));
}

/// An archive that is begun has the next number in its name, lies in the directory of the plan, and
/// is empty. If an archive is open, none is begun.
pub proof fn law_archive_is_begun(plan: PlanView)
    ensures
        plan.current is Some ==> plan.begun() == plan,
        plan.current is None ==> plan.begun().current == Some(
            ArchiveView {
                name: "symbols-"@ + decimal(plan.next) + ".zip"@,
                path: joined(
                    plan.temp_path,
                    encode_utf8("symbols-"@ + decimal(plan.next) + ".zip"@),
                ),
                keys: Seq::empty(),
            },
        ),
        plan.current is None ==> plan.begun().next == plan.next + 1,
        plan.current is None ==> plan.fresh().path == plan.begun().current->0.path,
        plan.begun().temp_path == plan.temp_path,
        plan.begun().threshold == plan.threshold,
{
}

/// A file that is added stands behind the others in the open archive, and nothing else changes.
pub proof fn law_file_is_added(plan: PlanView, key: Seq<char>)
    requires
        plan.current is Some,
    ensures
        plan.with_key(key).current is Some,
        plan.with_key(key).current->0.keys == plan.current->0.keys.push(key),
        plan.with_key(key).current->0.name == plan.current->0.name,
        plan.with_key(key).current->0.path == plan.current->0.path,
        plan.with_key(key).next == plan.next,
        plan.with_key(key).temp_path == plan.temp_path,
        plan.with_key(key).threshold == plan.threshold,
{
}

/// An archive is full if its size exceeds the threshold, and not before. A plan whose archive was
/// closed has no open archive, and begins the next one with the next number.
pub proof fn law_archive_is_full_above_threshold(plan: PlanView, size: u64)
    ensures
        plan.is_full(size) <==> plan.threshold < size,
        plan.closed().current is None,
        plan.closed().next == plan.next,
        plan.closed().temp_path == plan.temp_path,
        plan.closed().threshold == plan.threshold,
{
}

/// A plan begins without an archive, and numbers the archives from zero.
pub proof fn law_plan_begins_without_archive(temp_path: Seq<u8>, threshold: u64)
    ensures
        PlanView::empty(temp_path, threshold).current is None,
        PlanView::empty(temp_path, threshold).next == 0,
        PlanView::empty(temp_path, threshold).temp_path == temp_path,
        PlanView::empty(temp_path, threshold).threshold == threshold,
{
}

/// Archives and outcomes are seen with all their parts, and lists of them item by item.
pub proof fn law_archives_are_seen_as_they_are(
    archive: Archive,
    list: Seq<ArchiveOutcome>,
    i: int,
)
    ensures
        archive_view(Some(archive)) == Some(
            ArchiveView {
                name: archive.name@,
                path: archive.path@,
                keys: texts(archive.keys@),
            },
        ),
        archive_view(None) is None,
        outcomes(list).len() == list.len(),
        0 <= i < list.len() ==> outcomes(list)[i].0 == texts(list[i].0@),
        0 <= i < list.len() ==> (match list[i].1 {
            Ok(skipped) => outcomes(list)[i].1 == Ok::<Seq<Seq<char>>, ErrorView>(skipped@),
            Err(e) => outcomes(list)[i].1 == Err::<Seq<Seq<char>>, ErrorView>(e@),
        }),
{
}

/// The outcomes of the archives are recorded one after the other.
pub proof fn law_archives_are_recorded_in_order(
    summary: SummaryView,
    list: Seq<OutcomeView>,
    outcome: OutcomeView,
)
    ensures
        recorded(summary, Seq::empty()) == summary,
        recorded(summary, list.push(outcome)) == recorded(summary, list).with_archive(
            outcome.0,
            outcome.1,
        ),
{
    assert(list.push(outcome).drop_last() =~= list);
}

proof fn lemma_recorded_errors(summary: SummaryView, list: Seq<OutcomeView>)
    ensures
        recorded(summary, list).upload_errors.len() >= summary.upload_errors.len(),
        recorded(summary, list).upload_errors.len() == summary.upload_errors.len() <==> forall|
            i: int,
        |
            0 <= i < list.len() ==> (#[trigger] list[i]).1 is Ok,
    decreases list.len(),
{
    if list.len() > 0 {
        let shorter = list.drop_last();
        lemma_recorded_errors(summary, shorter);
        assert forall|i: int| 0 <= i < shorter.len() implies #[trigger] shorter[i] == list[i] by {
        }
        if forall|i: int| 0 <= i < list.len() ==> (#[trigger] list[i]).1 is Ok {
            assert forall|i: int| 0 <= i < shorter.len() implies (#[trigger] shorter[i]).1 is Ok by {
                assert(list[i].1 is Ok);
            }
            assert(list[list.len() - 1].1 is Ok);
        }
        if recorded(summary, list).upload_errors.len() == summary.upload_errors.len() {
            assert(list.last().1 is Ok);
            assert forall|i: int| 0 <= i < list.len() implies (#[trigger] list[i]).1 is Ok by {
                if i < shorter.len() {
                    assert(shorter[i].1 is Ok);
                }
            }
        }
    }
}

/// The summary holds every error of the discovery, in their order, and no others. It is a success
/// if and only if there was none, every archive was uploaded, and the temporary directory could be
/// removed.
pub proof fn law_summary_holds_discovery_errors(
    list: Seq<OutcomeView>,
    discovery_errors: Seq<InvalidKeyView>,
    close: Result<(), Seq<char>>,
)
    ensures
        summarized(list, discovery_errors, close).discovery_errors == discovery_errors,
        summarized(list, discovery_errors, close).success() <==> discovery_errors.len() == 0 && (
        forall|i: int| 0 <= i < list.len() ==> (#[trigger] list[i]).1 is Ok) && close is Ok,
{
    lemma_recorded_errors(SummaryView::empty(), list);
}

/// Neither the discovery nor the removal of the temporary directory changes what became of the
/// files. The only error that is added to those of the archives is that of the removal.
pub proof fn law_summary_holds_outcomes(
    list: Seq<OutcomeView>,
    discovery_errors: Seq<InvalidKeyView>,
    msg: Seq<char>,
)
    ensures
        ({
            let archives = recorded(SummaryView::empty(), list);
            let removed = summarized(list, discovery_errors, Ok(()));
            let kept = summarized(list, discovery_errors, Err(msg));
            &&& removed.uploaded == archives.uploaded && kept.uploaded == archives.uploaded
            &&& removed.skipped == archives.skipped && kept.skipped == archives.skipped
            &&& removed.failed == archives.failed && kept.failed == archives.failed
            &&& removed.upload_errors == archives.upload_errors
            &&& kept.upload_errors == archives.upload_errors.push(ErrorView::IOError(msg))
        }),
{
}

} // verus!

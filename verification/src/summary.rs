//! What an upload came to.

use crate::decimal::{decimal, push_decimal};
use crate::error::{Error, ErrorView};
use crate::keys::KeySet;
use crate::sym_files::{InvalidKeyError, InvalidKeyView};
use crate::text::texts;
use vstd::multiset::Multiset;
use vstd::prelude::*;

verus! {

/// The outcome of an upload, file by file.
#[derive(Debug)]
pub struct UploadSummary {
    /// Keys of files that were successfully uploaded.
    pub uploaded_keys: Vec<String>,
    /// Keys of files that were skipped because they were already known to the server.
    pub skipped_keys: Vec<String>,
    /// Keys of files that were not successfully uploaded.
    pub failed_keys: Vec<String>,
    /// Errors during symbols file discovery.
    pub discovery_errors: Vec<InvalidKeyError>,
    /// Errors during uploads.
    pub upload_errors: Vec<Error>,
}

/// The keys and the errors of a summary.
#[verifier::ext_equal]
pub struct SummaryView {
    pub uploaded: Seq<Seq<char>>,
    pub skipped: Seq<Seq<char>>,
    pub failed: Seq<Seq<char>>,
    pub discovery_errors: Seq<InvalidKeyView>,
    pub upload_errors: Seq<ErrorView>,
}

/// The views of a list of discovery errors.
pub open spec fn key_errors(list: Seq<InvalidKeyError>) -> Seq<InvalidKeyView> {
    list.map_values(|e: InvalidKeyError| e@)
}

/// The views of a list of errors.
pub open spec fn errors(list: Seq<Error>) -> Seq<ErrorView> {
    list.map_values(|e: Error| e@)
}

impl View for UploadSummary {
    type V = SummaryView;

    open spec fn view(&self) -> SummaryView {
        SummaryView {
            uploaded: texts(self.uploaded_keys@),
            skipped: texts(self.skipped_keys@),
            failed: texts(self.failed_keys@),
            discovery_errors: key_errors(self.discovery_errors@),
            upload_errors: errors(self.upload_errors@),
        }
    }
}

/// The keys of `list` that are not among `dropped`, in their order.
pub open spec fn keys_without(list: Seq<Seq<char>>, dropped: Seq<Seq<char>>) -> Seq<Seq<char>>
    decreases list.len(),
{
    if list.len() == 0 {
        Seq::empty()
    } else {
        let before = keys_without(list.drop_last(), dropped);
        if dropped.contains(list.last()) {
            before
        } else {
            before.push(list.last())
        }
    }
}

/// The view of the outcome of uploading one file.
pub open spec fn upload_outcome(result: Result<(), Error>) -> Result<(), ErrorView> {
    match result {
        Ok(()) => Ok(()),
        Err(e) => Err(e@),
    }
}

/// The view of the outcome of uploading one archive: the keys that the server skipped, or the
/// error.
pub open spec fn archive_outcome(result: Result<KeySet, Error>) -> Result<
    Seq<Seq<char>>,
    ErrorView,
> {
    match result {
        Ok(skipped) => Ok(skipped@),
        Err(e) => Err(e@),
    }
}

/// The view of the outcome of removing the temporary directory.
pub open spec fn close_outcome(result: Result<(), String>) -> Result<(), Seq<char>> {
    match result {
        Ok(()) => Ok(()),
        Err(msg) => Err(msg@),
    }
}

impl SummaryView {
    /// A summary in which nothing has happened.
    pub open spec fn empty() -> SummaryView {
        SummaryView {
            uploaded: Seq::empty(),
            skipped: Seq::empty(),
            failed: Seq::empty(),
            discovery_errors: Seq::empty(),
            upload_errors: Seq::empty(),
        }
    }

    /// Whether there was no error.
    pub open spec fn success(self) -> bool {
        self.discovery_errors.len() == 0 && self.upload_errors.len() == 0
    }

    /// The summary with the outcome of one file added.
    pub open spec fn with_upload(self, key: Seq<char>, result: Result<(), ErrorView>) -> SummaryView {
        match result {
            Ok(()) => SummaryView { uploaded: self.uploaded.push(key), ..self },
            Err(e) => SummaryView {
                failed: self.failed.push(key),
                upload_errors: self.upload_errors.push(e),
                ..self
            },
        }
    }

    /// The summary with the outcome of one archive of files added.
    pub open spec fn with_archive(
        self,
        keys: Seq<Seq<char>>,
        result: Result<Seq<Seq<char>>, ErrorView>,
    ) -> SummaryView {
        match result {
            Ok(skipped) => SummaryView {
                uploaded: self.uploaded + keys_without(keys, skipped),
                skipped: self.skipped + skipped,
                ..self
            },
            Err(e) => SummaryView {
                failed: self.failed + keys,
                upload_errors: self.upload_errors.push(e),
                ..self
            },
        }
    }

    /// The summary with the key of a file that the server knew already.
    pub open spec fn with_skip(self, key: Seq<char>) -> SummaryView {
        SummaryView { skipped: self.skipped.push(key), ..self }
    }

    /// The summary with these discovery errors.
    pub open spec fn with_discovery(self, discovery_errors: Seq<InvalidKeyView>) -> SummaryView {
        SummaryView { discovery_errors, ..self }
    }

    /// The summary after the temporary directory was removed, or could not be removed.
    pub open spec fn with_close(self, result: Result<(), Seq<char>>) -> SummaryView {
        match result {
            Ok(()) => self,
            Err(msg) => self.with_error(ErrorView::IOError(msg)),
        }
    }

    /// The summary with the error added.
    pub open spec fn with_error(self, e: ErrorView) -> SummaryView {
        SummaryView { upload_errors: self.upload_errors.push(e), ..self }
    }

    /// Both summaries, one after the other.
    pub open spec fn merged(self, other: SummaryView) -> SummaryView {
        SummaryView {
            uploaded: self.uploaded + other.uploaded,
            skipped: self.skipped + other.skipped,
            failed: self.failed + other.failed,
            discovery_errors: self.discovery_errors + other.discovery_errors,
            upload_errors: self.upload_errors + other.upload_errors,
        }
    }

    /// What is printed as errors.
    pub open spec fn error_text(self) -> Seq<char> {
        let uploads = if self.upload_errors.len() == 0 {
            Seq::empty()
        } else {
            "\nerror: the following keys failed to upload:\n"@ + key_lines(self.failed)
                + "\nErrors during upload:\n"@ + error_lines(self.upload_errors)
        };
        let discovery = if self.discovery_errors.len() == 0 {
            Seq::empty()
        } else {
            "\nErrors during symbols file discovery:\n"@ + key_error_lines(self.discovery_errors)
        };
        uploads + discovery
    }

    /// What is printed when all went well.
    pub open spec fn success_text(self) -> Seq<char> {
        decimal(self.uploaded.len()) + " files uploaded, "@ + decimal(self.skipped.len())
            + " skipped.\n"@
    }
}

/// One indented line for each key.
pub open spec fn key_lines(keys: Seq<Seq<char>>) -> Seq<char>
    decreases keys.len(),
{
    if keys.len() == 0 {
        Seq::empty()
    } else {
        key_lines(keys.drop_last()) + "    "@ + keys.last() + "\n"@
    }
}

/// One line for each error.
pub open spec fn error_lines(list: Seq<ErrorView>) -> Seq<char>
    decreases list.len(),
{
    if list.len() == 0 {
        Seq::empty()
    } else {
        error_lines(list.drop_last()) + list.last().message() + "\n"@
    }
}

/// One line for each discovery error.
pub open spec fn key_error_lines(list: Seq<InvalidKeyView>) -> Seq<char>
    decreases list.len(),
{
    if list.len() == 0 {
        Seq::empty()
    } else {
        key_error_lines(list.drop_last()) + list.last().message() + "\n"@
    }
}

fn push_key_lines(out: &mut String, keys: &Vec<String>)
    ensures
        final(out)@ == old(out)@ + key_lines(texts(keys@)),
{
    let n = keys.len();
    assert(out@ =~= old(out)@ + key_lines(texts(keys@.take(0))));
    for i in 0..n
        invariant
            n == keys@.len(),
            out@ == old(out)@ + key_lines(texts(keys@.take(i as int))),
    {
        out.append("    ");
        out.append(keys[i].as_str());
        out.append("\n");
        assert(texts(keys@.take(i + 1)).drop_last() =~= texts(keys@.take(i as int)));
        assert(texts(keys@.take(i + 1)).last() == keys@[i as int]@);
        assert(out@ =~= old(out)@ + key_lines(texts(keys@.take(i + 1))));
    }
    assert(keys@.take(n as int) =~= keys@);
}

fn push_error_lines(out: &mut String, list: &Vec<Error>)
    ensures
        final(out)@ == old(out)@ + error_lines(errors(list@)),
{
    let n = list.len();
    assert(out@ =~= old(out)@ + error_lines(errors(list@.take(0))));
    for i in 0..n
        invariant
            n == list@.len(),
            out@ == old(out)@ + error_lines(errors(list@.take(i as int))),
    {
        out.append(list[i].message().as_str());
        out.append("\n");
        assert(errors(list@.take(i + 1)).drop_last() =~= errors(list@.take(i as int)));
        assert(errors(list@.take(i + 1)).last() == list@[i as int]@);
        assert(out@ =~= old(out)@ + error_lines(errors(list@.take(i + 1))));
    }
    assert(list@.take(n as int) =~= list@);
}

fn push_key_error_lines(out: &mut String, list: &Vec<InvalidKeyError>)
    ensures
        final(out)@ == old(out)@ + key_error_lines(key_errors(list@)),
{
    let n = list.len();
    assert(out@ =~= old(out)@ + key_error_lines(key_errors(list@.take(0))));
    for i in 0..n
        invariant
            n == list@.len(),
            out@ == old(out)@ + key_error_lines(key_errors(list@.take(i as int))),
    {
        out.append(list[i].message().as_str());
        out.append("\n");
        assert(key_errors(list@.take(i + 1)).drop_last() =~= key_errors(list@.take(i as int)));
        assert(key_errors(list@.take(i + 1)).last() == list@[i as int]@);
        assert(out@ =~= old(out)@ + key_error_lines(key_errors(list@.take(i + 1))));
    }
    assert(list@.take(n as int) =~= list@);
}

/// The keys of `list` that are not among `dropped`.
fn without_keys(list: Vec<String>, dropped: &KeySet) -> (res: Vec<String>)
    ensures
        texts(res@) == keys_without(texts(list@), dropped@),
{
    let mut out: Vec<String> = Vec::new();
    assert(texts(out@) =~= keys_without(texts(list@.take(0)), dropped@));
    for key in it: list
        invariant
            it.seq() == list@,
            texts(out@) == keys_without(texts(list@.take(it.index() as int)), dropped@),
    {
        let ghost i = it.index() as int;
        let ghost before = out@;
        assert(texts(list@.take(i + 1)).drop_last() =~= texts(list@.take(i)));
        assert(texts(list@.take(i + 1)).last() == key@);
        if !dropped.contains(key.as_str()) {
            out.push(key);
            assert(texts(out@) =~= texts(before).push(key@));
        }
    }
    assert(list@.take(list@.len() as int) =~= list@);
    out
}

impl UploadSummary {
    /// A summary in which nothing has happened.
    pub fn new() -> (res: Self)
        ensures
            res@ == SummaryView::empty(),
            res.uploaded_keys@.len() == 0,
            res.skipped_keys@.len() == 0,
            res.failed_keys@.len() == 0,
            res.discovery_errors@.len() == 0,
            res.upload_errors@.len() == 0,
    {
        let res = UploadSummary {
            uploaded_keys: Vec::new(),
            skipped_keys: Vec::new(),
            failed_keys: Vec::new(),
            discovery_errors: Vec::new(),
            upload_errors: Vec::new(),
        };
        assert(res@ =~= SummaryView::empty());
        res
    }

    /// Indicate whether the upload completed successfully without any errors.
    pub fn success(&self) -> (res: bool)
        ensures
            res == self@.success(),
            res == (self.discovery_errors@.len() == 0 && self.upload_errors@.len() == 0),
    {
        self.discovery_errors.is_empty() && self.upload_errors.is_empty()
    }

    /// Record the outcome of uploading one file.
    pub fn record_upload(&mut self, key: String, result: Result<(), Error>)
        ensures
            final(self)@ == old(self)@.with_upload(key@, upload_outcome(result)),
            final(self).skipped_keys@ == old(self).skipped_keys@,
            final(self).discovery_errors@ == old(self).discovery_errors@,
            match result {
                Ok(()) => {
                    &&& final(self).uploaded_keys@ == old(self).uploaded_keys@.push(key)
                    &&& final(self).failed_keys@ == old(self).failed_keys@
                    &&& final(self).upload_errors@ == old(self).upload_errors@
                },
                Err(e) => {
                    &&& final(self).uploaded_keys@ == old(self).uploaded_keys@
                    &&& final(self).failed_keys@ == old(self).failed_keys@.push(key)
                    &&& final(self).upload_errors@ == old(self).upload_errors@.push(e)
                },
            },
    {
        match result {
            Ok(()) => self.uploaded_keys.push(key),
            Err(e) => {
                self.upload_errors.push(e);
                self.failed_keys.push(key);
            },
        }
        assert(self@ =~= old(self)@.with_upload(key@, upload_outcome(result)));
    }

    /// Record the outcome of uploading an archive with the files of the given keys. A
    /// successful upload comes with the set of the keys that the server skipped.
    pub fn record_archive(&mut self, keys: Vec<String>, result: Result<KeySet, Error>)
        ensures
            final(self)@ == old(self)@.with_archive(texts(keys@), archive_outcome(result)),
            final(self).discovery_errors@ == old(self).discovery_errors@,
            match result {
                Ok(skipped) => {
                    &&& final(self)@.skipped == old(self)@.skipped + skipped@
                    &&& final(self).failed_keys@ == old(self).failed_keys@
                    &&& final(self).upload_errors@ == old(self).upload_errors@
                },
                Err(e) => {
                    &&& final(self).uploaded_keys@ == old(self).uploaded_keys@
                    &&& final(self).skipped_keys@ == old(self).skipped_keys@
                    &&& final(self).failed_keys@ == old(self).failed_keys@ + keys@
                    &&& final(self).upload_errors@ == old(self).upload_errors@.push(e)
                },
            },
    {
        match result {
            Ok(skipped) => {
                let mut uploaded = without_keys(keys, &skipped);
                let mut skipped = skipped.into_keys();
                self.uploaded_keys.append(&mut uploaded);
                self.skipped_keys.append(&mut skipped);
            },
            Err(e) => {
                let mut keys = keys;
                self.failed_keys.append(&mut keys);
                self.upload_errors.push(e);
            },
        }
        assert(self@ =~= old(self)@.with_archive(texts(keys@), archive_outcome(result)));
    }

    /// Record that the server knew the file already.
    pub fn record_skip(&mut self, key: String)
        ensures
            final(self)@ == old(self)@.with_skip(key@),
            final(self).uploaded_keys@ == old(self).uploaded_keys@,
            final(self).skipped_keys@ == old(self).skipped_keys@.push(key),
            final(self).failed_keys@ == old(self).failed_keys@,
            final(self).discovery_errors@ == old(self).discovery_errors@,
            final(self).upload_errors@ == old(self).upload_errors@,
    {
        self.skipped_keys.push(key);
        assert(self@ =~= old(self)@.with_skip(key@));
    }

    /// Record what was met during discovery.
    pub fn record_discovery(&mut self, discovery_errors: Vec<InvalidKeyError>)
        ensures
            final(self)@ == old(self)@.with_discovery(key_errors(discovery_errors@)),
            final(self).uploaded_keys@ == old(self).uploaded_keys@,
            final(self).skipped_keys@ == old(self).skipped_keys@,
            final(self).failed_keys@ == old(self).failed_keys@,
            final(self).discovery_errors@ == discovery_errors@,
            final(self).upload_errors@ == old(self).upload_errors@,
    {
        self.discovery_errors = discovery_errors;
        assert(self@ =~= old(self)@.with_discovery(key_errors(discovery_errors@)));
    }

    /// Record whether the temporary directory could be removed; an error comes with its text.
    /// It is recorded rather than returned, since the caller should still learn about the
    /// uploads that were performed.
    pub fn record_close(&mut self, result: Result<(), String>)
        ensures
            final(self)@ == old(self)@.with_close(close_outcome(result)),
            result is Ok ==> *final(self) == *old(self),
            result matches Err(msg) ==> final(self).upload_errors@
                == old(self).upload_errors@.push(Error::IOError(msg)),
            final(self).uploaded_keys@ == old(self).uploaded_keys@,
            final(self).skipped_keys@ == old(self).skipped_keys@,
            final(self).failed_keys@ == old(self).failed_keys@,
            final(self).discovery_errors@ == old(self).discovery_errors@,
    {
        if let Err(msg) = result {
            self.record_error(Error::IOError(msg));
        }
    }

    /// Record an error that does not belong to a key.
    pub fn record_error(&mut self, error: Error)
        ensures
            final(self)@ == old(self)@.with_error(error@),
            final(self).uploaded_keys@ == old(self).uploaded_keys@,
            final(self).skipped_keys@ == old(self).skipped_keys@,
            final(self).failed_keys@ == old(self).failed_keys@,
            final(self).discovery_errors@ == old(self).discovery_errors@,
            final(self).upload_errors@ == old(self).upload_errors@.push(error),
    {
        self.upload_errors.push(error);
        assert(self@ =~= old(self)@.with_error(error@));
    }

    /// Add everything that another summary holds.
    pub fn merge(&mut self, other: UploadSummary)
        ensures
            final(self)@ == old(self)@.merged(other@),
            final(self).uploaded_keys@ == old(self).uploaded_keys@ + other.uploaded_keys@,
            final(self).skipped_keys@ == old(self).skipped_keys@ + other.skipped_keys@,
            final(self).failed_keys@ == old(self).failed_keys@ + other.failed_keys@,
            final(self).discovery_errors@ == old(self).discovery_errors@ + other.discovery_errors@,
            final(self).upload_errors@ == old(self).upload_errors@ + other.upload_errors@,
    {
        let ghost theirs = other@;
        let mut other = other;
        self.uploaded_keys.append(&mut other.uploaded_keys);
        self.skipped_keys.append(&mut other.skipped_keys);
        self.failed_keys.append(&mut other.failed_keys);
        self.discovery_errors.append(&mut other.discovery_errors);
        self.upload_errors.append(&mut other.upload_errors);
        assert(self@ =~= old(self)@.merged(theirs));
    }

    /// What is to be printed as errors. The text is empty if there is nothing to say.
    pub fn error_report(&self) -> (res: String)
        ensures
            res@ == self@.error_text(),
    {
        let mut out = String::new();
        if !self.upload_errors.is_empty() {
            out.append("\nerror: the following keys failed to upload:\n");
            push_key_lines(&mut out, &self.failed_keys);
            out.append("\nErrors during upload:\n");
            push_error_lines(&mut out, &self.upload_errors);
        }
        if !self.discovery_errors.is_empty() {
            out.append("\nErrors during symbols file discovery:\n");
            push_key_error_lines(&mut out, &self.discovery_errors);
        }
        assert(out@ =~= self@.error_text());
        out
    }

    /// What is to be printed if the upload was a success.
    pub fn success_report(&self) -> (res: Option<String>)
        ensures
            res is Some <==> self@.success(),
            res matches Some(text) ==> text@ == self@.success_text(),
    {
        if !self.success() {
            return None;
        }
        let mut out = String::new();
        push_decimal(&mut out, self.uploaded_keys.len() as u64);
        out.append(" files uploaded, ");
        push_decimal(&mut out, self.skipped_keys.len() as u64);
        out.append(" skipped.\n");
        assert(out@ =~= self@.success_text());
        Some(out)
    }
}

impl Default for UploadSummary {
    fn default() -> (res: Self)
        ensures
            res@ == SummaryView::empty(),
    {
        UploadSummary::new()
    }
}

/// The keys that are left are those of the list that were not dropped.
pub proof fn lemma_keys_without(list: Seq<Seq<char>>, dropped: Seq<Seq<char>>)
    ensures
        forall|key: Seq<char>| #[trigger]
            keys_without(list, dropped).contains(key) <==> list.contains(key)
                && !dropped.contains(key),
    decreases list.len(),
{
    if list.len() > 0 {
        let before = keys_without(list.drop_last(), dropped);
        let last = list.last();
        lemma_keys_without(list.drop_last(), dropped);
        assert(list =~= list.drop_last().push(last));
        assert forall|key: Seq<char>| #[trigger]
            keys_without(list, dropped).contains(key) <==> list.contains(key)
                && !dropped.contains(key) by {
            lemma_push_contains(list.drop_last(), last, key);
            lemma_push_contains(before, last, key);
        }
    }
}

/// A list with one more item holds what it held, and that item.
pub proof fn lemma_push_contains<T>(list: Seq<T>, item: T, x: T)
    ensures
        list.push(item).contains(x) <==> list.contains(x) || x == item,
{
    if list.contains(x) {
        let i = choose|i: int| 0 <= i < list.len() && list[i] == x;
        assert(list.push(item)[i] == x);
    }
    if x == item {
        assert(list.push(item)[list.len() as int] == x);
    }
    if list.push(item).contains(x) {
        let i = choose|i: int| 0 <= i < list.push(item).len() && list.push(item)[i] == x;
        if i < list.len() {
            assert(list[i] == x);
        }
    }
}

/// After an archive was uploaded, each of its keys is recorded either as uploaded or as skipped,
/// and what is recorded as uploaded was in the archive.
pub proof fn law_uploaded_archive_is_accounted_for(
    keys: Seq<Seq<char>>,
    skipped: Seq<Seq<char>>,
    key: Seq<char>,
)
    ensures
        ({
            let summary = SummaryView::empty().with_archive(keys, Ok(skipped));
            &&& summary.skipped == skipped
            &&& summary.uploaded.contains(key) <==> keys.contains(key) && !summary.skipped.contains(
                key,
            )
            &&& summary.failed.len() == 0
            &&& summary.success()
        }),
{
    lemma_keys_without(keys, skipped);
    let summary = SummaryView::empty().with_archive(keys, Ok(skipped));
    assert(summary.uploaded =~= keys_without(keys, skipped));
    assert(summary.skipped =~= skipped);
}

/// Whether every failed key comes with an error.
pub open spec fn failures_are_explained(summary: SummaryView) -> bool {
    summary.upload_errors.len() == 0 ==> summary.failed.len() == 0
}

/// A summary that reports success has no failed key. That holds of the empty summary, and
/// whatever is recorded keeps it.
pub proof fn law_success_means_no_failed_key(
    summary: SummaryView,
    other: SummaryView,
    key: Seq<char>,
    result: Result<(), ErrorView>,
    keys: Seq<Seq<char>>,
    archive: Result<Seq<Seq<char>>, ErrorView>,
    error: ErrorView,
)
    requires
        failures_are_explained(summary),
        failures_are_explained(other),
    ensures
        failures_are_explained(SummaryView::empty()),
        failures_are_explained(summary.with_upload(key, result)),
        failures_are_explained(summary.with_archive(keys, archive)),
        failures_are_explained(summary.with_error(error)),
        failures_are_explained(summary.merged(other)),
        summary.success() ==> summary.failed.len() == 0,
{
}

/// An upload is a success if and only if each part of it was.
pub proof fn law_success_of_parts(
    summary: SummaryView,
    other: SummaryView,
    key: Seq<char>,
    result: Result<(), ErrorView>,
    keys: Seq<Seq<char>>,
    archive: Result<Seq<Seq<char>>, ErrorView>,
)
    ensures
        summary.with_upload(key, result).success() <==> summary.success() && result is Ok,
        summary.with_archive(keys, archive).success() <==> summary.success() && archive is Ok,
        summary.merged(other).success() <==> summary.success() && other.success(),
{
}

/// The keys that a summary accounts for, each as often as it is recorded.
pub open spec fn accounted(summary: SummaryView) -> Multiset<Seq<char>> {
    summary.uploaded.to_multiset().add(summary.skipped.to_multiset()).add(
        summary.failed.to_multiset(),
    )
}

/// No keys make an empty multiset.
pub proof fn lemma_no_keys(keys: Seq<Seq<char>>)
    requires
        keys.len() == 0,
    ensures
        keys.to_multiset() == Multiset::<Seq<char>>::empty(),
{
    broadcast use vstd::seq_lib::group_to_multiset_ensures;

    assert forall|key: Seq<char>| #[trigger] keys.to_multiset().count(key) == 0 by {
        assert(!keys.contains(key));
    }
    assert(keys.to_multiset() =~= Multiset::empty());
}

/// What is recorded for a key is accounted for.
pub proof fn lemma_accounted_push(summary: SummaryView, key: Seq<char>, result: Result<(), ErrorView>)
    ensures
        accounted(summary.with_upload(key, result)) == accounted(summary).insert(key),
        accounted(summary.with_skip(key)) == accounted(summary).insert(key),
{
    broadcast use vstd::seq_lib::group_to_multiset_ensures;

    assert(accounted(summary.with_upload(key, result)) =~= accounted(summary).insert(key));
    assert(accounted(summary.with_skip(key)) =~= accounted(summary).insert(key));
}

/// A merged summary accounts for what both summaries account for.
pub proof fn lemma_accounted_merged(summary: SummaryView, other: SummaryView)
    ensures
        accounted(summary.merged(other)) == accounted(summary).add(accounted(other)),
{
    vstd::seq_lib::lemma_multiset_commutative(summary.uploaded, other.uploaded);
    vstd::seq_lib::lemma_multiset_commutative(summary.skipped, other.skipped);
    vstd::seq_lib::lemma_multiset_commutative(summary.failed, other.failed);
    assert(accounted(summary.merged(other)) =~= accounted(summary).add(accounted(other)));
}

/// Two lists, one after the other, hold what each of them holds.
pub proof fn lemma_concat_contains<T>(left: Seq<T>, right: Seq<T>, x: T)
    ensures
        (left + right).contains(x) <==> left.contains(x) || right.contains(x),
{
    let both = left + right;
    if left.contains(x) {
        let i = choose|i: int| 0 <= i < left.len() && left[i] == x;
        assert(both[i] == x);
    }
    if right.contains(x) {
        let i = choose|i: int| 0 <= i < right.len() && right[i] == x;
        assert(both[left.len() + i] == x);
    }
    if both.contains(x) {
        let i = choose|i: int| 0 <= i < both.len() && both[i] == x;
        if i < left.len() {
            assert(left[i] == x);
        } else {
            assert(right[i - left.len()] == x);
        }
    }
}

/// Lists with the same items are equally long.
pub proof fn lemma_same_length<T>(a: Seq<T>, b: Seq<T>)
    requires
        a.to_multiset() == b.to_multiset(),
    ensures
        a.len() == b.len(),
{
    broadcast use vstd::seq_lib::group_to_multiset_ensures;

    assert(a.len() == a.to_multiset().len());
    assert(b.len() == b.to_multiset().len());
}

/// The last item of a list stands somewhere in every list with the same items, and without it they
/// have the same items again.
pub proof fn lemma_find_last<T>(a: Seq<T>, b: Seq<T>) -> (i: int)
    requires
        a.len() > 0,
        a.to_multiset() == b.to_multiset(),
    ensures
        0 <= i < b.len(),
        b[i] == a.last(),
        a.drop_last().to_multiset() == b.remove(i).to_multiset(),
{
    broadcast use vstd::seq_lib::group_to_multiset_ensures;

    let last = a.last();
    assert(a.contains(last)) by {
        assert(a[a.len() - 1] == last);
    }
    lemma_contains_count(a, last);
    lemma_contains_count(b, last);
    let i = choose|i: int| 0 <= i < b.len() && b[i] == last;
    assert(a.drop_last() =~= a.remove(a.len() - 1));
    i
}

/// If nothing occurs twice in two lists together, nothing occurs twice in either of them, and
/// nothing occurs in both.
pub proof fn lemma_concat_distinct<T>(left: Seq<T>, right: Seq<T>)
    requires
        (left + right).no_duplicates(),
    ensures
        left.no_duplicates(),
        right.no_duplicates(),
        forall|x: T| !(#[trigger] left.contains(x) && right.contains(x)),
{
    let both = left + right;
    assert forall|i: int, j: int| 0 <= i < left.len() && 0 <= j < left.len() && i != j implies
        left[i] != left[j] by {
        assert(both[i] == left[i] && both[j] == left[j]);
    }
    assert forall|i: int, j: int| 0 <= i < right.len() && 0 <= j < right.len() && i != j implies
        right[i] != right[j] by {
        assert(both[left.len() + i] == right[i] && both[left.len() + j] == right[j]);
    }
    assert forall|x: T| !(#[trigger] left.contains(x) && right.contains(x)) by {
        if left.contains(x) && right.contains(x) {
            let i = choose|i: int| 0 <= i < left.len() && left[i] == x;
            let j = choose|j: int| 0 <= j < right.len() && right[j] == x;
            assert(both[i] == both[left.len() + j]);
        }
    }
}

/// A list holds what occurs in it.
pub proof fn lemma_contains_count<T>(list: Seq<T>, x: T)
    ensures
        list.contains(x) <==> list.to_multiset().count(x) > 0,
{
    broadcast use vstd::seq_lib::group_to_multiset_ensures;

}

/// In a list in which nothing occurs twice, everything occurs once or not at all.
pub proof fn lemma_distinct_count(keys: Seq<Seq<char>>, key: Seq<char>)
    requires
        keys.no_duplicates(),
    ensures
        keys.to_multiset().count(key) == (if keys.contains(key) {
            1nat
        } else {
            0nat
        }),
{
    broadcast use vstd::seq_lib::group_to_multiset_ensures;

    keys.lemma_multiset_has_no_duplicates();
    assert(keys.contains(key) <==> keys.to_multiset().count(key) > 0);
    if keys.contains(key) {
        assert(keys.to_multiset().contains(key));
    }
}

proof fn lemma_keys_without_distinct(list: Seq<Seq<char>>, dropped: Seq<Seq<char>>)
    requires
        list.no_duplicates(),
    ensures
        keys_without(list, dropped).no_duplicates(),
    decreases list.len(),
{
    if list.len() > 0 {
        let shorter = list.drop_last();
        let last = list.last();
        assert(list =~= shorter + seq![last]);
        lemma_concat_distinct(shorter, seq![last]);
        lemma_keys_without_distinct(shorter, dropped);
        lemma_keys_without(shorter, dropped);
        let before = keys_without(shorter, dropped);
        assert(seq![last][0] == last);
        assert(!before.contains(last)) by {
            assert(seq![last].contains(last));
            assert(!(shorter.contains(last) && seq![last].contains(last)));
        }
    }
}

/// What is left of a list, and what was dropped from it, make up the list.
pub proof fn lemma_keys_without_count(list: Seq<Seq<char>>, dropped: Seq<Seq<char>>)
    requires
        list.no_duplicates(),
        dropped.no_duplicates(),
        forall|key: Seq<char>| #[trigger] dropped.contains(key) ==> list.contains(key),
    ensures
        keys_without(list, dropped).to_multiset().add(dropped.to_multiset())
            == list.to_multiset(),
{
    let left = keys_without(list, dropped);
    let sum = left.to_multiset().add(dropped.to_multiset());
    lemma_keys_without(list, dropped);
    lemma_keys_without_distinct(list, dropped);
    assert forall|key: Seq<char>| #[trigger] sum.count(key) == list.to_multiset().count(key) by {
        lemma_distinct_count(left, key);
        lemma_distinct_count(dropped, key);
        lemma_distinct_count(list, key);
        assert(left.contains(key) <==> list.contains(key) && !dropped.contains(key));
        if dropped.contains(key) {
            assert(list.contains(key));
        }
    }
    assert(sum =~= list.to_multiset());
}

/// Whether a text holds another text.
pub open spec fn shows(text: Seq<char>, part: Seq<char>) -> bool {
    exists|before: Seq<char>, after: Seq<char>| text == #[trigger] (before + part + after)
}

proof fn lemma_shows(left: Seq<char>, text: Seq<char>, right: Seq<char>, part: Seq<char>)
    requires
        shows(text, part),
    ensures
        shows(left + text + right, part),
{
    let (before, after) = choose|before: Seq<char>, after: Seq<char>|
        text == #[trigger] (before + part + after);
    assert(left + text + right =~= (left + before) + part + (after + right));
}

proof fn lemma_key_lines(keys: Seq<Seq<char>>, i: int)
    requires
        0 <= i < keys.len(),
    ensures
        shows(key_lines(keys), "    "@ + keys[i] + "\n"@),
    decreases keys.len(),
{
    let line = "    "@ + keys.last() + "\n"@;
    let before = key_lines(keys.drop_last());
    assert(key_lines(keys) =~= before + line + Seq::<char>::empty());
    if i < keys.len() - 1 {
        lemma_key_lines(keys.drop_last(), i);
        lemma_shows(Seq::empty(), before, line, "    "@ + keys[i] + "\n"@);
        assert(key_lines(keys) =~= Seq::<char>::empty() + before + line);
    }
}

proof fn lemma_error_lines(list: Seq<ErrorView>, i: int)
    requires
        0 <= i < list.len(),
    ensures
        shows(error_lines(list), list[i].message() + "\n"@),
    decreases list.len(),
{
    let line = list.last().message() + "\n"@;
    let before = error_lines(list.drop_last());
    assert(error_lines(list) =~= before + line + Seq::<char>::empty());
    if i < list.len() - 1 {
        lemma_error_lines(list.drop_last(), i);
        lemma_shows(Seq::empty(), before, line, list[i].message() + "\n"@);
        assert(error_lines(list) =~= Seq::<char>::empty() + before + line);
    }
}

proof fn lemma_key_error_lines(list: Seq<InvalidKeyView>, i: int)
    requires
        0 <= i < list.len(),
    ensures
        shows(key_error_lines(list), list[i].message() + "\n"@),
    decreases list.len(),
{
    let line = list.last().message() + "\n"@;
    let before = key_error_lines(list.drop_last());
    assert(key_error_lines(list) =~= before + line + Seq::<char>::empty());
    if i < list.len() - 1 {
        lemma_key_error_lines(list.drop_last(), i);
        lemma_shows(Seq::empty(), before, line, list[i].message() + "\n"@);
        assert(key_error_lines(list) =~= Seq::<char>::empty() + before + line);
    }
}

/// Every error of the discovery is shown on a line of its own.
pub proof fn law_discovery_errors_are_shown(summary: SummaryView, i: int)
    requires
        0 <= i < summary.discovery_errors.len(),
    ensures
        !summary.success(),
        shows(summary.error_text(), summary.discovery_errors[i].message() + "\n"@),
{
    let line = summary.discovery_errors[i].message() + "\n"@;
    let lines = key_error_lines(summary.discovery_errors);
    let uploads = if summary.upload_errors.len() == 0 {
        Seq::empty()
    } else {
        "\nerror: the following keys failed to upload:\n"@ + key_lines(summary.failed)
            + "\nErrors during upload:\n"@ + error_lines(summary.upload_errors)
    };
    let title = "\nErrors during symbols file discovery:\n"@;
    lemma_key_error_lines(summary.discovery_errors, i);
    lemma_shows(uploads + title, lines, Seq::empty(), line);
    assert(summary.error_text() =~= (uploads + title) + lines + Seq::<char>::empty());
}

/// Every error of an upload is shown on a line of its own.
pub proof fn law_upload_errors_are_shown(summary: SummaryView, i: int)
    requires
        0 <= i < summary.upload_errors.len(),
    ensures
        !summary.success(),
        shows(summary.error_text(), summary.upload_errors[i].message() + "\n"@),
{
    let line = summary.upload_errors[i].message() + "\n"@;
    let lines = error_lines(summary.upload_errors);
    let before = "\nerror: the following keys failed to upload:\n"@ + key_lines(summary.failed)
        + "\nErrors during upload:\n"@;
    let after = summary.error_text().skip((before.len() + lines.len()) as int);
    lemma_error_lines(summary.upload_errors, i);
    lemma_shows(before, lines, after, line);
    assert(summary.error_text() =~= before + lines + after);
}

/// Every failed key is shown on a line of its own.
pub proof fn law_failed_keys_are_shown(summary: SummaryView, i: int)
    requires
        failures_are_explained(summary),
        0 <= i < summary.failed.len(),
    ensures
        shows(summary.error_text(), "    "@ + summary.failed[i] + "\n"@),
{
    let line = "    "@ + summary.failed[i] + "\n"@;
    let lines = key_lines(summary.failed);
    let before = "\nerror: the following keys failed to upload:\n"@;
    let after = summary.error_text().skip((before.len() + lines.len()) as int);
    lemma_key_lines(summary.failed, i);
    lemma_shows(before, lines, after, line);
    assert(summary.error_text() =~= before + lines + after);
}

/// A report of errors is empty exactly if the upload was a success.
pub proof fn law_success_means_no_report(summary: SummaryView)
    ensures
        summary.success() <==> summary.error_text().len() == 0,
{
    reveal_strlit("\nErrors during upload:\n");
    reveal_strlit("\nErrors during symbols file discovery:\n");
}

/// A summary shows the keys and the errors that it holds, one by one and in their order.
pub proof fn law_summary_shows_what_it_holds(summary: UploadSummary, i: int)
    ensures
        summary@.uploaded.len() == summary.uploaded_keys@.len(),
        0 <= i < summary.uploaded_keys@.len() ==> summary@.uploaded[i]
            == summary.uploaded_keys@[i]@,
        summary@.skipped.len() == summary.skipped_keys@.len(),
        0 <= i < summary.skipped_keys@.len() ==> summary@.skipped[i] == summary.skipped_keys@[i]@,
        summary@.failed.len() == summary.failed_keys@.len(),
        0 <= i < summary.failed_keys@.len() ==> summary@.failed[i] == summary.failed_keys@[i]@,
        summary@.discovery_errors.len() == summary.discovery_errors@.len(),
        0 <= i < summary.discovery_errors@.len() ==> summary@.discovery_errors[i]
            == summary.discovery_errors@[i]@,
        summary@.upload_errors.len() == summary.upload_errors@.len(),
        0 <= i < summary.upload_errors@.len() ==> summary@.upload_errors[i]
            == summary.upload_errors@[i]@,
{
}

/// An uploaded file adds its key to the uploaded keys, and nothing else. A file that failed adds its
/// key to the failed keys and its error to the errors, and nothing else.
pub proof fn law_upload_is_recorded(summary: SummaryView, key: Seq<char>, e: ErrorView)
    ensures
        summary.with_upload(key, Ok(())) == (SummaryView {
            uploaded: summary.uploaded.push(key),
            ..summary
        }),
        summary.with_upload(key, Err(e)) == (SummaryView {
            failed: summary.failed.push(key),
            upload_errors: summary.upload_errors.push(e),
            ..summary
        }),
        summary.with_skip(key) == (SummaryView { skipped: summary.skipped.push(key), ..summary }),
        summary.with_error(e) == (SummaryView {
            upload_errors: summary.upload_errors.push(e),
            ..summary
        }),
{
}

/// An uploaded archive adds the keys that the server skipped to the skipped keys, and its other keys
/// to the uploaded keys. An archive that failed adds all its keys to the failed keys, and one error
/// to the errors.
pub proof fn law_archive_is_recorded(
    summary: SummaryView,
    keys: Seq<Seq<char>>,
    skipped: Seq<Seq<char>>,
    e: ErrorView,
)
    ensures
        summary.with_archive(keys, Ok(skipped)) == (SummaryView {
            uploaded: summary.uploaded + keys.filter(|key: Seq<char>| !skipped.contains(key)),
            skipped: summary.skipped + skipped,
            ..summary
        }),
        summary.with_archive(keys, Err(e)) == (SummaryView {
            failed: summary.failed + keys,
            upload_errors: summary.upload_errors.push(e),
            ..summary
        }),
{
    lemma_keys_without_is_filter(keys, skipped);
}

proof fn lemma_keys_without_is_filter(list: Seq<Seq<char>>, dropped: Seq<Seq<char>>)
    ensures
        keys_without(list, dropped) == list.filter(|key: Seq<char>| !dropped.contains(key)),
    decreases list.len(),
{
    reveal(Seq::filter);
    if list.len() > 0 {
        lemma_keys_without_is_filter(list.drop_last(), dropped);
    }
}

/// The errors of the discovery are taken over as they are, all of them and in their order, whatever
/// has been recorded before. Nothing else changes.
pub proof fn law_discovery_is_recorded(summary: SummaryView, list: Seq<InvalidKeyView>)
    ensures
        summary.with_discovery(list).discovery_errors == list,
        summary.with_discovery(list).uploaded == summary.uploaded,
        summary.with_discovery(list).skipped == summary.skipped,
        summary.with_discovery(list).failed == summary.failed,
        summary.with_discovery(list).upload_errors == summary.upload_errors,
        summary.with_discovery(list).success() <==> list.len() == 0 && summary.upload_errors.len()
            == 0,
{
}

/// A temporary directory that could be removed leaves no trace in the summary. One that could not
/// adds one error with the reason.
pub proof fn law_close_is_recorded(summary: SummaryView, msg: Seq<char>)
    ensures
        summary.with_close(Ok(())) == summary,
        summary.with_close(Err(msg)) == (SummaryView {
            upload_errors: summary.upload_errors.push(ErrorView::IOError(msg)),
            ..summary
        }),
{
}

/// A merged summary holds, of each kind, what the first summary holds and then what the second one
/// holds. The empty summary holds nothing.
pub proof fn law_merged_summary_holds_both(summary: SummaryView, other: SummaryView)
    ensures
        summary.merged(other).uploaded == summary.uploaded + other.uploaded,
        summary.merged(other).skipped == summary.skipped + other.skipped,
        summary.merged(other).failed == summary.failed + other.failed,
        summary.merged(other).discovery_errors == summary.discovery_errors + other.discovery_errors,
        summary.merged(other).upload_errors == summary.upload_errors + other.upload_errors,
        SummaryView::empty().merged(other) == other,
        other.merged(SummaryView::empty()) == other,
{
    assert(SummaryView::empty().merged(other) =~= other);
    assert(other.merged(SummaryView::empty()) =~= other);
}

/// An upload is a success if there was no error, neither during discovery nor during an upload. The
/// keys do not matter.
pub proof fn law_success_means_no_error(summary: SummaryView)
    ensures
        summary.success() <==> summary.discovery_errors == Seq::<InvalidKeyView>::empty()
            && summary.upload_errors == Seq::<ErrorView>::empty(),
{
    if summary.success() {
        assert(summary.discovery_errors =~= Seq::empty());
        assert(summary.upload_errors =~= Seq::empty());
    }
}

/// What is recorded is the outcome itself.
pub proof fn law_outcome_is_recorded_as_it_is(e: Error, skipped: KeySet, msg: String)
    ensures
        upload_outcome(Ok(())) == Ok::<(), ErrorView>(()),
        upload_outcome(Err(e)) == Err::<(), ErrorView>(e@),
        archive_outcome(Ok(skipped)) == Ok::<Seq<Seq<char>>, ErrorView>(skipped@),
        archive_outcome(Err(e)) == Err::<Seq<Seq<char>>, ErrorView>(e@),
        close_outcome(Ok(())) == Ok::<(), Seq<char>>(()),
        close_outcome(Err(msg)) == Err::<(), Seq<char>>(msg@),
{
}

/// Keys and errors are listed line by line: the lines of two lists are the lines of the first one
/// and then those of the second one.
pub proof fn law_lists_are_shown_in_order(
    a: Seq<Seq<char>>,
    b: Seq<Seq<char>>,
    c: Seq<ErrorView>,
    d: Seq<ErrorView>,
    e: Seq<InvalidKeyView>,
    f: Seq<InvalidKeyView>,
)
    ensures
        key_lines(a + b) == key_lines(a) + key_lines(b),
        error_lines(c + d) == error_lines(c) + error_lines(d),
        key_error_lines(e + f) == key_error_lines(e) + key_error_lines(f),
    decreases b.len() + d.len() + f.len(),
{
    if b.len() > 0 {
        law_lists_are_shown_in_order(a, b.drop_last(), c, d, e, f);
        assert((a + b).drop_last() =~= a + b.drop_last());
        assert((a + b).last() == b.last());
        assert(key_lines(a + b) =~= key_lines(a) + key_lines(b));
    } else if d.len() > 0 {
        law_lists_are_shown_in_order(a, b, c, d.drop_last(), e, f);
        assert((c + d).drop_last() =~= c + d.drop_last());
        assert((c + d).last() == d.last());
        assert(error_lines(c + d) =~= error_lines(c) + error_lines(d));
    } else if f.len() > 0 {
        law_lists_are_shown_in_order(a, b, c, d, e, f.drop_last());
        assert((e + f).drop_last() =~= e + f.drop_last());
        assert((e + f).last() == f.last());
        assert(key_error_lines(e + f) =~= key_error_lines(e) + key_error_lines(f));
    } else {
        assert(a + b =~= a && c + d =~= c && e + f =~= e);
        assert(key_lines(a) + key_lines(b) =~= key_lines(a));
        assert(error_lines(c) + error_lines(d) =~= error_lines(c));
        assert(key_error_lines(e) + key_error_lines(f) =~= key_error_lines(e));
    }
}

/// A key is shown on an indented line, an error on a line with its message.
pub proof fn law_each_item_is_one_line(key: Seq<char>, e: ErrorView, k: InvalidKeyView)
    ensures
        key_lines(Seq::empty()) == Seq::<char>::empty(),
        key_lines(seq![key]) == "    "@ + key + "\n"@,
        error_lines(Seq::empty()) == Seq::<char>::empty(),
        error_lines(seq![e]) == e.message() + "\n"@,
        key_error_lines(Seq::empty()) == Seq::<char>::empty(),
        key_error_lines(seq![k]) == k.message() + "\n"@,
{
    assert(seq![key].drop_last() =~= Seq::empty());
    assert(seq![e].drop_last() =~= Seq::empty());
    assert(seq![k].drop_last() =~= Seq::empty());
    assert(key_lines(Seq::empty()) =~= Seq::empty());
    assert(error_lines(Seq::empty()) =~= Seq::empty());
    assert(key_error_lines(Seq::empty()) =~= Seq::empty());
    assert(key_lines(seq![key]) =~= "    "@ + key + "\n"@);
    assert(error_lines(seq![e]) =~= e.message() + "\n"@);
    assert(key_error_lines(seq![k]) =~= k.message() + "\n"@);
}

/// The report of errors lists the failed keys and the errors of the uploads, if there are such
/// errors, and then the errors of the discovery, if there are any.
pub proof fn law_error_report_has_two_parts(summary: SummaryView)
    ensures
        summary.error_text() == (SummaryView {
            discovery_errors: Seq::empty(),
            ..summary
        }).error_text() + (SummaryView { upload_errors: Seq::empty(), ..summary }).error_text(),
        summary.upload_errors.len() > 0 && summary.discovery_errors.len() == 0
            ==> summary.error_text() == "\nerror: the following keys failed to upload:\n"@
            + key_lines(summary.failed) + "\nErrors during upload:\n"@ + error_lines(
            summary.upload_errors,
        ),
        summary.upload_errors.len() == 0 && summary.discovery_errors.len() > 0
            ==> summary.error_text() == "\nErrors during symbols file discovery:\n"@
            + key_error_lines(summary.discovery_errors),
        summary.upload_errors.len() == 0 && summary.discovery_errors.len() == 0
            ==> summary.error_text() == Seq::<char>::empty(),
{
    let uploads = SummaryView { discovery_errors: Seq::empty(), ..summary };
    let discovery = SummaryView { upload_errors: Seq::empty(), ..summary };
    assert(summary.error_text() =~= uploads.error_text() + discovery.error_text());
}

/// The report of a success gives the number of uploaded keys and that of skipped keys.
pub proof fn law_success_report_counts_keys(summary: SummaryView)
    ensures
        summary.success_text() == decimal(summary.uploaded.len()) + " files uploaded, "@ + decimal(
            summary.skipped.len(),
        ) + " skipped.\n"@,
{
}

} // verus!

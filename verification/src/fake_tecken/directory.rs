//! What uploads of whole directories leave behind, on the client and on the server.
//!
//! A directory is uploaded as a list of archives. The server stores the files of one archive after
//! the other, and the client sums up what it is told about each of them.

use crate::fake_tecken::{lemma_skipped, lemma_stored, stored};
use crate::keys::{distinct, law_distinct_keeps_keys};
use crate::summary::{
    keys_without, lemma_concat_contains, lemma_concat_distinct, lemma_contains_count,
    lemma_find_last, lemma_keys_without, lemma_same_length, SummaryView,
};
use crate::v1::{
    archives_of, keys_of, law_archives_hold_all_files, law_order_does_not_matter, recorded,
    summarized, tally, Addition, ArchiveView, OutcomeView,
};
use vstd::prelude::*;
use vstd::seq_lib::lemma_multiset_commutative;

verus! {

/// The keys of several archives, one archive after the other.
pub open spec fn flattened(archives: Seq<Seq<Seq<char>>>) -> Seq<Seq<char>>
    decreases archives.len(),
{
    if archives.len() == 0 {
        Seq::empty()
    } else {
        flattened(archives.drop_last()) + archives.last()
    }
}

/// What the client is told about each archive, and what the server has stored in the end.
pub struct DirectoryUpload {
    pub outcomes: Seq<OutcomeView>,
    pub uploaded: Seq<Seq<char>>,
}

/// The upload of archives, one after the other, to a server that has stored the given files. Each
/// archive is taken, and the client is told which of its files were skipped.
pub open spec fn directory_upload(
    uploaded: Seq<Seq<char>>,
    archives: Seq<Seq<Seq<char>>>,
) -> DirectoryUpload
    decreases archives.len(),
{
    if archives.len() == 0 {
        DirectoryUpload { outcomes: Seq::empty(), uploaded }
    } else {
        let before = directory_upload(uploaded, archives.drop_last());
        let keys = archives.last();
        let end = stored(before.uploaded, keys);
        DirectoryUpload {
            outcomes: before.outcomes.push((keys, Ok(distinct(end.skipped)))),
            uploaded: end.uploaded,
        }
    }
}

proof fn lemma_directory(uploaded: Seq<Seq<char>>, archives: Seq<Seq<Seq<char>>>)
    requires
        flattened(archives).no_duplicates(),
    ensures
        ({
            let upload = directory_upload(uploaded, archives);
            let summary = recorded(SummaryView::empty(), upload.outcomes);
            &&& forall|key: Seq<char>| #[trigger]
                summary.uploaded.contains(key) <==> flattened(archives).contains(key)
                    && !uploaded.contains(key)
            &&& forall|key: Seq<char>| #[trigger]
                summary.skipped.contains(key) <==> flattened(archives).contains(key)
                    && uploaded.contains(key)
            &&& forall|key: Seq<char>| #[trigger]
                upload.uploaded.contains(key) <==> uploaded.contains(key) || flattened(
                    archives,
                ).contains(key)
            &&& summary.failed.len() == 0
            &&& summary.success()
        }),
    decreases archives.len(),
{
    if archives.len() > 0 {
        let shorter = archives.drop_last();
        let keys = archives.last();
        let before = directory_upload(uploaded, shorter);
        let upload = directory_upload(uploaded, archives);
        let earlier = recorded(SummaryView::empty(), before.outcomes);
        let summary = recorded(SummaryView::empty(), upload.outcomes);
        let end = stored(before.uploaded, keys);
        let skipped = distinct(end.skipped);
        lemma_concat_distinct(flattened(shorter), keys);
        lemma_directory(uploaded, shorter);
        lemma_stored(before.uploaded, keys);
        lemma_skipped(before.uploaded, keys);
        law_distinct_keeps_keys(end.skipped);
        lemma_keys_without(keys, skipped);
        assert(upload.outcomes.drop_last() =~= before.outcomes);
        assert(summary == earlier.with_archive(keys, Ok(skipped)));
        assert forall|key: Seq<char>|
            flattened(archives).contains(key) <==> flattened(shorter).contains(key)
                || keys.contains(key) by {
            lemma_concat_contains(flattened(shorter), keys, key);
        }
        assert forall|key: Seq<char>|
            skipped.contains(key) <==> keys.contains(key) && uploaded.contains(key) by {
            assert(skipped.contains(key) <==> end.skipped.contains(key));
            assert(end.skipped.contains(key) <==> keys.contains(key) && before.uploaded.contains(
                key,
            ));
            assert(before.uploaded.contains(key) <==> uploaded.contains(key) || flattened(
                shorter,
            ).contains(key));
            assert(!(flattened(shorter).contains(key) && keys.contains(key)));
        }
        assert forall|key: Seq<char>| #[trigger]
            summary.uploaded.contains(key) <==> flattened(archives).contains(key)
                && !uploaded.contains(key) by {
            lemma_concat_contains(earlier.uploaded, keys_without(keys, skipped), key);
            lemma_concat_contains(flattened(shorter), keys, key);
            assert(keys_without(keys, skipped).contains(key) <==> keys.contains(key)
                && !skipped.contains(key));
            assert(earlier.uploaded.contains(key) <==> flattened(shorter).contains(key)
                && !uploaded.contains(key));
        }
        assert forall|key: Seq<char>| #[trigger]
            summary.skipped.contains(key) <==> flattened(archives).contains(key)
                && uploaded.contains(key) by {
            lemma_concat_contains(earlier.skipped, skipped, key);
            lemma_concat_contains(flattened(shorter), keys, key);
            assert(earlier.skipped.contains(key) <==> flattened(shorter).contains(key)
                && uploaded.contains(key));
        }
        assert forall|key: Seq<char>| #[trigger]
            upload.uploaded.contains(key) <==> uploaded.contains(key) || flattened(
                archives,
            ).contains(key) by {
            lemma_concat_contains(flattened(shorter), keys, key);
            assert(upload.uploaded.contains(key) <==> before.uploaded.contains(key)
                || keys.contains(key));
        }
    }
}

/// The summary of a client that uploads a directory agrees with the storage of the server: what it
/// records as uploaded is what was new, what it records as skipped is what was stored before, and
/// the storage holds what it held and what was uploaded. The client may record the outcomes of the
/// archives in any order.
pub proof fn law_directory_agrees_with_storage(
    uploaded: Seq<Seq<char>>,
    archives: Seq<Seq<Seq<char>>>,
    outcomes: Seq<OutcomeView>,
    key: Seq<char>,
)
    requires
        flattened(archives).no_duplicates(),
        outcomes.to_multiset() == directory_upload(uploaded, archives).outcomes.to_multiset(),
    ensures
        ({
            let summary = summarized(outcomes, Seq::empty(), Ok(()));
            let end = directory_upload(uploaded, archives).uploaded;
            &&& summary.uploaded.contains(key) <==> flattened(archives).contains(key)
                && !uploaded.contains(key)
            &&& summary.skipped.contains(key) <==> flattened(archives).contains(key)
                && uploaded.contains(key)
            &&& end.contains(key) <==> uploaded.contains(key) || summary.uploaded.contains(key)
            &&& summary.failed.len() == 0
            &&& summary.success()
        }),
{
    lemma_directory(uploaded, archives);
    let upload = directory_upload(uploaded, archives);
    let in_order = recorded(SummaryView::empty(), upload.outcomes);
    let summary = summarized(outcomes, Seq::empty(), Ok(()));
    law_order_does_not_matter(outcomes, upload.outcomes, Seq::empty(), Ok(()));
    assert(tally(summary) == tally(in_order));
    lemma_contains_count(summary.uploaded, key);
    lemma_contains_count(in_order.uploaded, key);
    lemma_contains_count(summary.skipped, key);
    lemma_contains_count(in_order.skipped, key);
    lemma_same_length(summary.failed, in_order.failed);
    assert(in_order.uploaded.contains(key) <==> flattened(archives).contains(key)
        && !uploaded.contains(key));
    assert(in_order.skipped.contains(key) <==> flattened(archives).contains(key)
        && uploaded.contains(key));
    assert(upload.uploaded.contains(key) <==> uploaded.contains(key) || flattened(
        archives,
    ).contains(key));
}

/// Two uploads to a server that knew no files, the second of a directory that holds all files of
/// the first, however either is split into archives, and in whatever order their outcomes are
/// recorded. What the second upload skips is what the first one uploaded, they upload different
/// files, and together they upload what is stored in the end. Nothing fails.
pub proof fn law_second_directory_upload(
    first: Seq<Seq<Seq<char>>>,
    second: Seq<Seq<Seq<char>>>,
    outcomes1: Seq<OutcomeView>,
    outcomes2: Seq<OutcomeView>,
    key: Seq<char>,
)
    requires
        flattened(first).no_duplicates(),
        flattened(second).no_duplicates(),
        forall|k: Seq<char>| #[trigger]
            flattened(first).contains(k) ==> flattened(second).contains(k),
        outcomes1.to_multiset() == directory_upload(Seq::empty(), first).outcomes.to_multiset(),
        outcomes2.to_multiset() == directory_upload(
            directory_upload(Seq::empty(), first).uploaded,
            second,
        ).outcomes.to_multiset(),
    ensures
        ({
            let end1 = directory_upload(Seq::empty(), first).uploaded;
            let end2 = directory_upload(end1, second).uploaded;
            let summary1 = summarized(outcomes1, Seq::empty(), Ok(()));
            let summary2 = summarized(outcomes2, Seq::empty(), Ok(()));
            &&& summary1.uploaded.contains(key) <==> flattened(first).contains(key)
            &&& summary1.uploaded.contains(key) <==> end1.contains(key)
            &&& summary1.skipped.len() == 0
            &&& summary2.skipped.contains(key) <==> summary1.uploaded.contains(key)
            &&& !(summary1.uploaded.contains(key) && summary2.uploaded.contains(key))
            &&& end2.contains(key) <==> summary1.uploaded.contains(key)
                || summary2.uploaded.contains(key)
            &&& end2.contains(key) <==> flattened(second).contains(key)
            &&& summary1.failed.len() == 0 && summary1.success()
            &&& summary2.failed.len() == 0 && summary2.success()
        }),
{
    let none = Seq::<Seq<char>>::empty();
    let end1 = directory_upload(none, first).uploaded;
    let skipped = summarized(outcomes1, Seq::empty(), Ok(())).skipped;
    law_directory_agrees_with_storage(none, first, outcomes1, key);
    law_directory_agrees_with_storage(end1, second, outcomes2, key);
    assert(!none.contains(key));
    if skipped.len() > 0 {
        law_directory_agrees_with_storage(none, first, outcomes1, skipped[0]);
        assert(skipped.contains(skipped[0]));
        assert(!none.contains(skipped[0]));
    }
    if flattened(first).contains(key) {
        assert(flattened(second).contains(key));
    }
}

/// The keys of the archives that a client makes of files.
pub open spec fn archived(temp_path: Seq<u8>, threshold: u64, files: Seq<Addition>) -> Seq<
    Seq<Seq<char>>,
> {
    archives_of(temp_path, threshold, files).map_values(|a: ArchiveView| a.keys)
}

/// The keys of files.
pub open spec fn file_keys(files: Seq<Addition>) -> Seq<Seq<char>> {
    files.map_values(|f: Addition| f.0)
}

proof fn lemma_flattened(archives: Seq<ArchiveView>)
    ensures
        flattened(archives.map_values(|a: ArchiveView| a.keys)) == keys_of(archives),
    decreases archives.len(),
{
    if archives.len() > 0 {
        lemma_flattened(archives.drop_last());
        assert(archives.map_values(|a: ArchiveView| a.keys).drop_last()
            =~= archives.drop_last().map_values(|a: ArchiveView| a.keys));
    }
}

proof fn lemma_flattened_without(archives: Seq<Seq<Seq<char>>>, i: int)
    requires
        0 <= i < archives.len(),
    ensures
        flattened(archives).to_multiset() == flattened(archives.remove(i)).to_multiset().add(
            archives[i].to_multiset(),
        ),
    decreases archives.len(),
{
    let shorter = archives.drop_last();
    let last = archives.last();
    lemma_multiset_commutative(flattened(shorter), last);
    if i == archives.len() - 1 {
        assert(archives.remove(i) =~= shorter);
    } else {
        lemma_flattened_without(shorter, i);
        assert(archives.remove(i).drop_last() =~= shorter.remove(i));
        assert(archives.remove(i).last() == last);
        lemma_multiset_commutative(flattened(shorter.remove(i)), last);
        let rest = flattened(shorter.remove(i)).to_multiset();
        let one = archives[i].to_multiset();
        assert(rest.add(one).add(last.to_multiset()) =~= rest.add(last.to_multiset()).add(one));
    }
}

proof fn lemma_flattened_permuted(a: Seq<Seq<Seq<char>>>, b: Seq<Seq<Seq<char>>>)
    requires
        a.to_multiset() == b.to_multiset(),
    ensures
        flattened(a).to_multiset() == flattened(b).to_multiset(),
    decreases a.len(),
{
    lemma_same_length(a, b);
    if a.len() > 0 {
        let i = lemma_find_last(a, b);
        lemma_flattened_permuted(a.drop_last(), b.remove(i));
        lemma_flattened_without(b, i);
        lemma_multiset_commutative(flattened(a.drop_last()), a.last());
    }
}

/// Archives in another order hold the files of a directory, too.
proof fn lemma_archived(
    temp_path: Seq<u8>,
    threshold: u64,
    files: Seq<Addition>,
    archives: Seq<Seq<Seq<char>>>,
)
    requires
        file_keys(files).no_duplicates(),
        archives.to_multiset() == archived(temp_path, threshold, files).to_multiset(),
    ensures
        flattened(archives).no_duplicates(),
        forall|key: Seq<char>| #[trigger]
            flattened(archives).contains(key) <==> file_keys(files).contains(key),
{
    let keys = file_keys(files);
    law_archives_hold_all_files(temp_path, threshold, files);
    lemma_flattened(archives_of(temp_path, threshold, files));
    lemma_flattened_permuted(archives, archived(temp_path, threshold, files));
    assert(flattened(archives).to_multiset() == keys.to_multiset());
    keys.lemma_multiset_has_no_duplicates();
    flattened(archives).lemma_multiset_has_no_duplicates_conv();
    assert forall|key: Seq<char>| #[trigger]
        flattened(archives).contains(key) <==> keys.contains(key) by {
        lemma_contains_count(flattened(archives), key);
        lemma_contains_count(keys, key);
    }
}

/// The same for the archives that a client makes of two directories of files, each with its own
/// threshold for the size of archives. The server may take the archives in any order.
pub proof fn law_second_upload_of_files(
    temp_path: Seq<u8>,
    threshold1: u64,
    files1: Seq<Addition>,
    first: Seq<Seq<Seq<char>>>,
    outcomes1: Seq<OutcomeView>,
    threshold2: u64,
    files2: Seq<Addition>,
    second: Seq<Seq<Seq<char>>>,
    outcomes2: Seq<OutcomeView>,
    key: Seq<char>,
)
    requires
        file_keys(files1).no_duplicates(),
        file_keys(files2).no_duplicates(),
        forall|k: Seq<char>| #[trigger]
            file_keys(files1).contains(k) ==> file_keys(files2).contains(k),
        first.to_multiset() == archived(temp_path, threshold1, files1).to_multiset(),
        second.to_multiset() == archived(temp_path, threshold2, files2).to_multiset(),
        outcomes1.to_multiset() == directory_upload(Seq::empty(), first).outcomes.to_multiset(),
        outcomes2.to_multiset() == directory_upload(
            directory_upload(Seq::empty(), first).uploaded,
            second,
        ).outcomes.to_multiset(),
    ensures
        ({
            let end1 = directory_upload(Seq::empty(), first).uploaded;
            let end2 = directory_upload(end1, second).uploaded;
            let summary1 = summarized(outcomes1, Seq::empty(), Ok(()));
            let summary2 = summarized(outcomes2, Seq::empty(), Ok(()));
            &&& summary1.uploaded.contains(key) <==> file_keys(files1).contains(key)
            &&& summary1.uploaded.contains(key) <==> end1.contains(key)
            &&& summary1.skipped.len() == 0
            &&& summary2.skipped.contains(key) <==> summary1.uploaded.contains(key)
            &&& !(summary1.uploaded.contains(key) && summary2.uploaded.contains(key))
            &&& end2.contains(key) <==> summary1.uploaded.contains(key)
                || summary2.uploaded.contains(key)
            &&& end2.contains(key) <==> file_keys(files2).contains(key)
            &&& summary1.failed.len() == 0 && summary1.success()
            &&& summary2.failed.len() == 0 && summary2.success()
        }),
{
    lemma_archived(temp_path, threshold1, files1, first);
    lemma_archived(temp_path, threshold2, files2, second);
    assert forall|k: Seq<char>| #[trigger] flattened(first).contains(k) implies flattened(
        second,
    ).contains(k) by {
        assert(file_keys(files1).contains(k));
        assert(file_keys(files2).contains(k));
    }
    law_second_directory_upload(first, second, outcomes1, outcomes2, key);
    assert(flattened(first).contains(key) <==> file_keys(files1).contains(key));
    assert(flattened(second).contains(key) <==> file_keys(files2).contains(key));
}

} // verus!

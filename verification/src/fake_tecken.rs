//! A fake symbols server for tests, without the network around it.
//!
//! The server keeps track of uploaded files and correctly returns which keys it skipped.

pub mod directory;
pub mod exchange;
pub mod storage;
pub mod v2;

use crate::base::AuthInfo;
use crate::fake_tecken::storage::{StorageView, SymbolsStorage};
use crate::keys::{distinct, law_distinct_keeps_keys, with_key};
use crate::summary::{law_uploaded_archive_is_accounted_for, SummaryView};
use crate::text::texts;
use vstd::prelude::*;

verus! {

/// The user that all tokens belong to.
pub const USER: &'static str = "user@mozilla.com";

/// How long a token is valid from now on, in seconds.
pub const TOKEN_LIFETIME: u64 = 86_400;

/// The status for a request that cannot be understood.
pub const BAD_REQUEST: u16 = 400;

/// The status for something that does not exist.
pub const NOT_FOUND: u16 = 404;

/// The names of the files and directories in a ZIP archive, in the order of its directory, or
/// `None` if the bytes are not an archive.
pub uninterp spec fn zip_names(bytes: Seq<u8>) -> Option<Seq<Seq<char>>>;

/// The views of the names, if there are any.
pub open spec fn names_view(names: Option<Vec<String>>) -> Option<Seq<Seq<char>>> {
    match names {
        Some(list) => Some(texts(list@)),
        None => None,
    }
}

/// Calls `zip::ZipArchive::new` and `zip::ZipArchive::file_names` on the archive.
///
/// The result is a function of the bytes. Which bytes are an archive, and how names are decoded,
/// is not said.
#[verifier::external_body]
fn member_names(bytes: &[u8]) -> (res: Option<Vec<String>>)
    ensures
        names_view(res) == zip_names(bytes@),
{
    match zip::ZipArchive::new(std::io::Cursor::new(bytes)) {
        Ok(archive) => Some(archive.file_names().map(|name| name.to_owned()).collect()),
        Err(_) => None,
    }
}

/// What the server tells about an upload.
#[derive(Debug)]
pub struct Upload {
    pub id: u32,
    pub skipped_keys: Vec<String>,
}

/// The keys of stored files, and the keys that were skipped.
#[verifier::ext_equal]
pub struct Stored {
    pub uploaded: Seq<Seq<char>>,
    pub skipped: Seq<Seq<char>>,
}

/// What storing the files of an archive one by one comes to. A file that is stored already is
/// skipped.
pub open spec fn stored(uploaded: Seq<Seq<char>>, names: Seq<Seq<char>>) -> Stored
    decreases names.len(),
{
    if names.len() == 0 {
        Stored { uploaded, skipped: Seq::empty() }
    } else {
        let before = stored(uploaded, names.drop_last());
        let name = names.last();
        if before.uploaded.contains(name) {
            Stored { skipped: before.skipped.push(name), ..before }
        } else {
            Stored { uploaded: before.uploaded.push(name), ..before }
        }
    }
}

/// Store the files with the given names, unless they are stored already.
pub fn store_files(storage: &mut SymbolsStorage, names: Vec<String>) -> (res: Upload)
    requires
        old(storage)@.uploads < u32::MAX,
    ensures
        final(storage)@ == (StorageView {
            uploaded: stored(old(storage)@.uploaded, texts(names@)).uploaded,
            uploads: old(storage)@.uploads + 1,
            ..old(storage)@
        }),
        res.id == old(storage)@.uploads + 1,
        texts(res.skipped_keys@) == stored(old(storage)@.uploaded, texts(names@)).skipped,
{
    let ghost before = storage@;
    let id = storage.new_upload();
    let mut skipped_keys: Vec<String> = Vec::new();
    assert(texts(skipped_keys@) =~= Seq::<Seq<char>>::empty());
    assert(texts(names@.take(0)) =~= Seq::<Seq<char>>::empty());
    for name in it: names
        invariant
            it.seq() == names@,
            storage@ == (StorageView {
                uploaded: stored(before.uploaded, texts(names@.take(it.index() as int))).uploaded,
                uploads: before.uploads + 1,
                ..before
            }),
            texts(skipped_keys@) == stored(
                before.uploaded,
                texts(names@.take(it.index() as int)),
            ).skipped,
    {
        let ghost i = it.index() as int;
        let ghost skipped = skipped_keys@;
        assert(texts(names@.take(i + 1)).drop_last() =~= texts(names@.take(i)));
        assert(texts(names@.take(i + 1)).last() == name@);
        if storage.uploaded_files().contains(name.as_str()) {
            skipped_keys.push(name);
            assert(texts(skipped_keys@) =~= texts(skipped).push(name@));
        } else {
            storage.upload_file(name);
        }
    }
    assert(names@.take(names@.len() as int) =~= names@);
    Upload { id, skipped_keys }
}

/// Take the upload of a ZIP archive. Bytes that are not an archive are a bad request.
pub fn upload(storage: &mut SymbolsStorage, archive: &[u8]) -> (res: Result<Upload, u16>)
    requires
        old(storage)@.uploads < u32::MAX,
    ensures
        res is Ok <==> zip_names(archive@) is Some,
        res matches Err(status) ==> status == BAD_REQUEST && final(storage)@ == old(storage)@,
        res matches Err(status) ==> status == 400,
        res matches Ok(upload) ==> {
            let end = stored(old(storage)@.uploaded, zip_names(archive@)->0);
            &&& final(storage)@ == (StorageView {
                uploaded: end.uploaded,
                uploads: old(storage)@.uploads + 1,
                ..old(storage)@
            })
            &&& upload.id == old(storage)@.uploads + 1
            &&& texts(upload.skipped_keys@) == end.skipped
        },
{
    match member_names(archive) {
        Some(names) => Ok(store_files(storage, names)),
        None => Err(BAD_REQUEST),
    }
}

/// What the server tells about every token at the given time, in seconds since the epoch.
pub fn auth_info(now: u64, upload_api_version: u32) -> (res: AuthInfo)
    requires
        now + TOKEN_LIFETIME <= u64::MAX,
    ensures
        res.email@ == USER@,
        res.email@ == "user@mozilla.com"@,
        !res.try_symbols,
        res.token_expires_at == now + TOKEN_LIFETIME,
        res.token_expires_at == now + 24 * 60 * 60,
        res.upload_api_version == upload_api_version,
{
    AuthInfo {
        email: USER.to_owned(),
        try_symbols: false,
        token_expires_at: now + TOKEN_LIFETIME,
        upload_api_version,
    }
}

/// What is stored, and how often files were stored or skipped.
pub proof fn lemma_stored(uploaded: Seq<Seq<char>>, names: Seq<Seq<char>>)
    ensures
        uploaded.is_prefix_of(stored(uploaded, names).uploaded),
        uploaded.no_duplicates() ==> stored(uploaded, names).uploaded.no_duplicates(),
        stored(uploaded, names).uploaded.len() + stored(uploaded, names).skipped.len()
            == uploaded.len() + names.len(),
        forall|name: Seq<char>| #[trigger]
            stored(uploaded, names).uploaded.contains(name) <==> uploaded.contains(name)
                || names.contains(name),
    decreases names.len(),
{
    if names.len() == 0 {
        assert(stored(uploaded, names).uploaded.subrange(0, uploaded.len() as int) =~= uploaded);
    } else {
        lemma_stored(uploaded, names.drop_last());
        let before = stored(uploaded, names.drop_last()).uploaded;
        let after = stored(uploaded, names).uploaded;
        let last = names.last();
        assert(names =~= names.drop_last().push(last));
        assert(after == with_key(before, last));
        assert(after.subrange(0, uploaded.len() as int) =~= before.subrange(
            0,
            uploaded.len() as int,
        ));
        assert forall|name: Seq<char>| #[trigger]
            after.contains(name) <==> uploaded.contains(name) || names.contains(name) by {
            crate::summary::lemma_push_contains(names.drop_last(), last, name);
            crate::summary::lemma_push_contains(before, last, name);
            assert(before.contains(name) <==> uploaded.contains(name) || names.drop_last().contains(
                name,
            ));
        }
    }
}

/// After an upload, everything that was in the archive is stored, nothing that was stored before
/// is lost, and nothing else is stored. Each file of the archive was either stored or skipped.
pub proof fn law_uploaded_files_are_stored(uploaded: Seq<Seq<char>>, names: Seq<Seq<char>>)
    ensures
        uploaded.is_prefix_of(stored(uploaded, names).uploaded),
        forall|name: Seq<char>| #[trigger]
            stored(uploaded, names).uploaded.contains(name) <==> uploaded.contains(name)
                || names.contains(name),
        stored(uploaded, names).uploaded.len() - uploaded.len() + stored(
            uploaded,
            names,
        ).skipped.len() == names.len(),
{
    lemma_stored(uploaded, names);
}

/// When all files of an archive are stored already, nothing changes, and exactly the files of the
/// archive are skipped.
pub proof fn law_stored_files_are_skipped(uploaded: Seq<Seq<char>>, names: Seq<Seq<char>>)
    requires
        forall|i: int| 0 <= i < names.len() ==> uploaded.contains(#[trigger] names[i]),
    ensures
        stored(uploaded, names).uploaded == uploaded,
        stored(uploaded, names).skipped == names,
    decreases names.len(),
{
    if names.len() > 0 {
        let shorter = names.drop_last();
        assert forall|i: int| 0 <= i < shorter.len() implies uploaded.contains(
            #[trigger] shorter[i],
        ) by {
            assert(shorter[i] == names[i]);
        }
        law_stored_files_are_skipped(uploaded, shorter);
        assert(uploaded.contains(names[names.len() - 1]));
        assert(stored(uploaded, names).skipped =~= names);
    } else {
        assert(stored(uploaded, names).skipped =~= names);
    }
}

/// Uploading the same archive a second time skips all of it.
pub proof fn law_second_upload_is_skipped(uploaded: Seq<Seq<char>>, names: Seq<Seq<char>>)
    ensures
        stored(stored(uploaded, names).uploaded, names).skipped == names,
        stored(stored(uploaded, names).uploaded, names).uploaded == stored(uploaded, names).uploaded,
{
    lemma_stored(uploaded, names);
    let once = stored(uploaded, names).uploaded;
    assert forall|i: int| 0 <= i < names.len() implies once.contains(#[trigger] names[i]) by {
        assert(names.contains(names[i]));
    }
    law_stored_files_are_skipped(once, names);
}

/// Files that are not stored yet, each named once, are all stored, in their order.
pub proof fn law_new_files_are_stored(uploaded: Seq<Seq<char>>, names: Seq<Seq<char>>)
    requires
        names.no_duplicates(),
        forall|i: int| 0 <= i < names.len() ==> !uploaded.contains(#[trigger] names[i]),
    ensures
        stored(uploaded, names).uploaded == uploaded + names,
        stored(uploaded, names).skipped.len() == 0,
    decreases names.len(),
{
    if names.len() == 0 {
        assert(uploaded + names =~= uploaded);
    } else {
        let shorter = names.drop_last();
        let last = names.last();
        assert forall|i: int| 0 <= i < shorter.len() implies !uploaded.contains(
            #[trigger] shorter[i],
        ) by {
            assert(shorter[i] == names[i]);
        }
        law_new_files_are_stored(uploaded, shorter);
        let before = uploaded + shorter;
        assert(!uploaded.contains(names[names.len() - 1]));
        assert(!before.contains(last)) by {
            if before.contains(last) {
                let i = choose|i: int| 0 <= i < before.len() && before[i] == last;
                if i < uploaded.len() {
                    assert(uploaded[i] == last);
                } else {
                    assert(names[i - uploaded.len()] == last);
                }
            }
        }
        assert(before.push(last) =~= uploaded + names);
    }
}

/// What is skipped is what was stored before.
pub proof fn lemma_skipped(uploaded: Seq<Seq<char>>, names: Seq<Seq<char>>)
    requires
        names.no_duplicates(),
    ensures
        forall|name: Seq<char>| #[trigger]
            stored(uploaded, names).skipped.contains(name) <==> names.contains(name)
                && uploaded.contains(name),
    decreases names.len(),
{
    if names.len() > 0 {
        let shorter = names.drop_last();
        let last = names.last();
        lemma_skipped(uploaded, shorter);
        lemma_stored(uploaded, shorter);
        let before = stored(uploaded, shorter);
        assert(names =~= shorter.push(last));
        assert(!shorter.contains(last)) by {
            if shorter.contains(last) {
                let i = choose|i: int| 0 <= i < shorter.len() && shorter[i] == last;
                assert(names[i] == names[names.len() - 1]);
            }
        }
        assert(before.uploaded.contains(last) <==> uploaded.contains(last));
        assert forall|name: Seq<char>| #[trigger]
            stored(uploaded, names).skipped.contains(name) <==> names.contains(name)
                && uploaded.contains(name) by {
            crate::summary::lemma_push_contains(shorter, last, name);
            crate::summary::lemma_push_contains(before.skipped, last, name);
            assert(before.skipped.contains(name) <==> shorter.contains(name) && uploaded.contains(
                name,
            ));
        }
    }
}

/// The summary of a client that uploads an archive and is told what was skipped agrees with the
/// storage: what it records as uploaded is what was new, what it records as skipped is what was
/// stored before, and the storage holds what it held and what was uploaded.
pub proof fn law_summary_agrees_with_storage(
    uploaded: Seq<Seq<char>>,
    names: Seq<Seq<char>>,
    name: Seq<char>,
)
    requires
        names.no_duplicates(),
    ensures
        ({
            let end = stored(uploaded, names);
            let summary = SummaryView::empty().with_archive(names, Ok(distinct(end.skipped)));
            &&& summary.uploaded.contains(name) <==> names.contains(name) && !uploaded.contains(name)
            &&& summary.skipped.contains(name) <==> names.contains(name) && uploaded.contains(name)
            &&& end.uploaded.contains(name) <==> uploaded.contains(name)
                || summary.uploaded.contains(name)
            &&& summary.failed.len() == 0
            &&& summary.success()
        }),
{
    let end = stored(uploaded, names);
    let skipped = distinct(end.skipped);
    lemma_stored(uploaded, names);
    lemma_skipped(uploaded, names);
    law_distinct_keeps_keys(end.skipped);
    law_uploaded_archive_is_accounted_for(names, skipped, name);
    assert(end.uploaded.contains(name) <==> uploaded.contains(name) || names.contains(name));
    assert(end.skipped.contains(name) <==> names.contains(name) && uploaded.contains(name));
    assert(skipped.contains(name) <==> end.skipped.contains(name));
}

/// Files are stored one by one: a file that is there already is skipped, and any other is stored
/// behind the others.
pub proof fn law_files_are_stored_in_order(
    uploaded: Seq<Seq<char>>,
    names: Seq<Seq<char>>,
    name: Seq<char>,
)
    ensures
        stored(uploaded, Seq::empty()).uploaded == uploaded,
        stored(uploaded, Seq::empty()).skipped == Seq::<Seq<char>>::empty(),
        stored(uploaded, names).uploaded.contains(name) ==> {
            &&& stored(uploaded, names.push(name)).uploaded == stored(uploaded, names).uploaded
            &&& stored(uploaded, names.push(name)).skipped == stored(uploaded, names).skipped.push(
                name,
            )
        },
        !stored(uploaded, names).uploaded.contains(name) ==> {
            &&& stored(uploaded, names.push(name)).uploaded == stored(
                uploaded,
                names,
            ).uploaded.push(name)
            &&& stored(uploaded, names.push(name)).skipped == stored(uploaded, names).skipped
        },
{
    assert(names.push(name).drop_last() =~= names);
}

/// The names in an archive are seen as they are.
pub proof fn law_names_are_seen_as_they_are(list: Vec<String>)
    ensures
        names_view(Some(list)) == Some(texts(list@)),
        names_view(None) is None,
{
}

} // verus!

//! Downloading the files of earlier uploads, which makes test data for uploads.

use crate::decimal::{decimal, lemma_decimal, push_decimal};
use crate::paths::{join_path, joined};
use crate::pool::{Pool, PoolView};
use crate::text::{join, texts};
use crate::urls::{found, is_plain_reference, joined_url, AbsoluteUrl};
use vstd::prelude::*;
use vstd::utf8::*;

verus! {

/// The maximum number of downloads at the same time.
pub const MAX_CONCURRENT_DOWNLOADS: usize = 6;

/// Where files are downloaded from.
pub const DOWNLOAD_URL: &'static str = "https://symbols.mozilla.org/try/";

/// Where information about an upload is available, below the base URL.
pub const UPLOAD_INFO: &'static str = "api/uploads/upload/";

/// A file that was uploaded.
#[derive(Debug)]
pub struct FileUpload {
    pub key: String,
}

/// What the server tells about an upload.
#[derive(Debug)]
pub struct Upload {
    pub skipped_keys: Vec<String>,
    pub file_uploads: Vec<FileUpload>,
}

/// The keys of files that were uploaded.
pub open spec fn file_keys(list: Seq<FileUpload>) -> Seq<Seq<char>> {
    list.map_values(|f: FileUpload| f.key@)
}

impl Upload {
    /// The keys of all files of the upload: first those that were skipped, then those that were
    /// uploaded.
    pub fn into_keys(self) -> (res: Vec<String>)
        ensures
            texts(res@) == texts(self.skipped_keys@) + file_keys(self.file_uploads@),
    {
        let ghost files = self.file_uploads@;
        let ghost skipped = self.skipped_keys@;
        let mut out = self.skipped_keys;
        assert(texts(out@) =~= texts(skipped) + file_keys(files.take(0)));
        for file in it: self.file_uploads
            invariant
                it.seq() == files,
                texts(out@) == texts(skipped) + file_keys(files.take(it.index() as int)),
        {
            let ghost i = it.index() as int;
            let ghost before = out@;
            out.push(file.key);
            assert(texts(out@) =~= texts(before).push(file.key@));
            assert(file_keys(files.take(i + 1)) =~= file_keys(files.take(i)).push(file.key@));
            assert(texts(out@) =~= texts(skipped) + file_keys(files.take(i + 1)));
        }
        assert(files.take(files.len() as int) =~= files);
        out
    }
}

/// Where information about an upload is available, below the base URL.
pub open spec fn upload_info_path(id: nat) -> Seq<char> {
    UPLOAD_INFO@ + decimal(id)
}

proof fn lemma_upload_info_path(id: nat)
    ensures
        is_plain_reference(upload_info_path(id)),
{
    reveal_strlit("api/uploads/upload/");
    lemma_decimal(id);
    let path = upload_info_path(id);
    assert forall|i: int| 0 <= i < path.len() implies crate::urls::is_reference_char(path[i]) by {
        if i >= 19 {
            assert(path[i] == decimal(id)[i - 19]);
            assert(crate::decimal::is_digit(decimal(id)[i - 19]));
        }
    }
}

/// The URL of the information about an upload, below the URL of the server.
pub fn upload_info_url(server_url: &AbsoluteUrl, id: u64) -> (res: Result<AbsoluteUrl, String>)
    ensures
        found(res) == joined_url(server_url@, upload_info_path(id as nat)),
        server_url@.is_base() ==> (res matches Ok(u) && u@ == server_url@.below(
            upload_info_path(id as nat),
        )),
{
    let mut path = UPLOAD_INFO.to_owned();
    push_decimal(&mut path, id);
    proof {
        lemma_upload_info_path(id as nat);
    }
    server_url.join(path.as_str())
}

/// The URL that a file is downloaded from.
pub fn file_url(key: &str) -> (res: String)
    ensures
        res@ == DOWNLOAD_URL@ + key@,
        res@ == "https://symbols.mozilla.org/try/"@ + key@,
{
    join(DOWNLOAD_URL, key)
}

/// The path that a file is downloaded to.
pub fn file_path(target_directory: &[u8], key: &str) -> (res: Vec<u8>)
    ensures
        res@ == joined(target_directory@, encode_utf8(key@)),
{
    join_path(target_directory, key.as_bytes())
}

/// The limit on concurrent downloads.
pub fn downloads() -> (res: Pool)
    ensures
        res@ == PoolView::empty(MAX_CONCURRENT_DOWNLOADS as nat),
        res@.limit == 6,
{
    Pool::new(MAX_CONCURRENT_DOWNLOADS)
}

/// Information about an upload stands under its number.
pub proof fn law_upload_info_stands_under_number(id: nat)
    ensures
        upload_info_path(id) == "api/uploads/upload/"@ + decimal(id),
{
}

/// The keys of the uploaded files are those of the files one by one, in their order.
pub proof fn law_file_keys_are_in_order(list: Seq<FileUpload>, i: int)
    ensures
        file_keys(list).len() == list.len(),
        0 <= i < list.len() ==> file_keys(list)[i] == list[i].key@,
{
}

} // verus!

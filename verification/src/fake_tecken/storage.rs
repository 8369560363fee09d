//! What the fake symbols server stores.

use crate::keys::{with_key, KeySet};
use std::collections::HashMap;
use vstd::prelude::*;

verus! {

/// The files that have been uploaded, and the uploads that have been started.
pub struct SymbolsStorage {
    uploaded_files: KeySet,
    pending_uploads: HashMap<u32, String>,
    uploads: u32,
    resumable_uploads: u32,
}

/// The keys of the uploaded files in the order in which they came, the keys of the uploads that
/// are not complete yet, the number of uploads, and the number of file uploads.
#[verifier::ext_equal]
pub struct StorageView {
    pub uploaded: Seq<Seq<char>>,
    pub pending: Map<u32, Seq<char>>,
    pub uploads: nat,
    pub resumable_uploads: nat,
}

/// The views of the keys of pending uploads.
pub open spec fn pending_keys(map: Map<u32, String>) -> Map<u32, Seq<char>> {
    map.map_values(|s: String| s@)
}

impl View for SymbolsStorage {
    type V = StorageView;

    closed spec fn view(&self) -> StorageView {
        StorageView {
            uploaded: self.uploaded_files@,
            pending: pending_keys(self.pending_uploads@),
            uploads: self.uploads as nat,
            resumable_uploads: self.resumable_uploads as nat,
        }
    }
}

impl StorageView {
    /// A storage without files.
    pub open spec fn empty() -> StorageView {
        StorageView {
            uploaded: Seq::empty(),
            pending: Map::empty(),
            uploads: 0,
            resumable_uploads: 0,
        }
    }

    /// Whether every pending upload has a number that was given out. So a new number never
    /// belongs to a pending upload.
    pub open spec fn is_numbered(self) -> bool {
        forall|id: u32| #[trigger] self.pending.contains_key(id) ==> id <= self.resumable_uploads
    }

    /// The storage with one more upload.
    pub open spec fn with_upload(self) -> StorageView {
        StorageView { uploads: self.uploads + 1, ..self }
    }

    /// The storage with an upload of a file that was started.
    pub open spec fn with_pending(self, key: Seq<char>) -> StorageView {
        StorageView {
            pending: self.pending.insert((self.resumable_uploads + 1) as u32, key),
            resumable_uploads: self.resumable_uploads + 1,
            ..self
        }
    }

    /// The storage with one more file.
    pub open spec fn with_file(self, key: Seq<char>) -> StorageView {
        StorageView { uploaded: with_key(self.uploaded, key), ..self }
    }

    /// The storage after the upload of a file was completed, if it was pending.
    pub open spec fn completed(self, id: u32) -> StorageView {
        if self.pending.contains_key(id) {
            StorageView { pending: self.pending.remove(id), ..self.with_file(self.pending[id]) }
        } else {
            self
        }
    }
}

impl SymbolsStorage {
    /// Every pending upload has a number that was given out.
    #[verifier::type_invariant]
    spec fn is_valid(self) -> bool {
        forall|id: u32| #[trigger]
            self.pending_uploads@.contains_key(id) ==> id <= self.resumable_uploads
    }

    /// A storage without files.
    pub fn new() -> (res: Self)
        ensures
            res@ == StorageView::empty(),
    {
        broadcast use vstd::std_specs::hash::group_hash_axioms;

        let uploaded_files = KeySet::new();
        let pending_uploads: HashMap<u32, String> = HashMap::new();
        assert(pending_keys(pending_uploads@) =~= Map::<u32, Seq<char>>::empty());
        SymbolsStorage { uploaded_files, pending_uploads, uploads: 0, resumable_uploads: 0 }
    }

    /// The number of uploads that have been started.
    pub fn upload_count(&self) -> (res: u32)
        ensures
            res == self@.uploads,
    {
        self.uploads
    }

    /// The number of uploads of single files that have been started.
    pub fn file_upload_count(&self) -> (res: u32)
        ensures
            res == self@.resumable_uploads,
    {
        self.resumable_uploads
    }

    /// Start an upload, and give it a number.
    pub fn new_upload(&mut self) -> (res: u32)
        requires
            old(self)@.uploads < u32::MAX,
        ensures
            final(self)@ == old(self)@.with_upload(),
            res == old(self)@.uploads + 1,
    {
        proof {
            use_type_invariant(&*self);
        }
        self.uploads = self.uploads + 1;
        self.uploads
    }

    /// Start the upload of a file, and give it a number.
    pub fn initiate_file_upload(&mut self, key: String) -> (res: u32)
        requires
            old(self)@.resumable_uploads < u32::MAX,
        ensures
            final(self)@ == old(self)@.with_pending(key@),
            res == old(self)@.resumable_uploads + 1,
            !old(self)@.pending.contains_key(res),
            final(self)@.is_numbered(),
    {
        broadcast use vstd::std_specs::hash::group_hash_axioms;

        proof {
            use_type_invariant(&*self);
        }
        let ghost before = self@;
        let id: u32 = self.resumable_uploads + 1;
        self.resumable_uploads = id;
        let mut pending: HashMap<u32, String> = HashMap::new();
        assert(pending_keys(pending@) =~= Map::<u32, Seq<char>>::empty());
        std::mem::swap(&mut pending, &mut self.pending_uploads);
        pending.insert(id, key);
        assert(pending_keys(pending@) =~= before.pending.insert(id, key@));
        self.pending_uploads = pending;
        id
    }

    /// Complete the upload of a file, and store the file. `None` means that there is no such
    /// upload.
    pub fn complete_file_upload(&mut self, id: u32) -> (res: Option<String>)
        ensures
            final(self)@ == old(self)@.completed(id),
            res is Some <==> old(self)@.pending.contains_key(id),
            res matches Some(key) ==> key@ == old(self)@.pending[id],
    {
        broadcast use vstd::std_specs::hash::group_hash_axioms;

        proof {
            use_type_invariant(&*self);
        }
        let ghost before = self@;
        let mut pending: HashMap<u32, String> = HashMap::new();
        assert(pending_keys(pending@) =~= Map::<u32, Seq<char>>::empty());
        std::mem::swap(&mut pending, &mut self.pending_uploads);
        let removed = pending.remove(&id);
        assert(pending_keys(pending@) =~= before.pending.remove(id));
        self.pending_uploads = pending;
        match removed {
            Some(key) => {
                self.upload_file(key.clone());
                Some(key)
            },
            None => {
                assert(before.pending.remove(id) =~= before.pending);
                None
            },
        }
    }

    /// Store a file.
    pub fn upload_file(&mut self, key: String)
        ensures
            final(self)@ == old(self)@.with_file(key@),
    {
        proof {
            use_type_invariant(&*self);
        }
        let mut files = KeySet::new();
        std::mem::swap(&mut files, &mut self.uploaded_files);
        self.uploaded_files = files.insert(key);
    }

    /// The keys of the files that have been uploaded.
    pub fn uploaded_files(&self) -> (res: &KeySet)
        ensures
            res@ == self@.uploaded,
    {
        &self.uploaded_files
    }

    /// The keys of the uploads that have been started and are not complete yet.
    pub fn pending_uploads(&self) -> (res: &HashMap<u32, String>)
        ensures
            pending_keys(res@) == self@.pending,
            self@.is_numbered(),
    {
        proof {
            use_type_invariant(self);
        }
        &self.pending_uploads
    }
}

impl Default for SymbolsStorage {
    fn default() -> (res: Self)
        ensures
            res@ == StorageView::empty(),
    {
        SymbolsStorage::new()
    }
}

/// An upload that was started and completed stores its file, and leaves no trace among the
/// pending uploads.
pub proof fn law_completed_upload_is_stored(storage: StorageView, key: Seq<char>)
    requires
        storage.is_numbered(),
        storage.resumable_uploads < u32::MAX,
    ensures
        ({
            let id = (storage.resumable_uploads + 1) as u32;
            let end = storage.with_pending(key).completed(id);
            &&& end.uploaded == with_key(storage.uploaded, key)
            &&& end.uploaded.contains(key)
            &&& end.pending == storage.pending
        }),
{
    let id = (storage.resumable_uploads + 1) as u32;
    let end = storage.with_pending(key).completed(id);
    assert(!storage.pending.contains_key(id));
    assert(end.pending =~= storage.pending);
    crate::summary::lemma_push_contains(storage.uploaded, key, key);
}

/// Numbers are given out once: whatever happens to a storage, pending uploads keep a number that
/// was given out.
pub proof fn law_uploads_stay_numbered(storage: StorageView, key: Seq<char>, id: u32)
    requires
        storage.is_numbered(),
    ensures
        StorageView::empty().is_numbered(),
        storage.with_upload().is_numbered(),
        storage.with_file(key).is_numbered(),
        storage.completed(id).is_numbered(),
        storage.resumable_uploads < u32::MAX ==> storage.with_pending(key).is_numbered()
            && !storage.pending.contains_key((storage.resumable_uploads + 1) as u32),
{
}

/// Every step changes its own part of the storage and nothing else: a new upload raises the number
/// of uploads, a file that is stored comes last unless it is there, and an upload of a file that is
/// started is pending under the next number.
pub proof fn law_steps_change_their_part(storage: StorageView, key: Seq<char>)
    requires
        storage.resumable_uploads < u32::MAX,
    ensures
        storage.with_upload() == (StorageView { uploads: storage.uploads + 1, ..storage }),
        storage.with_file(key) == (StorageView {
            uploaded: if storage.uploaded.contains(key) {
                storage.uploaded
            } else {
                storage.uploaded.push(key)
            },
            ..storage
        }),
        storage.with_pending(key).resumable_uploads == storage.resumable_uploads + 1,
        storage.with_pending(key).pending == storage.pending.insert(
            (storage.resumable_uploads + 1) as u32,
            key,
        ),
        storage.with_pending(key).uploaded == storage.uploaded,
        storage.with_pending(key).uploads == storage.uploads,
{
}

/// An upload that is completed is no longer pending, and its file is stored. Other uploads stay
/// pending, and a number that is not pending changes nothing.
pub proof fn law_completion_stores_pending_file(storage: StorageView, id: u32, other: u32)
    ensures
        !storage.pending.contains_key(id) ==> storage.completed(id) == storage,
        storage.pending.contains_key(id) ==> {
            &&& storage.completed(id).uploaded == if storage.uploaded.contains(storage.pending[id]) {
                storage.uploaded
            } else {
                storage.uploaded.push(storage.pending[id])
            }
            &&& storage.completed(id).pending == storage.pending.remove(id)
            &&& storage.completed(id).uploads == storage.uploads
            &&& storage.completed(id).resumable_uploads == storage.resumable_uploads
        },
        !storage.completed(id).pending.contains_key(id),
        other != id && storage.pending.contains_key(other) ==> storage.completed(
            id,
        ).pending.contains_key(other) && storage.completed(id).pending[other]
            == storage.pending[other],
{
}

/// A new storage is empty.
pub proof fn law_new_storage_is_empty()
    ensures
        StorageView::empty().uploaded == Seq::<Seq<char>>::empty(),
        StorageView::empty().pending == Map::<u32, Seq<char>>::empty(),
        StorageView::empty().uploads == 0,
        StorageView::empty().resumable_uploads == 0,
{
}

/// Pending uploads are seen number by number.
pub proof fn law_pending_keys_are_seen_by_number(map: Map<u32, String>, id: u32)
    ensures
        pending_keys(map).contains_key(id) <==> map.contains_key(id),
        map.contains_key(id) ==> pending_keys(map)[id] == map[id]@,
{
}

} // verus!

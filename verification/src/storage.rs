//! What a storage provider keeps: the files uploaded to it, each under the
//! hash of its name and contents.
use vstd::prelude::*;

use crate::digest::{file_hash, file_hash_spec, is_hex_digest};
use crate::protocol::{
    accepts_upload, upload_refused_spec, upload_reply, upload_started_spec, StorageRequest,
    CAPACITY,
};

verus! {

/// A file held by a storage provider.
pub struct StoredFile {
    pub hash: String,
    pub content: Vec<u8>,
}

pub struct StoredFileModel {
    pub hash: Seq<char>,
    pub content: Seq<u8>,
}

impl View for StoredFile {
    type V = StoredFileModel;

    open spec fn view(&self) -> StoredFileModel {
        StoredFileModel { hash: self.hash@, content: self.content@ }
    }
}

/// The files that a storage provider holds, oldest first.
pub struct StoredFiles {
    pub stored_files: Vec<StoredFile>,
}

impl View for StoredFiles {
    type V = Seq<StoredFileModel>;

    open spec fn view(&self) -> Seq<StoredFileModel> {
        self.stored_files@.map_values(|f: StoredFile| f@)
    }
}

/// Whether some file in `files` is stored under `hash`.
pub open spec fn holds_hash(files: Seq<StoredFileModel>, hash: Seq<char>) -> bool {
    exists|i: int| 0 <= i < files.len() && (#[trigger] files[i]).hash == hash
}

/// Whether `i` is the position of the oldest file stored under `hash`.
pub open spec fn is_first_with_hash(files: Seq<StoredFileModel>, hash: Seq<char>, i: int) -> bool {
    &&& 0 <= i < files.len()
    &&& files[i].hash == hash
    &&& forall|j: int| 0 <= j < i ==> (#[trigger] files[j]).hash != hash
}

/// The position of the oldest file stored under `hash` (meaningful when there is one).
pub open spec fn first_with_hash(files: Seq<StoredFileModel>, hash: Seq<char>) -> int {
    choose|i: int| is_first_with_hash(files, hash, i)
}

/// The message with which a download of an unknown hash is refused.
pub open spec fn hash_not_found_spec() -> Seq<char> {
    seq!['h', 'a', 's', 'h', ' ', 'n', 'o', 't', ' ', 'f', 'o', 'u', 'n', 'd']
}

proof fn lemma_first_with_hash_unique(files: Seq<StoredFileModel>, hash: Seq<char>, i: int)
    requires
        is_first_with_hash(files, hash, i),
    ensures
        first_with_hash(files, hash) == i,
{
    let k = first_with_hash(files, hash);
    assert(is_first_with_hash(files, hash, k));
    if k < i {
        assert(files[k].hash != hash);
    } else if i < k {
        assert(files[i].hash != hash);
    }
}

/// The file that `receive_upload` makes of the bytes received for `file_name`.
pub open spec fn received_file_spec(file_name: Seq<char>, content: Seq<u8>) -> StoredFileModel {
    StoredFileModel { hash: file_hash_spec(file_name, content), content }
}

/// The file that a provider keeps for an upload of `content` named `file_name`.
pub fn receive_upload(file_name: &str, content: Vec<u8>) -> (file: StoredFile)
    ensures
        file@ == received_file_spec(file_name@, content@),
        is_hex_digest(file.hash@),
{
    let hash = file_hash(file_name, content.as_slice());
    StoredFile { hash, content }
}

impl StoredFiles {
    /// No files.
    pub fn new() -> (store: StoredFiles)
        ensures
            store@ == Seq::<StoredFileModel>::empty(),
    {
        let store = StoredFiles { stored_files: Vec::new() };
        assert(store@ =~= Seq::<StoredFileModel>::empty());
        store
    }

    /// Keeps `file` after all the others.
    pub fn store(&mut self, file: StoredFile)
        ensures
            final(self)@ == old(self)@.push(file@),
    {
        let ghost before = self.stored_files@;
        self.stored_files.push(file);
        assert(self.stored_files@.map_values(|f: StoredFile| f@) =~= before.map_values(
            |f: StoredFile| f@,
        ).push(file@));
    }

    /// The position of the oldest file stored under `hash`, if any.
    pub fn position_of(&self, hash: &String) -> (pos: Option<usize>)
        ensures
            match pos {
                Some(i) => is_first_with_hash(self@, hash@, i as int),
                None => !holds_hash(self@, hash@),
            },
    {
        let n = self.stored_files.len();
        let mut i: usize = 0;
        while i < n
            invariant
                n == self.stored_files@.len(),
                i <= n,
                forall|j: int| 0 <= j < i ==> (#[trigger] self@[j]).hash != hash@,
            decreases n - i,
        {
            if self.stored_files[i].hash == *hash {
                return Some(i);
            }
            i = i + 1;
        }
        None
    }

    /// Hands out and forgets the oldest file stored under `hash`; refuses with
    /// `hash not found`, changing nothing, when there is none.
    pub fn take(&mut self, hash: &String) -> (res: Result<StoredFile, String>)
        ensures
            res is Ok <==> holds_hash(old(self)@, hash@),
            res matches Ok(f) ==> f@ == old(self)@[first_with_hash(old(self)@, hash@)]
                && final(self)@ == old(self)@.remove(first_with_hash(old(self)@, hash@)),
            res matches Err(e) ==> e@ == hash_not_found_spec() && final(self)@ == old(self)@,
    {
        match self.position_of(hash) {
            Some(i) => {
                proof {
                    lemma_first_with_hash_unique(self@, hash@, i as int);
                }
                let ghost before = self.stored_files@;
                let f = self.stored_files.remove(i);
                assert(self.stored_files@.map_values(|f: StoredFile| f@) =~= before.map_values(
                    |f: StoredFile| f@,
                ).remove(i as int));
                Ok(f)
            },
            None => {
                proof {
                    reveal_strlit("hash not found");
                }
                Err(String::from_str("hash not found"))
            },
        }
    }
}

/// What a storage provider does about a request.
pub enum ProviderAction {
    /// Send `reply` (the capacity refusal) and read nothing more.
    RefuseUpload { reply: &'static str },
    /// Send `reply` (the go-ahead), then read the file's bytes and keep them
    /// under `file_name`, which the request may lack.
    ReceiveUpload { reply: &'static str, file_name: Option<String> },
    /// Send the bytes of the file that was asked for; it is no longer kept.
    SendFile { content: Vec<u8> },
    /// Send `message`: no file is kept under the hash asked for.
    SendError { message: String },
}

/// Decides what a storage provider does about `request`: uploads within
/// [`crate::protocol::CAPACITY`] are received and larger ones refused; a
/// download hands out (and forgets) the oldest file kept under the hash, or
/// answers `hash not found`.
pub fn handle_request(store: &mut StoredFiles, request: StorageRequest) -> (action: ProviderAction)
    ensures
        match request {
            StorageRequest::Upload { size, file_name } => {
                &&& final(store)@ == old(store)@
                &&& accepts_upload(size) ==> (action matches ProviderAction::ReceiveUpload {
                    reply,
                    file_name: n,
                } && reply@ == upload_started_spec() && n == file_name)
                &&& !accepts_upload(size) ==> (action matches ProviderAction::RefuseUpload { reply }
                    && reply@ == upload_refused_spec())
                &&& size <= CAPACITY ==> action is ReceiveUpload
                &&& size > CAPACITY ==> (action matches ProviderAction::RefuseUpload { reply }
                    && reply@ == upload_refused_spec())
            },
            StorageRequest::Download { hash } => {
                &&& holds_hash(old(store)@, hash@) ==> (action matches ProviderAction::SendFile {
                    content,
                } && content@ == old(store)@[first_with_hash(old(store)@, hash@)].content
                    && final(store)@ == old(store)@.remove(first_with_hash(old(store)@, hash@)))
                &&& !holds_hash(old(store)@, hash@) ==> (action matches ProviderAction::SendError {
                    message,
                } && message@ == hash_not_found_spec() && final(store)@ == old(store)@)
            },
        },
{
    match request {
        StorageRequest::Upload { size, file_name } => {
            let reply = upload_reply(size);
            if size <= crate::protocol::CAPACITY {
                ProviderAction::ReceiveUpload { reply, file_name }
            } else {
                ProviderAction::RefuseUpload { reply }
            }
        },
        StorageRequest::Download { hash } => match store.take(&hash) {
            Ok(file) => ProviderAction::SendFile { content: file.content },
            Err(message) => ProviderAction::SendError { message },
        },
    }
}

/// A file stored under a hash that no other stored file has is the one that a
/// later request for that hash hands out, and handing it out leaves the files
/// as they were before it was stored.
pub proof fn lemma_take_after_store(files: Seq<StoredFileModel>, file: StoredFileModel)
    requires
        !holds_hash(files, file.hash),
    ensures
        holds_hash(files.push(file), file.hash),
        first_with_hash(files.push(file), file.hash) == files.len(),
        files.push(file)[files.len() as int] == file,
        files.push(file).remove(files.len() as int) == files,
{
    let all = files.push(file);
    let n = files.len() as int;
    assert(all[n] == file);
    assert forall|j: int| 0 <= j < n implies (#[trigger] all[j]).hash != file.hash by {
        assert(all[j] == files[j]);
    }
    lemma_first_with_hash_unique(all, file.hash, n);
    assert(all.remove(n) =~= files);
}

/// Storing a file does not change which file an earlier-held hash hands out.
pub proof fn lemma_store_keeps_earlier(files: Seq<StoredFileModel>, file: StoredFileModel, hash: Seq<char>)
    requires
        holds_hash(files, hash),
    ensures
        holds_hash(files.push(file), hash),
        first_with_hash(files.push(file), hash) == first_with_hash(files, hash),
{
    let i = choose|i: int| 0 <= i < files.len() && (#[trigger] files[i]).hash == hash;
    let k = first_with_hash_exists(files, hash, i);
    let all = files.push(file);
    assert(all[k] == files[k]);
    assert forall|j: int| 0 <= j < k implies (#[trigger] all[j]).hash != hash by {
        assert(all[j] == files[j]);
    }
    lemma_first_with_hash_unique(files, hash, k);
    lemma_first_with_hash_unique(all, hash, k);
}

/// When some file has `hash`, there is an oldest one.
proof fn first_with_hash_exists(files: Seq<StoredFileModel>, hash: Seq<char>, i: int) -> (k: int)
    requires
        0 <= i < files.len(),
        files[i].hash == hash,
    ensures
        is_first_with_hash(files, hash, k),
    decreases i,
{
    if exists|j: int| 0 <= j < i && (#[trigger] files[j]).hash == hash {
        let j = choose|j: int| 0 <= j < i && (#[trigger] files[j]).hash == hash;
        first_with_hash_exists(files, hash, j)
    } else {
        i
    }
}

} // verus!

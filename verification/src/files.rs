//! A client's record of its uploaded files: name, content hash, and the
//! provider that holds each.
use vstd::prelude::*;

verus! {

/// What a client remembers of a file it uploaded.
pub struct FileInfo {
    pub hash: String,
    pub name: String,
    pub provider_id: String,
}

pub struct FileInfoModel {
    pub hash: Seq<char>,
    pub name: Seq<char>,
    pub provider_id: Seq<char>,
}

impl View for FileInfo {
    type V = FileInfoModel;

    open spec fn view(&self) -> FileInfoModel {
        FileInfoModel { hash: self.hash@, name: self.name@, provider_id: self.provider_id@ }
    }
}

/// The models of a list of file records.
pub open spec fn file_infos(files: Seq<FileInfo>) -> Seq<FileInfoModel> {
    files.map_values(|f: FileInfo| f@)
}

/// Whether some record in `files` has the name `name`.
pub open spec fn name_in_use(files: Seq<FileInfoModel>, name: Seq<char>) -> bool {
    exists|i: int| 0 <= i < files.len() && (#[trigger] files[i]).name == name
}

/// Whether no two records in `files` share a name.
pub open spec fn names_distinct(files: Seq<FileInfoModel>) -> bool {
    forall|i: int, j: int|
        0 <= i < files.len() && 0 <= j < files.len() && i != j ==> (#[trigger] files[i]).name
            != (#[trigger] files[j]).name
}

/// Whether `i` is the position of the first record named `name`.
pub open spec fn is_first_named(files: Seq<FileInfoModel>, name: Seq<char>, i: int) -> bool {
    &&& 0 <= i < files.len()
    &&& files[i].name == name
    &&& forall|j: int| 0 <= j < i ==> (#[trigger] files[j]).name != name
}

/// The position of the first record named `name` (meaningful when there is one).
pub open spec fn first_named(files: Seq<FileInfoModel>, name: Seq<char>) -> int {
    choose|i: int| is_first_named(files, name, i)
}

/// `File with this name already exists. Change file name`
pub open spec fn name_taken_message_spec() -> Seq<char> {
    seq!['F', 'i', 'l', 'e', ' ', 'w', 'i', 't', 'h', ' ', 't', 'h', 'i', 's', ' ', 'n', 'a', 'm', 'e']
        + seq![' ', 'a', 'l', 'r', 'e', 'a', 'd', 'y', ' ', 'e', 'x', 'i', 's', 't', 's', '.']
        + seq![' ', 'C', 'h', 'a', 'n', 'g', 'e', ' ', 'f', 'i', 'l', 'e', ' ', 'n', 'a', 'm', 'e']
}

proof fn lemma_first_named_unique(files: Seq<FileInfoModel>, name: Seq<char>, i: int)
    requires
        is_first_named(files, name, i),
    ensures
        first_named(files, name) == i,
{
    let k = first_named(files, name);
    assert(is_first_named(files, name, k));
    if k < i {
        assert(files[k].name != name);
    } else if i < k {
        assert(files[i].name != name);
    }
}

/// The position of the first record named `name`, if any.
pub fn position_of_name(files: &Vec<FileInfo>, name: &str) -> (pos: Option<usize>)
    ensures
        match pos {
            Some(i) => is_first_named(file_infos(files@), name@, i as int),
            None => !name_in_use(file_infos(files@), name@),
        },
{
    let wanted = String::from_str(name);
    let n = files.len();
    let mut i: usize = 0;
    while i < n
        invariant
            n == files@.len(),
            i <= n,
            wanted@ == name@,
            forall|j: int| 0 <= j < i ==> (#[trigger] file_infos(files@)[j]).name != name@,
        decreases n - i,
    {
        if files[i].name == wanted {
            assert(file_infos(files@)[i as int] == files@[i as int]@);
            return Some(i);
        }
        assert(file_infos(files@)[i as int] == files@[i as int]@);
        i = i + 1;
    }
    None
}

/// Whether a file named `name` may be uploaded: refused, with the message
/// `File with this name already exists. Change file name`, exactly when a
/// record already has that name.
pub fn check_new_upload(files: &Vec<FileInfo>, name: &str) -> (res: Result<(), String>)
    ensures
        res is Ok <==> !name_in_use(file_infos(files@), name@),
        res matches Err(e) ==> e@ == name_taken_message_spec(),
{
    match position_of_name(files, name) {
        Some(_) => {
            proof {
                reveal_strlit("File with this name already exists. Change file name");
                assert("File with this name already exists. Change file name"@
                    =~= name_taken_message_spec());
            }
            Err(String::from_str("File with this name already exists. Change file name"))
        },
        None => Ok(()),
    }
}

/// Records an uploaded file after all the others.
pub fn record_upload(files: &mut Vec<FileInfo>, hash: String, name: String, provider_id: String)
    ensures
        file_infos(final(files)@) == file_infos(old(files)@).push(
            FileInfoModel { hash: hash@, name: name@, provider_id: provider_id@ },
        ),
{
    let ghost before = files@;
    let info = FileInfo { hash, name, provider_id };
    files.push(info);
    assert(file_infos(files@) =~= file_infos(before).push(info@));
}

/// Removes and returns the first record named `name`; `None`, changing
/// nothing, when there is none.
pub fn take_file(files: &mut Vec<FileInfo>, name: &str) -> (res: Option<FileInfo>)
    ensures
        res is Some <==> name_in_use(file_infos(old(files)@), name@),
        res matches Some(f) ==> f@ == file_infos(old(files)@)[first_named(
            file_infos(old(files)@),
            name@,
        )] && file_infos(final(files)@) == file_infos(old(files)@).remove(
            first_named(file_infos(old(files)@), name@),
        ),
        res is None ==> final(files)@ == old(files)@,
{
    match position_of_name(files, name) {
        Some(i) => {
            proof {
                lemma_first_named_unique(file_infos(files@), name@, i as int);
            }
            let ghost before = files@;
            let f = files.remove(i);
            assert(file_infos(files@) =~= file_infos(before).remove(i as int));
            Some(f)
        },
        None => None,
    }
}

/// Uploads only go through for names not yet in use, so recording one keeps
/// the names of the records distinct.
pub proof fn lemma_record_keeps_names_distinct(files: Seq<FileInfoModel>, info: FileInfoModel)
    requires
        names_distinct(files),
        !name_in_use(files, info.name),
    ensures
        names_distinct(files.push(info)),
{
    let all = files.push(info);
    assert forall|i: int, j: int|
        0 <= i < all.len() && 0 <= j < all.len() && i != j implies (#[trigger] all[i]).name
        != (#[trigger] all[j]).name by {
        if i < files.len() && j < files.len() {
            assert(all[i] == files[i] && all[j] == files[j]);
        } else if i < files.len() {
            assert(all[i] == files[i]);
        } else {
            assert(all[j] == files[j]);
        }
    }
}

/// After a file is recorded, a second upload under its name is refused, and
/// a download by that name finds exactly the recorded file and leaves the
/// records as they were before.
pub proof fn lemma_take_after_record(files: Seq<FileInfoModel>, info: FileInfoModel)
    requires
        !name_in_use(files, info.name),
    ensures
        name_in_use(files.push(info), info.name),
        first_named(files.push(info), info.name) == files.len(),
        files.push(info)[files.len() as int] == info,
        files.push(info).remove(files.len() as int) == files,
{
    let all = files.push(info);
    let n = files.len() as int;
    assert(all[n] == info);
    assert forall|j: int| 0 <= j < n implies (#[trigger] all[j]).name != info.name by {
        assert(all[j] == files[j]);
    }
    lemma_first_named_unique(all, info.name, n);
    assert(all.remove(n) =~= files);
}

} // verus!

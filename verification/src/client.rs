//! The decisions a client takes around an upload (whether the file may go,
//! what it costs and what to send, whether to pay, and what to record once it
//! went) and around a download (whether the bytes received are the file, and
//! what they decrypt to).
use vstd::prelude::*;
use vstd::string::StringSliceAdditionalSpecFns;
use vstd::utf8::encode_utf8;

use crate::cipher::{
    decrypt_contents, sealable_len, xchacha20poly1305_open, xchacha20poly1305_seal, KEY_LEN,
    NONCE_LEN,
};
use crate::digest::{content_matches, file_hash, file_hash_spec};
use crate::files::{
    check_new_upload, file_infos, name_in_use, name_taken_message_spec, record_upload, FileInfo,
    FileInfoModel,
};
use crate::protocol::{
    download_message_spec, lemma_download_message_read_back, lemma_upload_message_read_back,
    parse_upload_reply, storage_request_of, upload_go_ahead_of, upload_message,
    upload_message_spec, StorageRequestModel,
};
use crate::storage::{
    first_with_hash, holds_hash, lemma_take_after_store, received_file_spec, StoredFileModel,
};
use crate::text::is_token;
use crate::wallet::{upload_price, SATS_X_KB};

verus! {

/// What a client pays and sends to offer a file to a provider.
pub struct UploadOffer {
    /// Satoshis to pay the provider.
    pub amount: u64,
    /// The `u <size> <name>` message.
    pub request: String,
}

/// Decides whether the file `file_name` of `file_size` bytes may be uploaded
/// and, if so, what it costs and what to send: refused, with the message
/// `File with this name already exists. Change file name`, exactly when the
/// client already has a file of that name.
pub fn prepare_upload(files: &Vec<FileInfo>, file_name: &str, file_size: u64) -> (res: Result<
    UploadOffer,
    String,
>)
    requires
        file_size * SATS_X_KB <= u64::MAX,
    ensures
        res is Ok <==> !name_in_use(file_infos(files@), file_name@),
        res matches Ok(offer) ==> offer.amount == file_size * SATS_X_KB && offer.request@
            == upload_message_spec(file_size, file_name@),
        res matches Err(e) ==> e@ == name_taken_message_spec(),
{
    let amount = upload_price(file_size);
    match check_new_upload(files, file_name) {
        Err(e) => Err(e),
        Ok(()) => Ok(UploadOffer { amount, request: upload_message(file_size, file_name) }),
    }
}

/// Records the file `file_name` once its encrypted contents went to the
/// provider `provider_id`, under the hash the provider stores them by.
pub fn finish_upload(
    files: &mut Vec<FileInfo>,
    file_name: &str,
    encrypted: &[u8],
    provider_id: String,
)
    ensures
        file_infos(final(files)@) == file_infos(old(files)@).push(
            FileInfoModel {
                hash: file_hash_spec(file_name@, encrypted@),
                name: file_name@,
                provider_id: provider_id@,
            },
        ),
{
    let hash = file_hash(file_name, encrypted);
    record_upload(files, hash, String::from_str(file_name), provider_id);
}

/// What a client does once the provider answered its upload offer.
pub enum UploadStep {
    /// The answer was empty: nothing more is done.
    NoReply,
    /// Pay the provider, then send the encrypted file.
    Pay,
    /// The provider refused with `err:`: stop without paying.
    Stop,
}

/// Decides on the provider's answer to an upload offer; `None` where the
/// answer holds bytes but is not text or holds no word.
pub fn upload_step(reply: &[u8]) -> (step: Option<UploadStep>)
    ensures
        reply@.len() == 0 ==> step == Some(UploadStep::NoReply),
        reply@.len() > 0 ==> step == match upload_go_ahead_of(reply@) {
            Some(true) => Some(UploadStep::Pay),
            Some(false) => Some(UploadStep::Stop),
            None => None::<UploadStep>,
        },
{
    if reply.len() == 0 {
        return Some(UploadStep::NoReply);
    }
    match parse_upload_reply(reply) {
        Some(true) => Some(UploadStep::Pay),
        Some(false) => Some(UploadStep::Stop),
        None => None,
    }
}

/// Why a downloaded file is not handed out.
pub enum DownloadError {
    /// The bytes received do not match the hash recorded at upload.
    HashMismatch,
    /// The bytes match the hash, but the key and nonce do not decrypt them.
    NotAuthentic,
}

/// Checks the bytes `content` received for the file `name` against the hash
/// recorded at upload and, when they match, decrypts them with the stored
/// key and nonce. Bytes that are the encryption of some file under that key
/// and nonce, and match the hash, decrypt to that file; bytes that are not
/// such an encryption are never decrypted.
pub fn finish_download(
    name: &str,
    content: &[u8],
    expected_hash: &String,
    key: &str,
    nonce: &str,
) -> (res: Result<Vec<u8>, DownloadError>)
    requires
        key.spec_bytes().len() == KEY_LEN,
        nonce.spec_bytes().len() == NONCE_LEN,
    ensures
        file_hash_spec(name@, content@) != expected_hash@ ==> res matches Err(
            DownloadError::HashMismatch,
        ),
        file_hash_spec(name@, content@) == expected_hash@ ==> match res {
            Ok(p) => xchacha20poly1305_open(key.spec_bytes(), nonce.spec_bytes(), content@) == Some(
                p@,
            ),
            Err(e) => e is NotAuthentic && xchacha20poly1305_open(
                key.spec_bytes(),
                nonce.spec_bytes(),
                content@,
            ) is None,
        },
        forall|m: Seq<u8>|
            sealable_len(m.len()) && #[trigger] xchacha20poly1305_seal(
                key.spec_bytes(),
                nonce.spec_bytes(),
                m,
            ) == content@ && file_hash_spec(name@, content@) == expected_hash@ ==> (res matches Ok(
                p,
            ) && p@ == m),
        res matches Ok(p) ==> xchacha20poly1305_seal(key.spec_bytes(), nonce.spec_bytes(), p@)
            == content@,
{
    if !content_matches(name, content, expected_hash) {
        return Err(DownloadError::HashMismatch);
    }
    match decrypt_contents(key, nonce, content) {
        Some(p) => Ok(p),
        None => Err(DownloadError::NotAuthentic),
    }
}

/// A file uploaded under a one-word name comes back: the provider reads the
/// size and name from the client's offer, keeps the bytes under the hash that
/// the client records for them (a single word, as every result of
/// `file_hash` is), reads the client's later request for that hash, and hands
/// exactly those bytes out, keeping what it kept before. It holds where the
/// provider keeps no other file under that hash.
pub proof fn lemma_uploaded_file_comes_back(
    kept: Seq<StoredFileModel>,
    size: u64,
    file_name: Seq<char>,
    content: Seq<u8>,
)
    requires
        is_token(file_name),
        is_token(file_hash_spec(file_name, content)),
        !holds_hash(kept, file_hash_spec(file_name, content)),
    ensures
        storage_request_of(encode_utf8(upload_message_spec(size, file_name))) == Some(
            StorageRequestModel::Upload { size, file_name: Some(file_name) },
        ),
        storage_request_of(encode_utf8(download_message_spec(file_hash_spec(file_name, content))))
            == Some(StorageRequestModel::Download { hash: file_hash_spec(file_name, content) }),
        holds_hash(
            kept.push(received_file_spec(file_name, content)),
            file_hash_spec(file_name, content),
        ),
        ({
            let after = kept.push(received_file_spec(file_name, content));
            let i = first_with_hash(after, file_hash_spec(file_name, content));
            &&& after[i].content == content
            &&& file_hash_spec(file_name, after[i].content) == file_hash_spec(file_name, content)
            &&& after.remove(i) == kept
        }),
{
    let hash = file_hash_spec(file_name, content);
    lemma_upload_message_read_back(size, file_name);
    lemma_download_message_read_back(hash);
    lemma_take_after_store(kept, received_file_spec(file_name, content));
}

/// Uploading a file and downloading it back gives the file: the client
/// uploads the encryption of `plaintext` under its key and nonce, with a
/// one-word name, and records the hash of name and ciphertext (a single word,
/// as every result of `file_hash` is); the provider reads the offer, keeps the
/// ciphertext, reads the later request for that hash and hands out exactly the
/// ciphertext, which matches the recorded hash. These are the premises on
/// which `finish_download` gives `plaintext` back. It holds where the provider
/// keeps no other file under that hash.
pub proof fn lemma_upload_then_download(
    kept: Seq<StoredFileModel>,
    size: u64,
    file_name: Seq<char>,
    key: Seq<u8>,
    nonce: Seq<u8>,
    plaintext: Seq<u8>,
)
    requires
        is_token(file_name),
        sealable_len(plaintext.len()),
        is_token(file_hash_spec(file_name, xchacha20poly1305_seal(key, nonce, plaintext))),
        !holds_hash(kept, file_hash_spec(file_name, xchacha20poly1305_seal(key, nonce, plaintext))),
    ensures
        ({
            let sent = xchacha20poly1305_seal(key, nonce, plaintext);
            let hash = file_hash_spec(file_name, sent);
            let after = kept.push(received_file_spec(file_name, sent));
            let i = first_with_hash(after, hash);
            &&& storage_request_of(encode_utf8(upload_message_spec(size, file_name))) == Some(
                StorageRequestModel::Upload { size, file_name: Some(file_name) },
            )
            &&& storage_request_of(encode_utf8(download_message_spec(hash))) == Some(
                StorageRequestModel::Download { hash },
            )
            &&& holds_hash(after, hash)
            &&& xchacha20poly1305_seal(key, nonce, plaintext) == after[i].content
            &&& file_hash_spec(file_name, after[i].content) == hash
            &&& after.remove(i) == kept
        }),
{
    lemma_uploaded_file_comes_back(
        kept,
        size,
        file_name,
        xchacha20poly1305_seal(key, nonce, plaintext),
    );
}

} // verus!

//! Encryption of file contents with XChaCha20-Poly1305, and the random
//! secrets that key it.
use vstd::prelude::*;
use vstd::string::StringSliceAdditionalSpecFns;
use vstd::utf8::{encode_utf8, is_ascii_chars, is_ascii_chars_encode_utf8};

use chacha20poly1305::aead::{Aead, NewAead};
use chacha20poly1305::XChaCha20Poly1305;
use rand::Rng;

verus! {

/// Length in bytes of an XChaCha20-Poly1305 key.
pub const KEY_LEN: usize = 32;

/// Length in bytes of an XChaCha20-Poly1305 nonce.
pub const NONCE_LEN: usize = 24;

/// Length in bytes of the authentication tag that ends a ciphertext.
pub const TAG_LEN: usize = 16;

#[verifier::external_type_specification]
#[verifier::external_body]
pub struct ExAeadError(chacha20poly1305::aead::Error);

/// The ciphertext (with its tag) that XChaCha20-Poly1305 makes of `plaintext`.
pub uninterp spec fn xchacha20poly1305_seal(key: Seq<u8>, nonce: Seq<u8>, plaintext: Seq<u8>) -> Seq<u8>;

/// The plaintext that XChaCha20-Poly1305 recovers from `ciphertext`, or
/// `None` when the tag does not authenticate it.
pub uninterp spec fn xchacha20poly1305_open(key: Seq<u8>, nonce: Seq<u8>, ciphertext: Seq<u8>) -> Option<Seq<u8>>;

/// Whether a message of `len` bytes is short enough for the cipher: fewer
/// than `u32::MAX` blocks of 64 bytes.
pub open spec fn sealable_len(len: nat) -> bool {
    len / 64 < u32::MAX
}

/// `XChaCha20Poly1305::new` with `key`, then `Aead::encrypt` of `plaintext`
/// under `nonce` with no associated data. Claimed: it fails exactly when the
/// plaintext has `u32::MAX` or more 64-byte blocks, and otherwise returns the
/// ciphertext named by `xchacha20poly1305_seal`, which is as long as the
/// plaintext plus the 16-byte tag appended to it.
#[verifier::external_body]
fn xchacha_encrypt(key: &[u8], nonce: &[u8], plaintext: &[u8]) -> (res: Result<Vec<u8>, chacha20poly1305::aead::Error>)
    requires
        key@.len() == KEY_LEN,
        nonce@.len() == NONCE_LEN,
    ensures
        res is Ok <==> sealable_len(plaintext@.len()),
        res matches Ok(c) ==> c@ == xchacha20poly1305_seal(key@, nonce@, plaintext@),
        res matches Ok(c) ==> c@.len() == plaintext@.len() + TAG_LEN,
{
    let cipher = XChaCha20Poly1305::new(key.into());
    cipher.encrypt(nonce.into(), plaintext)
}

/// `XChaCha20Poly1305::new` with `key`, then `Aead::decrypt` of `ciphertext`
/// under `nonce` with no associated data. Claimed: the result is the one named
/// by `xchacha20poly1305_open`; decrypting what encryption produced under
/// the same key and nonce gives the plaintext back; and decryption succeeds
/// only on a genuine ciphertext (the tag verifies only when the data is the
/// encryption of what it decrypts to).
#[verifier::external_body]
fn xchacha_decrypt(key: &[u8], nonce: &[u8], ciphertext: &[u8]) -> (res: Result<Vec<u8>, chacha20poly1305::aead::Error>)
    requires
        key@.len() == KEY_LEN,
        nonce@.len() == NONCE_LEN,
    ensures
        res matches Ok(p) ==> xchacha20poly1305_open(key@, nonce@, ciphertext@) == Some(p@),
        res is Err ==> xchacha20poly1305_open(key@, nonce@, ciphertext@) is None,
        res matches Ok(p) ==> xchacha20poly1305_seal(key@, nonce@, p@) == ciphertext@,
        forall|m: Seq<u8>|
            sealable_len(m.len()) && #[trigger] xchacha20poly1305_seal(key@, nonce@, m) == ciphertext@
                ==> res is Ok,
        res is Ok ==> forall|m: Seq<u8>|
            sealable_len(m.len()) && #[trigger] xchacha20poly1305_seal(key@, nonce@, m) == ciphertext@
                ==> res.unwrap()@ == m,
{
    let cipher = XChaCha20Poly1305::new(key.into());
    cipher.decrypt(nonce.into(), ciphertext)
}

/// Encrypts file contents with the stored key and nonce (given as text whose
/// UTF-8 bytes are the key and the nonce).
pub fn encrypt_contents(key: &str, nonce: &str, data: &[u8]) -> (ciphertext: Vec<u8>)
    requires
        key.spec_bytes().len() == KEY_LEN,
        nonce.spec_bytes().len() == NONCE_LEN,
        sealable_len(data@.len()),
    ensures
        ciphertext@ == xchacha20poly1305_seal(key.spec_bytes(), nonce.spec_bytes(), data@),
        ciphertext@.len() == data@.len() + TAG_LEN,
{
    match xchacha_encrypt(key.as_bytes(), nonce.as_bytes(), data) {
        Ok(c) => c,
        Err(_) => {
            assert(false);
            Vec::new()
        },
    }
}

/// Decrypts file contents with the stored key and nonce; `None` when they do
/// not authenticate the data. Data that `encrypt_contents` made under the same
/// key and nonce always decrypts to what was encrypted, and any other data
/// decrypts to nothing.
pub fn decrypt_contents(key: &str, nonce: &str, data: &[u8]) -> (plaintext: Option<Vec<u8>>)
    requires
        key.spec_bytes().len() == KEY_LEN,
        nonce.spec_bytes().len() == NONCE_LEN,
    ensures
        match plaintext {
            Some(p) => xchacha20poly1305_open(key.spec_bytes(), nonce.spec_bytes(), data@) == Some(p@),
            None => xchacha20poly1305_open(key.spec_bytes(), nonce.spec_bytes(), data@) is None,
        },
        plaintext matches Some(p) ==> xchacha20poly1305_seal(key.spec_bytes(), nonce.spec_bytes(), p@)
            == data@,
        forall|m: Seq<u8>|
            sealable_len(m.len()) && #[trigger] xchacha20poly1305_seal(key.spec_bytes(), nonce.spec_bytes(), m)
                == data@ ==> (plaintext matches Some(p) && p@ == m),
{
    match xchacha_decrypt(key.as_bytes(), nonce.as_bytes(), data) {
        Ok(p) => Some(p),
        Err(_) => None,
    }
}

/// Whether `c` is an ASCII letter or digit.
pub open spec fn is_ascii_alphanumeric(c: char) -> bool {
    ('0' <= c <= '9') || ('A' <= c <= 'Z') || ('a' <= c <= 'z')
}

/// Whether `s` is made of ASCII letters and digits only.
pub open spec fn is_alphanumeric_text(s: Seq<char>) -> bool {
    forall|i: int| 0 <= i < s.len() ==> is_ascii_alphanumeric(#[trigger] s[i])
}

/// `len` characters drawn by `rand::thread_rng()` from `rand`'s
/// `Alphanumeric` distribution. Claimed: the string has `len` characters and
/// each is an ASCII letter or digit; which ones is left to chance.
#[verifier::external_body]
fn random_alphanumeric(len: usize) -> (s: String)
    ensures
        s@.len() == len,
        is_alphanumeric_text(s@),
{
    rand::thread_rng().sample_iter(&rand::distributions::Alphanumeric).take(len).map(char::from).collect()
}

proof fn lemma_alphanumeric_byte_len(s: Seq<char>)
    requires
        is_alphanumeric_text(s),
    ensures
        encode_utf8(s).len() == s.len(),
{
    assert(is_ascii_chars(s)) by {
        assert forall|i: int| 0 <= i < s.len() implies '\0' <= #[trigger] s[i] <= '\u{7f}' by {
            assert(is_ascii_alphanumeric(s[i]));
        }
    }
    is_ascii_chars_encode_utf8(s);
}

/// A fresh encryption key and nonce: random text of 32 and 24 letters and
/// digits, whose bytes have exactly the lengths that the cipher needs.
pub fn new_encryption_secrets() -> (secrets: (String, String))
    ensures
        secrets.0@.len() == KEY_LEN,
        secrets.1@.len() == NONCE_LEN,
        is_alphanumeric_text(secrets.0@),
        is_alphanumeric_text(secrets.1@),
        encode_utf8(secrets.0@).len() == KEY_LEN,
        encode_utf8(secrets.1@).len() == NONCE_LEN,
{
    let key = random_alphanumeric(KEY_LEN);
    let nonce = random_alphanumeric(NONCE_LEN);
    proof {
        lemma_alphanumeric_byte_len(key@);
        lemma_alphanumeric_byte_len(nonce@);
    }
    (key, nonce)
}

} // verus!

use p2p_storage::cipher::{decrypt_contents, encrypt_contents, new_encryption_secrets, KEY_LEN, NONCE_LEN};
use p2p_storage::digest::{content_matches, file_hash};

const KEY: &str = "0123456789abcdefghijklmnopqrstuv";
const NONCE: &str = "ABCDEFGHIJKLMNOPQRSTUVWX";

#[test]
fn file_hash_is_the_digest_of_the_two_digests() {
    let name_digest = sha256::digest("notes.txt");
    let content_digest = sha256::digest(&b"secret bytes"[..]);
    let expected = sha256::digest(name_digest + &content_digest);
    assert_eq!(file_hash("notes.txt", b"secret bytes"), expected);
}

#[test]
fn file_hash_of_hello_is_known() {
    assert_eq!(
        sha256::digest("hello"),
        "2cf24dba5fb0a30e26e83b2ac5b9e29e1b161e5c1fa7425e73043362938b9824"
    );
    let h = file_hash("hello", b"");
    assert_eq!(h.len(), 64);
    assert!(h.chars().all(|c| c.is_ascii_hexdigit() && !c.is_ascii_uppercase()));
}

#[test]
fn received_contents_match_their_recorded_hash() {
    let h = file_hash("a.txt", b"abc");
    assert!(content_matches("a.txt", b"abc", &h));
    assert!(!content_matches("a.txt", b"abd", &h));
    assert!(!content_matches("b.txt", b"abc", &h));
}

#[test]
fn decrypting_what_was_encrypted_gives_it_back() {
    let data = b"the file contents".to_vec();
    let c = encrypt_contents(KEY, NONCE, &data);
    assert_ne!(c, data);
    assert_eq!(c.len(), data.len() + 16);
    assert_eq!(decrypt_contents(KEY, NONCE, &c), Some(data));
}

#[test]
fn empty_contents_round_trip() {
    let c = encrypt_contents(KEY, NONCE, b"");
    assert_eq!(c.len(), 16);
    assert_eq!(decrypt_contents(KEY, NONCE, &c), Some(Vec::new()));
}

#[test]
fn tampered_ciphertext_is_rejected() {
    let mut c = encrypt_contents(KEY, NONCE, b"payload");
    c[0] ^= 1;
    assert_eq!(decrypt_contents(KEY, NONCE, &c), None);
    assert_eq!(decrypt_contents(KEY, NONCE, b"short"), None);
}

#[test]
fn another_key_does_not_decrypt() {
    let c = encrypt_contents(KEY, NONCE, b"payload");
    assert_eq!(decrypt_contents("vutsrqponmlkjihgfedcba9876543210", NONCE, &c), None);
}

#[test]
fn fresh_secrets_fit_the_cipher() {
    let (key, nonce) = new_encryption_secrets();
    assert_eq!(key.len(), KEY_LEN);
    assert_eq!(nonce.len(), NONCE_LEN);
    assert!(key.chars().all(|c| c.is_ascii_alphanumeric()));
    assert!(nonce.chars().all(|c| c.is_ascii_alphanumeric()));
    let c = encrypt_contents(&key, &nonce, b"data");
    assert_eq!(decrypt_contents(&key, &nonce, &c), Some(b"data".to_vec()));
}

use p2p_storage::client::{finish_download, DownloadError};

#[test]
fn file_hash_is_lowercase_hex() {
    let h = file_hash("x", b"y");
    assert_eq!(h.len(), 64);
    assert!(h.chars().all(|c| matches!(c, '0'..='9' | 'a'..='f')));
}

#[test]
fn ciphertext_is_the_plaintext_length_plus_the_tag() {
    for len in [0usize, 1, 63, 64, 1000] {
        let data = vec![7u8; len];
        assert_eq!(encrypt_contents(KEY, NONCE, &data).len(), len + 16);
    }
}

#[test]
fn a_downloaded_file_is_checked_then_decrypted() {
    let c = encrypt_contents(KEY, NONCE, b"report");
    let h = file_hash("report.txt", &c);
    assert_eq!(finish_download("report.txt", &c, &h, KEY, NONCE).ok(), Some(b"report".to_vec()));
}

#[test]
fn a_download_with_other_bytes_is_refused() {
    let c = encrypt_contents(KEY, NONCE, b"report");
    let h = file_hash("report.txt", &c);
    let mut other = c.clone();
    other[0] ^= 1;
    assert!(matches!(finish_download("report.txt", &other, &h, KEY, NONCE), Err(DownloadError::HashMismatch)));
    assert!(matches!(finish_download("other.txt", &c, &h, KEY, NONCE), Err(DownloadError::HashMismatch)));
}

#[test]
fn a_download_under_another_key_is_not_authentic() {
    let c = encrypt_contents(KEY, NONCE, b"report");
    let h = file_hash("report.txt", &c);
    assert!(matches!(
        finish_download("report.txt", &c, &h, "vutsrqponmlkjihgfedcba9876543210", NONCE),
        Err(DownloadError::NotAuthentic)
    ));
}

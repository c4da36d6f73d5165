//! Content hashes: the SHA-256 digests under which uploaded files are stored
//! and by which downloads are checked.
use vstd::prelude::*;
use vstd::string::StringSliceAdditionalSpecFns;
use vstd::utf8::encode_utf8;

use crate::text::{is_ascii_whitespace, is_token};

verus! {

/// The SHA-256 digest of `data`, written as lowercase hexadecimal.
pub uninterp spec fn sha256_hex(data: Seq<u8>) -> Seq<char>;

/// Whether `c` is one of `0`..`9`, `a`..`f`.
pub open spec fn is_lower_hex_digit(c: char) -> bool {
    (48 <= c as u32 <= 57) || (97 <= c as u32 <= 102)
}

/// Whether `s` is written as a SHA-256 digest: 64 lowercase hexadecimal digits.
pub open spec fn is_hex_digest(s: Seq<char>) -> bool {
    s.len() == 64 && forall|i: int| 0 <= i < s.len() ==> is_lower_hex_digit(#[trigger] s[i])
}

/// A digest written in hexadecimal is a single word.
pub proof fn lemma_hex_digest_is_token(s: Seq<char>)
    requires
        is_hex_digest(s),
    ensures
        is_token(s),
{
    assert forall|i: int| 0 <= i < s.len() implies !is_ascii_whitespace(#[trigger] s[i]) by {
        assert(is_lower_hex_digit(s[i]));
    }
}

/// `sha256::digest` on a byte slice (sha2's SHA-256 through `hex::encode`).
/// Claimed: the result is the digest named by `sha256_hex` of exactly these
/// bytes, and it has 64 characters, each a lowercase hexadecimal digit.
#[verifier::external_body]
fn sha256_digest(data: &[u8]) -> (res: String)
    ensures
        res@ == sha256_hex(data@),
        res@.len() == 64,
        forall|i: int| 0 <= i < res@.len() ==> is_lower_hex_digit(#[trigger] res@[i]),
{
    sha256::digest(data)
}

/// The hash under which a file named `name` with contents `content` is
/// stored: the digest of the text made of the digest of the name followed by
/// the digest of the contents.
pub open spec fn file_hash_spec(name: Seq<char>, content: Seq<u8>) -> Seq<char> {
    sha256_hex(encode_utf8(sha256_hex(encode_utf8(name)) + sha256_hex(content)))
}

/// The storage hash of the file `name` with contents `content`.
pub fn file_hash(name: &str, content: &[u8]) -> (h: String)
    ensures
        h@ == file_hash_spec(name@, content@),
        h@ == sha256_hex(encode_utf8(sha256_hex(name.spec_bytes()) + sha256_hex(content@))),
        is_hex_digest(h@),
        is_token(h@),
{
    let name_digest = sha256_digest(name.as_bytes());
    let content_digest = sha256_digest(content);
    let mut joined = name_digest;
    joined.append(content_digest.as_str());
    let h = sha256_digest(joined.as_str().as_bytes());
    proof {
        lemma_hex_digest_is_token(h@);
    }
    h
}

/// Whether `content`, received for the file `name`, matches the hash that
/// was recorded for it at upload.
pub fn content_matches(name: &str, content: &[u8], expected_hash: &String) -> (ok: bool)
    ensures
        ok == (file_hash_spec(name@, content@) == expected_hash@),
        ok == (sha256_hex(encode_utf8(sha256_hex(name.spec_bytes()) + sha256_hex(content@)))
            == expected_hash@),
{
    let h = file_hash(name, content);
    h == *expected_hash
}

/// The storage hash covers the whole contents: it is the SHA-256 digest of
/// the text made of the digest of the name's UTF-8 bytes followed by the
/// digest of every byte of the contents.
pub proof fn lemma_file_hash_covers_contents(name: Seq<char>, content: Seq<u8>)
    ensures
        file_hash_spec(name, content) == sha256_hex(
            encode_utf8(sha256_hex(encode_utf8(name)) + sha256_hex(content)),
        ),
{
}

/// The storage hash sees the contents only through the digest of all their
/// bytes: contents with the same SHA-256 digest get the same hash under the
/// same name, whatever part of them differs.
pub proof fn lemma_file_hash_through_content_digest(name: Seq<char>, c1: Seq<u8>, c2: Seq<u8>)
    requires
        sha256_hex(c1) == sha256_hex(c2),
    ensures
        file_hash_spec(name, c1) == file_hash_spec(name, c2),
{
}

/// A received copy matches the hash recorded for the contents `original`
/// exactly when the digest built from the copy's full contents equals the
/// one built from the original's full contents.
pub proof fn lemma_match_compares_full_digests(name: Seq<char>, original: Seq<u8>, copy: Seq<u8>)
    ensures
        (file_hash_spec(name, copy) == file_hash_spec(name, original)) == (sha256_hex(
            encode_utf8(sha256_hex(encode_utf8(name)) + sha256_hex(copy)),
        ) == sha256_hex(encode_utf8(sha256_hex(encode_utf8(name)) + sha256_hex(original)))),
{
}

} // verus!

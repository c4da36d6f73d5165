//! The text messages that clients, storage providers and the coordinator
//! exchange: how each is written, and how each is read back.
use vstd::prelude::*;
use vstd::string::StringSliceAdditionalSpecFns;
use vstd::utf8::*;

use crate::text::{
    decimal, free_of_ascii_whitespace, is_ascii_whitespace, is_blank, is_token,
    lemma_decimal_is_token, lemma_parse_decimal, lemma_unseparated_text_is_one_word,
    lemma_words_token, lemma_words_token_then, lemma_words_token_then_blank, parse_u64,
    parse_u64_spec, split_ascii_whitespace, string_views, u64_to_decimal, words,
};

verus! {

broadcast use {encode_utf8_valid_utf8, encode_utf8_decode_utf8};

/// A storage provider as the coordinator lists it.
pub struct Provider {
    pub id: String,
    pub ip_addr: String,
    pub btc_addr: String,
}

/// The fields of a [`Provider`] as character sequences.
pub struct ProviderModel {
    pub id: Seq<char>,
    pub ip_addr: Seq<char>,
    pub btc_addr: Seq<char>,
}

impl View for Provider {
    type V = ProviderModel;

    open spec fn view(&self) -> ProviderModel {
        ProviderModel { id: self.id@, ip_addr: self.ip_addr@, btc_addr: self.btc_addr@ }
    }
}

/// What a message to the coordinator asks for.
pub enum CoordinatorRequest {
    /// `p <id> <address> <bitcoin address>`: a provider joins the list.
    Register(Provider),
    /// Any other first word: the sender wants one provider from the list.
    Lookup,
}

pub enum CoordinatorRequestModel {
    Register(ProviderModel),
    Lookup,
}

impl View for CoordinatorRequest {
    type V = CoordinatorRequestModel;

    open spec fn view(&self) -> CoordinatorRequestModel {
        match self {
            CoordinatorRequest::Register(p) => CoordinatorRequestModel::Register(p@),
            CoordinatorRequest::Lookup => CoordinatorRequestModel::Lookup,
        }
    }
}

/// What a message to a storage provider asks for.
pub enum StorageRequest {
    /// `u <size> <file name>`: the sender wants to upload a file of `size` bytes.
    /// The name is absent when the message has only two words.
    Upload { size: u64, file_name: Option<String> },
    /// Any other first word, then `<hash>`: the sender wants the file stored
    /// under that hash back.
    Download { hash: String },
}

pub enum StorageRequestModel {
    Upload { size: u64, file_name: Option<Seq<char>> },
    Download { hash: Seq<char> },
}

impl View for StorageRequest {
    type V = StorageRequestModel;

    open spec fn view(&self) -> StorageRequestModel {
        match self {
            StorageRequest::Upload { size, file_name } => StorageRequestModel::Upload {
                size: *size,
                file_name: match file_name {
                    Some(n) => Some(n@),
                    None => None,
                },
            },
            StorageRequest::Download { hash } => StorageRequestModel::Download { hash: hash@ },
        }
    }
}

// ------------------------------------------------------------ the wire text

/// The text that a received message carries: its bytes read as UTF-8, or
/// nothing when they are not valid UTF-8.
pub open spec fn received_text(message: Seq<u8>) -> Option<Seq<char>> {
    if valid_utf8(message) {
        Some(decode_utf8(message))
    } else {
        None
    }
}

/// The words of a received message, when it is text.
pub open spec fn received_words(message: Seq<u8>) -> Option<Seq<Seq<char>>> {
    match received_text(message) {
        Some(t) => Some(words(t)),
        None => None,
    }
}

/// `std::str::from_utf8`: the bytes as a string slice when they are valid
/// UTF-8. Claimed: it succeeds exactly on valid UTF-8, and the slice it
/// returns holds the same bytes.
#[verifier::external_body]
fn str_from_utf8(bytes: &[u8]) -> (res: Option<&str>)
    ensures
        res is Some <==> valid_utf8(bytes@),
        res matches Some(s) ==> s.spec_bytes() == bytes@,
{
    std::str::from_utf8(bytes).ok()
}

/// The words of a received message, or `None` when it is not UTF-8 text.
pub fn message_words(message: &[u8]) -> (res: Option<Vec<String>>)
    ensures
        match res {
            Some(parts) => received_words(message@) == Some(string_views(parts@)),
            None => received_words(message@) is None,
        },
{
    match str_from_utf8(message) {
        Some(text) => {
            proof {
                decode_utf8_encode_utf8(message@);
                encode_utf8_decode_utf8(text@);
            }
            Some(split_ascii_whitespace(text))
        },
        None => None,
    }
}

/// Whether the string `w` is the one-character word `c`.
fn is_word(w: &String, c: &str) -> (res: bool)
    ensures
        res == (w@ == c@),
{
    *w == String::from_str(c)
}

// ---------------------------------------------------- coordinator messages

/// `p <id> <ip>:<port> <bitcoin address>`: a provider registers with the coordinator.
pub open spec fn register_message_spec(
    id: Seq<char>,
    ip: Seq<char>,
    port: Seq<char>,
    btc_addr: Seq<char>,
) -> Seq<char> {
    seq!['p', ' '] + id + seq![' '] + ip + seq![':'] + port + seq![' '] + btc_addr
}

/// `c <provider id>`: a client asks the coordinator for a provider.
pub open spec fn lookup_message_spec(provider_id: Seq<char>) -> Seq<char> {
    seq!['c', ' '] + provider_id
}

/// `<id> <address> <bitcoin address>`: the coordinator's answer to a lookup.
pub open spec fn offer_message_spec(p: ProviderModel) -> Seq<char> {
    p.id + seq![' '] + p.ip_addr + seq![' '] + p.btc_addr
}

/// What the coordinator reads in a message: `None` where it cannot serve it
/// (not text, no word at all, or a `p` with fewer than three fields after it).
pub open spec fn coordinator_request_of(message: Seq<u8>) -> Option<CoordinatorRequestModel> {
    match received_words(message) {
        None => None,
        Some(ws) => if ws.len() == 0 {
            None
        } else if ws[0] == seq!['p'] {
            if ws.len() >= 4 {
                Some(
                    CoordinatorRequestModel::Register(
                        ProviderModel { id: ws[1], ip_addr: ws[2], btc_addr: ws[3] },
                    ),
                )
            } else {
                None
            }
        } else {
            Some(CoordinatorRequestModel::Lookup)
        },
    }
}

/// What a client reads in the coordinator's answer: the first three words
/// as a provider; `None` when it is not text or has fewer than three words.
pub open spec fn offer_of(message: Seq<u8>) -> Option<ProviderModel> {
    match received_words(message) {
        None => None,
        Some(ws) => if ws.len() >= 3 {
            Some(ProviderModel { id: ws[0], ip_addr: ws[1], btc_addr: ws[2] })
        } else {
            None
        },
    }
}

/// The message with which a provider registers: `p <id> <ip>:<port> <btc_addr>`.
pub fn register_message(id: &str, ip: &str, port: &str, btc_addr: &str) -> (m: String)
    ensures
        m@ == register_message_spec(id@, ip@, port@, btc_addr@),
{
    let mut m = String::from_str("p ");
    m.append(id);
    m.append(" ");
    m.append(ip);
    m.append(":");
    m.append(port);
    m.append(" ");
    m.append(btc_addr);
    proof {
        reveal_strlit("p ");
        reveal_strlit(" ");
        reveal_strlit(":");
        assert(m@ =~= register_message_spec(id@, ip@, port@, btc_addr@));
    }
    m
}

/// The message with which a client asks the coordinator for a provider.
pub fn lookup_message(provider_id: &str) -> (m: String)
    ensures
        m@ == lookup_message_spec(provider_id@),
{
    let mut m = String::from_str("c ");
    m.append(provider_id);
    proof {
        reveal_strlit("c ");
        assert(m@ =~= lookup_message_spec(provider_id@));
    }
    m
}

/// The coordinator's answer that names provider `p`.
pub fn offer_message(p: &Provider) -> (m: String)
    ensures
        m@ == offer_message_spec(p@),
{
    let mut m = p.id.clone();
    m.append(" ");
    m.append(p.ip_addr.as_str());
    m.append(" ");
    m.append(p.btc_addr.as_str());
    proof {
        reveal_strlit(" ");
        assert(m@ =~= offer_message_spec(p@));
    }
    m
}

/// Reads a message that reached the coordinator.
pub fn parse_coordinator_request(message: &[u8]) -> (res: Option<CoordinatorRequest>)
    ensures
        match res {
            Some(r) => coordinator_request_of(message@) == Some(r@),
            None => coordinator_request_of(message@) is None,
        },
{
    let parts = match message_words(message) {
        Some(parts) => parts,
        None => return None,
    };
    let ghost ws = string_views(parts@);
    proof {
        reveal_strlit("p");
        assert("p"@ =~= seq!['p']);
        assert forall|k: int| 0 <= k < parts@.len() implies #[trigger] ws[k] == parts@[k]@ by {}
    }
    if parts.len() == 0 {
        None
    } else if is_word(&parts[0], "p") {
        if parts.len() >= 4 {
            let p = Provider {
                id: parts[1].clone(),
                ip_addr: parts[2].clone(),
                btc_addr: parts[3].clone(),
            };
            Some(CoordinatorRequest::Register(p))
        } else {
            None
        }
    } else {
        Some(CoordinatorRequest::Lookup)
    }
}

/// Reads the coordinator's answer to a lookup.
pub fn parse_offer(message: &[u8]) -> (res: Option<Provider>)
    ensures
        match res {
            Some(p) => offer_of(message@) == Some(p@),
            None => offer_of(message@) is None,
        },
{
    let parts = match message_words(message) {
        Some(parts) => parts,
        None => return None,
    };
    proof {
        let ws = string_views(parts@);
        assert forall|k: int| 0 <= k < parts@.len() implies #[trigger] ws[k] == parts@[k]@ by {}
    }
    if parts.len() >= 3 {
        Some(
            Provider {
                id: parts[0].clone(),
                ip_addr: parts[1].clone(),
                btc_addr: parts[2].clone(),
            },
        )
    } else {
        None
    }
}

// ------------------------------------------------------- storage messages

/// Largest file, in bytes, that a storage provider accepts.
pub const CAPACITY: u64 = 128000000;

/// `u <size> <file name>`: a client offers a file of `size` bytes.
pub open spec fn upload_message_spec(size: u64, file_name: Seq<char>) -> Seq<char> {
    seq!['u', ' '] + decimal(size as nat) + seq![' '] + file_name
}

/// `d <hash>`: a client asks for the file stored under `hash`.
pub open spec fn download_message_spec(hash: Seq<char>) -> Seq<char> {
    seq!['d', ' '] + hash
}

/// What a storage provider reads in a request: `None` where it cannot serve
/// it (not text, no word at all, an upload whose size is missing or is not a
/// `u64`, or a download without a hash).
pub open spec fn storage_request_of(message: Seq<u8>) -> Option<StorageRequestModel> {
    match received_words(message) {
        None => None,
        Some(ws) => if ws.len() == 0 {
            None
        } else if ws[0] == seq!['u'] {
            if ws.len() >= 2 {
                match parse_u64_spec(ws[1]) {
                    Some(size) => Some(
                        StorageRequestModel::Upload {
                            size,
                            file_name: if ws.len() >= 3 {
                                Some(ws[2])
                            } else {
                                None
                            },
                        },
                    ),
                    None => None,
                }
            } else {
                None
            }
        } else if ws.len() >= 2 {
            Some(StorageRequestModel::Download { hash: ws[1] })
        } else {
            None
        },
    }
}

/// Whether a provider takes a file of `size` bytes.
pub open spec fn accepts_upload(size: u64) -> bool {
    size <= CAPACITY
}

/// The message with which a client offers a file to a provider.
pub fn upload_message(size: u64, file_name: &str) -> (m: String)
    ensures
        m@ == upload_message_spec(size, file_name@),
{
    let mut m = String::from_str("u ");
    let digits = u64_to_decimal(size);
    m.append(digits.as_str());
    m.append(" ");
    m.append(file_name);
    proof {
        reveal_strlit("u ");
        reveal_strlit(" ");
        assert(m@ =~= upload_message_spec(size, file_name@));
    }
    m
}

/// The message with which a client asks a provider for a stored file.
pub fn download_message(hash: &str) -> (m: String)
    ensures
        m@ == download_message_spec(hash@),
{
    let mut m = String::from_str("d ");
    m.append(hash);
    proof {
        reveal_strlit("d ");
        assert(m@ =~= download_message_spec(hash@));
    }
    m
}

/// Reads a request that reached a storage provider.
pub fn parse_storage_request(message: &[u8]) -> (res: Option<StorageRequest>)
    ensures
        match res {
            Some(r) => storage_request_of(message@) == Some(r@),
            None => storage_request_of(message@) is None,
        },
{
    let parts = match message_words(message) {
        Some(parts) => parts,
        None => return None,
    };
    let ghost ws = string_views(parts@);
    proof {
        reveal_strlit("u");
        assert("u"@ =~= seq!['u']);
        assert forall|k: int| 0 <= k < parts@.len() implies #[trigger] ws[k] == parts@[k]@ by {}
    }
    if parts.len() == 0 {
        None
    } else if is_word(&parts[0], "u") {
        if parts.len() >= 2 {
            match parse_u64(parts[1].as_str()) {
                Some(size) => {
                    let file_name = if parts.len() >= 3 {
                        Some(parts[2].clone())
                    } else {
                        None
                    };
                    Some(StorageRequest::Upload { size, file_name })
                },
                None => None,
            }
        } else {
            None
        }
    } else if parts.len() >= 2 {
        Some(StorageRequest::Download { hash: parts[1].clone() })
    } else {
        None
    }
}

/// Whether a provider takes a file of `size` bytes: no more than [`CAPACITY`].
pub fn upload_fits(size: u64) -> (res: bool)
    ensures
        res == accepts_upload(size),
        res == (size <= CAPACITY),
{
    size <= CAPACITY
}

/// The provider's answer to an upload offer: a refusal when the file is
/// larger than [`CAPACITY`], else the signal that the upload may start.
pub fn upload_reply(size: u64) -> (reply: &'static str)
    ensures
        accepts_upload(size) ==> reply@ == upload_started_spec(),
        !accepts_upload(size) ==> reply@ == upload_refused_spec(),
        size > CAPACITY ==> reply@ == upload_refused_spec(),
        size <= CAPACITY ==> reply@ == upload_started_spec(),
{
    proof {
        reveal_strlit("uploading file...");
        reveal_strlit("error: file exceeds storage capacity limit");
    }
    if upload_fits(size) {
        "uploading file..."
    } else {
        "error: file exceeds storage capacity limit"
    }
}

/// `uploading file...`
pub open spec fn upload_started_spec() -> Seq<char> {
    seq!['u', 'p', 'l', 'o', 'a', 'd', 'i', 'n', 'g', ' ', 'f', 'i', 'l', 'e', '.', '.', '.']
}

/// `error: file exceeds storage capacity limit`
pub open spec fn upload_refused_spec() -> Seq<char> {
    seq!['e', 'r', 'r', 'o', 'r', ':'] + seq![' ', 'f', 'i', 'l', 'e', ' ', 'e', 'x', 'c', 'e', 'e', 'd', 's']
        + seq![' ', 's', 't', 'o', 'r', 'a', 'g', 'e', ' ', 'c', 'a', 'p', 'a', 'c', 'i', 't', 'y']
        + seq![' ', 'l', 'i', 'm', 'i', 't']
}

/// What a client reads in a provider's answer to its upload offer: the
/// upload goes on unless the first word is `err:`; `None` when the answer is
/// not text or holds no word.
pub open spec fn upload_go_ahead_of(reply: Seq<u8>) -> Option<bool> {
    match received_words(reply) {
        None => None,
        Some(ws) => if ws.len() == 0 {
            None
        } else {
            Some(ws[0] != seq!['e', 'r', 'r', ':'])
        },
    }
}

/// Reads a provider's answer to an upload offer.
pub fn parse_upload_reply(reply: &[u8]) -> (res: Option<bool>)
    ensures
        res == upload_go_ahead_of(reply@),
{
    let parts = match message_words(reply) {
        Some(parts) => parts,
        None => return None,
    };
    if parts.len() == 0 {
        None
    } else {
        proof {
            reveal_strlit("err:");
            assert("err:"@ =~= seq!['e', 'r', 'r', ':']);
            assert(string_views(parts@)[0] == parts@[0]@);
        }
        Some(!(parts[0] == String::from_str("err:")))
    }
}

// ------------------------------------------------------------------- laws

/// The words of three tokens separated by single spaces.
proof fn lemma_words_three(a: Seq<char>, b: Seq<char>, c: Seq<char>)
    requires
        is_token(a),
        is_token(b),
        is_token(c),
    ensures
        words(a + seq![' '] + b + seq![' '] + c) == seq![a, b, c],
{
    let rest = b + seq![' '] + c;
    assert(a + seq![' '] + b + seq![' '] + c =~= a + seq![' '] + rest);
    lemma_words_token_then(a, ' ', rest);
    lemma_words_token_then(b, ' ', c);
    lemma_words_token(c);
    assert(seq![a] + (seq![b] + seq![c]) =~= seq![a, b, c]);
}

/// The words of a one-character command, a space, and `rest`.
proof fn lemma_words_command(cmd: char, rest: Seq<char>)
    requires
        !is_ascii_whitespace(cmd),
    ensures
        words(seq![cmd, ' '] + rest) == seq![seq![cmd]] + words(rest),
{
    assert(seq![cmd, ' '] + rest =~= seq![cmd] + seq![' '] + rest);
    lemma_words_token_then(seq![cmd], ' ', rest);
}

/// A token joined to another by `:` is a token.
proof fn lemma_token_join(a: Seq<char>, b: Seq<char>)
    requires
        is_token(a),
        is_token(b),
    ensures
        is_token(a + seq![':'] + b),
{
    let t = a + seq![':'] + b;
    assert forall|i: int| 0 <= i < t.len() implies !is_ascii_whitespace(#[trigger] t[i]) by {
        if i < a.len() {
            assert(t[i] == a[i]);
        } else if i > a.len() {
            assert(t[i] == b[i - a.len() - 1]);
        }
    }
}

/// A provider that registers with fields free of whitespace is read by the
/// coordinator with exactly those fields, its address being `<ip>:<port>`.
/// The port may be followed by whitespace, such as the line break that
/// reading it from the terminal leaves; the coordinator drops it.
pub proof fn lemma_register_message_read_back(
    id: Seq<char>,
    ip: Seq<char>,
    port: Seq<char>,
    line_end: Seq<char>,
    btc_addr: Seq<char>,
)
    requires
        is_token(id),
        is_token(ip),
        is_token(port),
        is_blank(line_end),
        is_token(btc_addr),
    ensures
        coordinator_request_of(
            encode_utf8(register_message_spec(id, ip, port + line_end, btc_addr)),
        ) == Some(
            CoordinatorRequestModel::Register(
                ProviderModel { id, ip_addr: ip + seq![':'] + port, btc_addr },
            ),
        ),
{
    let addr = ip + seq![':'] + port;
    lemma_token_join(ip, port);
    let gap = line_end + seq![' '];
    assert forall|i: int| 0 <= i < gap.len() implies is_ascii_whitespace(#[trigger] gap[i]) by {
        if i < line_end.len() {
            assert(gap[i] == line_end[i]);
        }
    }
    let tail = addr + gap + btc_addr;
    let rest = id + seq![' '] + tail;
    let msg = register_message_spec(id, ip, port + line_end, btc_addr);
    assert(msg =~= seq!['p', ' '] + rest);
    lemma_words_command('p', rest);
    lemma_words_token_then(id, ' ', tail);
    lemma_words_token_then_blank(addr, gap, btc_addr);
    lemma_words_token(btc_addr);
    let ws = words(msg);
    assert(ws =~= seq![seq!['p'], id, addr, btc_addr]);
}

/// Whatever provider id a client asks for, the coordinator reads a lookup.
pub proof fn lemma_lookup_message_read_back(provider_id: Seq<char>)
    ensures
        coordinator_request_of(encode_utf8(lookup_message_spec(provider_id)))
            == Some(CoordinatorRequestModel::Lookup),
{
    lemma_words_command('c', provider_id);
    let ws = words(lookup_message_spec(provider_id));
    assert(ws[0] == seq!['c']);
    assert(ws[0] != seq!['p']) by {
        assert(ws[0][0] != seq!['p'][0]);
    }
}

/// A client reads back the provider that the coordinator offers, when its
/// fields are free of whitespace.
pub proof fn lemma_offer_message_read_back(p: ProviderModel)
    requires
        is_token(p.id),
        is_token(p.ip_addr),
        is_token(p.btc_addr),
    ensures
        offer_of(encode_utf8(offer_message_spec(p))) == Some(p),
{
    lemma_words_three(p.id, p.ip_addr, p.btc_addr);
}

/// A provider reads the size and name of an offered file, when the name is
/// free of whitespace.
pub proof fn lemma_upload_message_read_back(size: u64, file_name: Seq<char>)
    requires
        is_token(file_name),
    ensures
        storage_request_of(encode_utf8(upload_message_spec(size, file_name))) == Some(
            StorageRequestModel::Upload { size, file_name: Some(file_name) },
        ),
{
    let digits = decimal(size as nat);
    lemma_decimal_is_token(size as nat);
    lemma_parse_decimal(size);
    let rest = digits + seq![' '] + file_name;
    assert(upload_message_spec(size, file_name) =~= seq!['u', ' '] + rest);
    lemma_words_command('u', rest);
    lemma_words_token_then(digits, ' ', file_name);
    lemma_words_token(file_name);
    let ws = words(upload_message_spec(size, file_name));
    assert(ws =~= seq![seq!['u'], digits, file_name]);
}

/// A provider reads the exact name of an offered file whose name holds none of
/// the five separators U+0020, U+0009, U+000A, U+000C and U+000D (so `_`, `-`
/// and `.` stay in it), and the exact size.
pub proof fn lemma_upload_name_read_back(size: u64, file_name: Seq<char>)
    requires
        file_name.len() > 0,
        free_of_ascii_whitespace(file_name),
    ensures
        storage_request_of(encode_utf8(upload_message_spec(size, file_name))) == Some(
            StorageRequestModel::Upload { size, file_name: Some(file_name) },
        ),
{
    lemma_unseparated_text_is_one_word(file_name);
    lemma_upload_message_read_back(size, file_name);
}

/// A provider reads the hash of a requested file, when it is free of whitespace.
pub proof fn lemma_download_message_read_back(hash: Seq<char>)
    requires
        is_token(hash),
    ensures
        storage_request_of(encode_utf8(download_message_spec(hash))) == Some(
            StorageRequestModel::Download { hash },
        ),
{
    lemma_words_command('d', hash);
    lemma_words_token(hash);
    let ws = words(download_message_spec(hash));
    assert(ws =~= seq![seq!['d'], hash]);
    assert(ws[0] != seq!['u']) by {
        assert(ws[0][0] != seq!['u'][0]);
    }
}

/// A provider takes exactly the files of at most 128000000 bytes: every
/// larger offer is refused, every smaller or equal one accepted.
pub proof fn lemma_capacity_bound(size: u64)
    ensures
        CAPACITY == 128000000,
        accepts_upload(size) <==> size <= 128000000,
{
}

/// A client goes ahead with an upload when the provider signals that it may start.
pub proof fn lemma_upload_started_goes_ahead()
    ensures
        upload_go_ahead_of(encode_utf8(upload_started_spec())) == Some(true),
{
    let s = upload_started_spec();
    let rest = seq!['f', 'i', 'l', 'e', '.', '.', '.'];
    let first = seq!['u', 'p', 'l', 'o', 'a', 'd', 'i', 'n', 'g'];
    assert(s =~= first + seq![' '] + rest);
    assert(is_token(first));
    lemma_words_token_then(first, ' ', rest);
    let ws = words(s);
    assert(ws[0] == first);
    assert(first != seq!['e', 'r', 'r', ':']) by {
        assert(first.len() != 4);
    }
}

} // verus!

//! The Bitcoin side: what an upload costs, the wallet's descriptors, and the
//! script that pays a provider.
use vstd::prelude::*;

use bdk::bitcoin::secp256k1::Secp256k1;
use bdk::bitcoin::util::bip32::{DerivationPath, ExtendedPrivKey, KeySource};
use bdk::bitcoin::{Address, Network};
use bdk::keys::bip39::{Language, Mnemonic, WordCount};
use bdk::keys::{DerivableKey, DescriptorKey, ExtendedKey, GeneratableKey, GeneratedKey};
use bdk::miniscript::Segwitv0;
use bdk::wallet::wallet_name_from_descriptor;

use crate::digest::is_lower_hex_digit;

verus! {

/// Satoshis charged for each unit of a file's size (the size is counted in bytes).
pub const SATS_X_KB: u64 = 100;

/// What a client pays a provider to store a file of `file_size` bytes.
pub fn upload_price(file_size: u64) -> (amount: u64)
    requires
        file_size * SATS_X_KB <= u64::MAX,
    ensures
        amount == file_size * SATS_X_KB,
{
    file_size * SATS_X_KB
}

// ------------------------------------------------------------ descriptors

/// The text of the extended private key (on testnet) that the BIP-39
/// mnemonic `phrase` with passphrase `password` gives, or `None` when the
/// phrase is not a valid English mnemonic.
pub uninterp spec fn testnet_master_key(phrase: Seq<char>, password: Seq<char>) -> Option<Seq<char>>;

/// The text of the descriptor secret key derived from the extended private
/// key `xprv` along `path` (with the master fingerprint as origin), or `None`
/// when either cannot be read or the derivation fails.
pub uninterp spec fn derived_secret_key(xprv: Seq<char>, path: Seq<char>) -> Option<Seq<char>>;

/// bdk's `Mnemonic::generate` for 12 English words, drawn from the thread's
/// random generator, written out as its phrase. Nothing is claimed of the
/// phrase: it is left to chance.
#[verifier::external_body]
fn generate_mnemonic() -> (phrase: Option<String>) {
    let generated: GeneratedKey<Mnemonic, Segwitv0> =
        Mnemonic::generate((WordCount::Words12, Language::English)).ok()?;
    Some(generated.into_key().to_string())
}

/// bdk's `Mnemonic::parse_in` (English), `into_extended_key` with the
/// passphrase and `into_xprv(Network::Testnet)`, written out as text.
/// Claimed: the result is the one named by `testnet_master_key`.
#[verifier::external_body]
fn master_key(phrase: &str, password: &str) -> (xprv: Option<String>)
    ensures
        xprv matches Some(x) ==> testnet_master_key(phrase@, password@) == Some(x@),
        xprv is None ==> testnet_master_key(phrase@, password@) is None,
{
    let mnemonic = Mnemonic::parse_in(Language::English, phrase).ok()?;
    let xkey: ExtendedKey<Segwitv0> =
        (mnemonic, Some(password.to_string())).into_extended_key().ok()?;
    Some(xkey.into_xprv(Network::Testnet)?.to_string())
}

/// `/84'/1'/0'/0`: the receive path as a key's origin prints it.
pub open spec fn receive_origin() -> Seq<char> {
    seq!['/', '8', '4', '\'', '/', '1', '\'', '/', '0', '\'', '/', '0']
}

/// `/84'/1'/0'/1`: the change path as a key's origin prints it.
pub open spec fn change_origin() -> Seq<char> {
    seq!['/', '8', '4', '\'', '/', '1', '\'', '/', '0', '\'', '/', '1']
}

/// Whether `key` begins with the origin `[<fingerprint><origin>]`, the
/// fingerprint being 8 lowercase hexadecimal digits.
pub open spec fn has_origin(key: Seq<char>, origin: Seq<char>) -> bool {
    &&& key.len() >= 10 + origin.len()
    &&& key[0] == '['
    &&& forall|i: int| 1 <= i < 9 ==> is_lower_hex_digit(#[trigger] key[i])
    &&& key.subrange(9, 9 + origin.len() as int) == origin
    &&& key[9 + origin.len() as int] == ']'
}

/// bdk's `ExtendedPrivKey::derive_priv` along `path`, then
/// `into_descriptor_key` with the master fingerprint and `path` as origin,
/// keeping the secret key, written out as text. Claimed: the result is the
/// one named by `derived_secret_key`; and the text begins with the origin
/// (miniscript prints `[`, the fingerprint's 4 bytes as lowercase hex, the
/// path's steps with `'` for hardened ones, and `]`), stated for the receive
/// and change paths.
#[verifier::external_body]
fn derive_secret_key(xprv: &str, path: &str) -> (key: Option<String>)
    ensures
        key matches Some(k) ==> derived_secret_key(xprv@, path@) == Some(k@),
        key is None ==> derived_secret_key(xprv@, path@) is None,
        path@ == receive_path() ==> (key matches Some(k) ==> has_origin(k@, receive_origin())),
        path@ == change_path() ==> (key matches Some(k) ==> has_origin(k@, change_origin())),
{
    let secp = Secp256k1::new();
    let xprv = xprv.parse::<ExtendedPrivKey>().ok()?;
    let path = path.parse::<DerivationPath>().ok()?;
    let origin: KeySource = (xprv.fingerprint(&secp), path.clone());
    let derived = xprv.derive_priv(&secp, &path).ok()?;
    match derived.into_descriptor_key(Some(origin), DerivationPath::default()).ok()? {
        DescriptorKey::<Segwitv0>::Secret(key, _, _) => Some(key.to_string()),
        _ => None,
    }
}

/// The passphrase that protects the generated mnemonic.
pub open spec fn mnemonic_password() -> Seq<char> {
    "random password"@
}

/// Derivation path of the receive keys.
pub open spec fn receive_path() -> Seq<char> {
    "m/84h/1h/0h/0"@
}

/// Derivation path of the change keys.
pub open spec fn change_path() -> Seq<char> {
    "m/84h/1h/0h/1"@
}

/// `wpkh(<key>)`: the pay-to-witness-public-key-hash descriptor of `key`.
pub open spec fn wpkh_descriptor(key: Seq<char>) -> Seq<char> {
    seq!['w', 'p', 'k', 'h', '('] + key + seq![')']
}

/// The receive and change descriptors of the wallet made from `phrase`.
pub open spec fn descriptors_spec(phrase: Seq<char>) -> Option<(Seq<char>, Seq<char>)> {
    match testnet_master_key(phrase, mnemonic_password()) {
        None => None,
        Some(xprv) => match (
            derived_secret_key(xprv, receive_path()),
            derived_secret_key(xprv, change_path()),
        ) {
            (Some(r), Some(c)) => Some((wpkh_descriptor(r), wpkh_descriptor(c))),
            _ => None,
        },
    }
}

/// The wallet's descriptors come from the master key of the mnemonic under
/// the passphrase `random password` (not the empty one): they wrap the keys
/// derived from it along `m/84h/1h/0h/0` and `m/84h/1h/0h/1`, and exist
/// exactly when that master key and both keys do.
pub proof fn lemma_descriptors_use_random_password(phrase: Seq<char>)
    ensures
        descriptors_spec(phrase) == match testnet_master_key(phrase, "random password"@) {
            Some(x) => match (
                derived_secret_key(x, "m/84h/1h/0h/0"@),
                derived_secret_key(x, "m/84h/1h/0h/1"@),
            ) {
                (Some(rk), Some(ck)) => Some(
                    (
                        seq!['w', 'p', 'k', 'h', '('] + rk + seq![')'],
                        seq!['w', 'p', 'k', 'h', '('] + ck + seq![')'],
                    ),
                ),
                _ => None,
            },
            None => None,
        },
{
}

/// The descriptor `wpkh(<key>)`.
pub fn wpkh(key: &str) -> (d: String)
    ensures
        d@ == wpkh_descriptor(key@),
{
    let mut d = String::from_str("wpkh(");
    d.append(key);
    d.append(")");
    proof {
        reveal_strlit("wpkh(");
        reveal_strlit(")");
        assert(d@ =~= wpkh_descriptor(key@));
    }
    d
}

/// The receive and change descriptors of the wallet made from the mnemonic
/// `phrase`; `None` when the phrase or a derivation fails.
pub fn descriptors_from_mnemonic(phrase: &str) -> (res: Option<(String, String)>)
    ensures
        match res {
            Some((r, c)) => descriptors_spec(phrase@) == Some((r@, c@)),
            None => descriptors_spec(phrase@) is None,
        },
        res matches Some((r, c)) ==> r@ != c@,
        res matches Some((r, c)) ==> match testnet_master_key(phrase@, "random password"@) {
            Some(x) => match (
                derived_secret_key(x, "m/84h/1h/0h/0"@),
                derived_secret_key(x, "m/84h/1h/0h/1"@),
            ) {
                (Some(rk), Some(ck)) => r@ == seq!['w', 'p', 'k', 'h', '('] + rk + seq![')'] && c@
                    == seq!['w', 'p', 'k', 'h', '('] + ck + seq![')'],
                _ => false,
            },
            None => false,
        },
{
    let xprv = match master_key(phrase, "random password") {
        Some(x) => x,
        None => return None,
    };
    let receive = derive_secret_key(xprv.as_str(), "m/84h/1h/0h/0");
    let change = derive_secret_key(xprv.as_str(), "m/84h/1h/0h/1");
    match (receive, change) {
        (Some(r), Some(c)) => {
            let rd = wpkh(r.as_str());
            let cd = wpkh(c.as_str());
            proof {
                assert(has_origin(r@, receive_origin()));
                assert(has_origin(c@, change_origin()));
                assert(r@[20] == receive_origin()[11]);
                assert(c@[20] == change_origin()[11]);
                assert(rd@[25] == r@[20]);
                assert(cd@[25] == c@[20]);
            }
            Some((rd, cd))
        },
        _ => None,
    }
}

/// A new wallet's receive and change descriptors, from a freshly generated
/// mnemonic; `None` when generation or derivation fails.
pub fn get_descriptors() -> (res: Option<(String, String)>)
    ensures
        res matches Some((r, c)) ==> exists|phrase: Seq<char>| descriptors_spec(phrase) == Some((r@, c@)),
        res matches Some((r, c)) ==> r@ != c@,
{
    match generate_mnemonic() {
        Some(phrase) => descriptors_from_mnemonic(phrase.as_str()),
        None => None,
    }
}

/// The name under which the wallet with these receive and change descriptors
/// keeps its database, or `None` when a descriptor cannot be read.
pub uninterp spec fn wallet_name_of(receive: Seq<char>, change: Seq<char>) -> Option<Seq<char>>;

/// bdk's `wallet_name_from_descriptor` for testnet. Claimed: the result is
/// the one named by `wallet_name_of`.
#[verifier::external_body]
fn wallet_name(receive: &str, change: &str) -> (name: Option<String>)
    ensures
        name matches Some(n) ==> wallet_name_of(receive@, change@) == Some(n@),
        name is None ==> wallet_name_of(receive@, change@) is None,
{
    wallet_name_from_descriptor(receive, Some(change), Network::Testnet, &Secp256k1::new()).ok()
}

/// The name of the database of the wallet made from these descriptors, as
/// the wallet is opened with; `None` when a descriptor cannot be read.
pub fn wallet_database_name(receive: &str, change: &str) -> (name: Option<String>)
    ensures
        match name {
            Some(n) => wallet_name_of(receive@, change@) == Some(n@),
            None => wallet_name_of(receive@, change@) is None,
        },
{
    wallet_name(receive, change)
}

// ------------------------------------------------------------- recipients

/// Whether `c` has Unicode's White_Space property, which `str::trim` strips.
pub open spec fn is_unicode_whitespace(c: char) -> bool {
    let u = c as u32;
    (9 <= u <= 13) || u == 32 || u == 0x85 || u == 0xA0 || u == 0x1680 || (0x2000 <= u <= 0x200A)
        || u == 0x2028 || u == 0x2029 || u == 0x202F || u == 0x205F || u == 0x3000
}

fn is_unicode_whitespace_char(c: char) -> (res: bool)
    ensures
        res == is_unicode_whitespace(c),
        res == ((9 <= c as u32 <= 13) || c as u32 == 0x20 || c as u32 == 0x85 || c as u32 == 0xA0
            || c as u32 == 0x1680 || (0x2000 <= c as u32 <= 0x200A) || c as u32 == 0x2028
            || c as u32 == 0x2029 || c as u32 == 0x202F || c as u32 == 0x205F || c as u32
            == 0x3000),
{
    let u = c as u32;
    (9 <= u && u <= 13) || u == 32 || u == 0x85 || u == 0xA0 || u == 0x1680 || (0x2000 <= u && u
        <= 0x200A) || u == 0x2028 || u == 0x2029 || u == 0x202F || u == 0x205F || u == 0x3000
}

/// Number of whitespace characters at the start of `s`.
pub open spec fn leading_whitespace(s: Seq<char>) -> nat
    decreases s.len(),
{
    if s.len() > 0 && is_unicode_whitespace(s[0]) {
        1 + leading_whitespace(s.drop_first())
    } else {
        0
    }
}

/// Number of whitespace characters at the end of `s`.
pub open spec fn trailing_whitespace(s: Seq<char>) -> nat
    decreases s.len(),
{
    if s.len() > 0 && is_unicode_whitespace(s.last()) {
        1 + trailing_whitespace(s.drop_last())
    } else {
        0
    }
}

/// `s` without its leading and trailing whitespace, as `str::trim` returns it.
pub open spec fn trim_spec(s: Seq<char>) -> Seq<char> {
    let a = leading_whitespace(s);
    if a >= s.len() {
        Seq::<char>::empty()
    } else {
        s.subrange(a as int, s.len() - trailing_whitespace(s))
    }
}

proof fn lemma_leading_whitespace(s: Seq<char>, a: int)
    requires
        0 <= a <= s.len(),
        forall|i: int| 0 <= i < a ==> is_unicode_whitespace(#[trigger] s[i]),
        a == s.len() || !is_unicode_whitespace(s[a]),
    ensures
        leading_whitespace(s) == a,
    decreases a,
{
    if a > 0 {
        let t = s.drop_first();
        assert forall|i: int| 0 <= i < a - 1 implies is_unicode_whitespace(#[trigger] t[i]) by {
            assert(t[i] == s[i + 1]);
        }
        if a < s.len() {
            assert(t[a - 1] == s[a]);
        }
        lemma_leading_whitespace(t, a - 1);
    }
}

proof fn lemma_trailing_whitespace(s: Seq<char>, b: int)
    requires
        0 <= b <= s.len(),
        forall|i: int| b <= i < s.len() ==> is_unicode_whitespace(#[trigger] s[i]),
        b == 0 || !is_unicode_whitespace(s[b - 1]),
    ensures
        trailing_whitespace(s) == s.len() - b,
    decreases s.len() - b,
{
    if b < s.len() {
        let t = s.drop_last();
        assert forall|i: int| b <= i < t.len() implies is_unicode_whitespace(#[trigger] t[i]) by {
            assert(t[i] == s[i]);
        }
        if b > 0 {
            assert(t[b - 1] == s[b - 1]);
        }
        lemma_trailing_whitespace(t, b);
    }
}

proof fn lemma_leading_whitespace_facts(s: Seq<char>)
    ensures
        leading_whitespace(s) <= s.len(),
        forall|i: int| 0 <= i < leading_whitespace(s) ==> is_unicode_whitespace(#[trigger] s[i]),
        leading_whitespace(s) < s.len() ==> !is_unicode_whitespace(s[leading_whitespace(s) as int]),
    decreases s.len(),
{
    if s.len() > 0 && is_unicode_whitespace(s[0]) {
        let t = s.drop_first();
        lemma_leading_whitespace_facts(t);
        assert forall|i: int| 0 <= i < leading_whitespace(s) implies is_unicode_whitespace(
            #[trigger] s[i],
        ) by {
            if i > 0 {
                assert(s[i] == t[i - 1]);
            }
        }
        if leading_whitespace(s) < s.len() {
            assert(s[leading_whitespace(s) as int] == t[leading_whitespace(t) as int]);
        }
    }
}

proof fn lemma_trailing_whitespace_facts(s: Seq<char>)
    ensures
        trailing_whitespace(s) <= s.len(),
        forall|i: int|
            s.len() - trailing_whitespace(s) <= i < s.len() ==> is_unicode_whitespace(
                #[trigger] s[i],
            ),
        trailing_whitespace(s) < s.len() ==> !is_unicode_whitespace(
            s[s.len() - trailing_whitespace(s) - 1],
        ),
    decreases s.len(),
{
    if s.len() > 0 && is_unicode_whitespace(s.last()) {
        let t = s.drop_last();
        lemma_trailing_whitespace_facts(t);
        assert forall|i: int|
            s.len() - trailing_whitespace(s) <= i < s.len() implies is_unicode_whitespace(
            #[trigger] s[i],
        ) by {
            if i < s.len() - 1 {
                assert(s[i] == t[i]);
            }
        }
        if trailing_whitespace(s) < s.len() {
            assert(s[s.len() - trailing_whitespace(s) - 1] == t[t.len() - trailing_whitespace(t)
                - 1]);
        }
    }
}

/// Trimming strips a character with Unicode's White_Space property (U+0009 to
/// U+000D, U+0020, U+0085, U+00A0, U+1680, U+2000 to U+200A, U+2028, U+2029,
/// U+202F, U+205F, U+3000) from either end: text with such a character added
/// before or after it trims to the same text, and so pays the same recipient.
pub proof fn lemma_trim_strips_white_space(s: Seq<char>, c: char)
    requires
        (9 <= c as u32 <= 13) || c as u32 == 0x20 || c as u32 == 0x85 || c as u32 == 0xA0
            || c as u32 == 0x1680 || (0x2000 <= c as u32 <= 0x200A) || c as u32 == 0x2028
            || c as u32 == 0x2029 || c as u32 == 0x202F || c as u32 == 0x205F || c as u32
            == 0x3000,
    ensures
        trim_spec(s.push(c)) == trim_spec(s),
        trim_spec(seq![c] + s) == trim_spec(s),
        address_script(trim_spec(s.push(c))) == address_script(trim_spec(s)),
        address_script(trim_spec(seq![c] + s)) == address_script(trim_spec(s)),
{
    assert(is_unicode_whitespace(c));
    let n = s.len() as int;
    lemma_leading_whitespace_facts(s);
    lemma_trailing_whitespace_facts(s);
    let a = leading_whitespace(s) as int;
    let b = n - trailing_whitespace(s);
    // Appending `c`.
    let t = s.push(c);
    assert(t.drop_last() =~= s);
    assert(trailing_whitespace(t) == trailing_whitespace(s) + 1);
    if a == n {
        assert forall|i: int| 0 <= i < t.len() implies is_unicode_whitespace(#[trigger] t[i]) by {
            if i < n {
                assert(t[i] == s[i]);
            }
        }
        lemma_leading_whitespace(t, t.len() as int);
    } else {
        assert forall|i: int| 0 <= i < a implies is_unicode_whitespace(#[trigger] t[i]) by {
            assert(t[i] == s[i]);
        }
        assert(t[a] == s[a]);
        lemma_leading_whitespace(t, a);
        assert(a < b);
        assert(t.subrange(a, t.len() - trailing_whitespace(t)) =~= s.subrange(a, b));
    }
    // Prepending `c`.
    let u = seq![c] + s;
    assert(u.drop_first() =~= s);
    assert(u[0] == c);
    assert(leading_whitespace(u) == 1 + leading_whitespace(s));
    if a < n {
        assert forall|i: int| b + 1 <= i < u.len() implies is_unicode_whitespace(#[trigger] u[i]) by {
            assert(u[i] == s[i - 1]);
        }
        assert(u[b] == s[b - 1]);
        lemma_trailing_whitespace(u, b + 1);
        assert(u.subrange(a + 1, b + 1) =~= s.subrange(a, b));
    }
}

/// `s` without its leading and trailing whitespace.
pub fn trim(s: &str) -> (t: &str)
    ensures
        t@ == trim_spec(s@),
{
    let n = s.unicode_len();
    let mut a: usize = 0;
    while a < n
        invariant
            n == s@.len(),
            a <= n,
            forall|i: int| 0 <= i < a ==> is_unicode_whitespace(#[trigger] s@[i]),
        ensures
            a <= n,
            forall|i: int| 0 <= i < a ==> is_unicode_whitespace(#[trigger] s@[i]),
            a == n || !is_unicode_whitespace(s@[a as int]),
        decreases n - a,
    {
        if !is_unicode_whitespace_char(s.get_char(a)) {
            break;
        }
        a = a + 1;
    }
    proof {
        lemma_leading_whitespace(s@, a as int);
    }
    if a == n {
        let t = s.substring_char(0, 0);
        assert(t@ =~= trim_spec(s@));
        return t;
    }
    let mut b: usize = n;
    while b > a + 1
        invariant
            n == s@.len(),
            a < b <= n,
            !is_unicode_whitespace(s@[a as int]),
            forall|i: int| b <= i < n ==> is_unicode_whitespace(#[trigger] s@[i]),
        ensures
            a < b <= n,
            forall|i: int| b <= i < n ==> is_unicode_whitespace(#[trigger] s@[i]),
            !is_unicode_whitespace(s@[b - 1]),
        decreases b,
    {
        if !is_unicode_whitespace_char(s.get_char(b - 1)) {
            break;
        }
        b = b - 1;
    }
    proof {
        lemma_trailing_whitespace(s@, b as int);
    }
    s.substring_char(a, b)
}

/// The output script that pays the address written `address`, as bytes, or
/// `None` when it is not a valid address.
pub uninterp spec fn address_script(address: Seq<char>) -> Option<Seq<u8>>;

/// bdk's `Address::from_str`, then `script_pubkey`, as bytes. Claimed: the
/// result is the one named by `address_script`.
#[verifier::external_body]
fn parse_address_script(address: &str) -> (script: Option<Vec<u8>>)
    ensures
        script matches Some(b) ==> address_script(address@) == Some(b@),
        script is None ==> address_script(address@) is None,
{
    Some(address.parse::<Address>().ok()?.script_pubkey().to_bytes())
}

/// The script that pays the recipient written `address`, surrounding
/// whitespace ignored; `None` when the rest is not a valid address.
pub fn recipient_script(address: &str) -> (script: Option<Vec<u8>>)
    ensures
        match script {
            Some(b) => address_script(trim_spec(address@)) == Some(b@),
            None => address_script(trim_spec(address@)) is None,
        },
{
    parse_address_script(trim(address))
}

} // verus!

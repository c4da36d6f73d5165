use p2p_storage::client::{finish_upload, prepare_upload};
use p2p_storage::digest::file_hash;
use p2p_storage::files::FileInfo;
use p2p_storage::protocol::{parse_offer, Provider};
use p2p_storage::registry::{new_provider_id, Providers};
use p2p_storage::wallet::{
    descriptors_from_mnemonic, get_descriptors, recipient_script, trim, upload_price,
    wallet_database_name, wpkh,
};

const PHRASE: &str = "aim bunker wash balance finish force paper analyst cabin spoon stable organ";

#[test]
fn price_is_one_hundred_sats_per_byte() {
    assert_eq!(upload_price(0), 0);
    assert_eq!(upload_price(1000), 100000);
    assert_eq!(upload_price(u64::MAX / 100), (u64::MAX / 100) * 100);
}

#[test]
fn wpkh_wraps_the_key() {
    assert_eq!(wpkh("abc"), "wpkh(abc)");
}

#[test]
fn descriptors_of_a_known_mnemonic() {
    let (r, c) = descriptors_from_mnemonic(PHRASE).unwrap();
    assert!(r.starts_with("wpkh(["));
    assert!(r.contains("/84'/1'/0'/0]tprv"));
    assert!(c.contains("/84'/1'/0'/1]tprv"));
    assert!(r.ends_with(")") && c.ends_with(")"));
    assert_ne!(r, c);
    assert_eq!(descriptors_from_mnemonic(PHRASE).unwrap(), (r, c));
}

#[test]
fn an_invalid_mnemonic_gives_no_descriptors() {
    assert!(descriptors_from_mnemonic("not a mnemonic").is_none());
}

#[test]
fn generated_descriptors_name_a_wallet() {
    let (r, c) = get_descriptors().unwrap();
    assert!(r.starts_with("wpkh(") && c.starts_with("wpkh("));
    let name = wallet_database_name(&r, &c).unwrap();
    assert_eq!(name.len(), 16);
    assert_eq!(wallet_database_name(&r, &c).unwrap(), name);
}

#[test]
fn trim_strips_unicode_whitespace() {
    assert_eq!(trim("  tb1q \n"), "tb1q");
    assert_eq!(trim("\u{3000}x y\u{a0}"), "x y");
    assert_eq!(trim(" \t "), "");
    assert_eq!(trim(""), "");
    for s in ["a", " a", "a ", "\u{2028}ab\u{85}"] {
        assert_eq!(trim(s), s.trim());
    }
}

#[test]
fn recipient_script_pays_the_address() {
    let addr = "tb1qw508d6qejxtdg4y5r3zarvary0c5xw7kxpjzsx";
    let script = recipient_script(&format!("{}\n", addr)).unwrap();
    assert_eq!(script.len(), 22);
    assert_eq!(script[0], 0x00);
    assert_eq!(script[1], 0x14);
    assert!(recipient_script("not an address").is_none());
}

#[test]
fn provider_ids_are_numerals_up_to_the_limit() {
    for _ in 0..20 {
        let id = new_provider_id();
        let n: u64 = id.parse().unwrap();
        assert!(n <= 65535);
        assert_eq!(n.to_string(), id);
    }
}

#[test]
fn the_coordinator_offers_a_registered_provider() {
    let mut list = Providers::new();
    list.add_provider(Provider { id: "1".into(), ip_addr: "a:1".into(), btc_addr: "x".into() });
    list.add_provider(Provider { id: "2".into(), ip_addr: "b:2".into(), btc_addr: "y".into() });
    for _ in 0..20 {
        let answer = list.offer_random_provider();
        let p = parse_offer(answer.as_bytes()).unwrap();
        assert!((p.id == "1" && p.ip_addr == "a:1") || (p.id == "2" && p.ip_addr == "b:2"));
    }
}

#[test]
fn an_upload_is_priced_and_then_recorded() {
    let mut files: Vec<FileInfo> = Vec::new();
    let offer = prepare_upload(&files, "f.bin", 3).unwrap();
    assert_eq!(offer.amount, 300);
    assert_eq!(offer.request, "u 3 f.bin");
    finish_upload(&mut files, "f.bin", b"enc", "12".to_string());
    assert_eq!(files.len(), 1);
    assert_eq!(files[0].hash, file_hash("f.bin", b"enc"));
    assert_eq!(files[0].provider_id, "12");
    assert_eq!(
        prepare_upload(&files, "f.bin", 3).err().unwrap(),
        "File with this name already exists. Change file name"
    );
}


use p2p_storage::client::{upload_step, UploadStep};

#[test]
fn descriptor_keys_print_their_origin() {
    let (r, c) = descriptors_from_mnemonic(PHRASE).unwrap();
    let rk = &r["wpkh(".len()..];
    let ck = &c["wpkh(".len()..];
    assert!(rk.starts_with('['));
    assert!(rk[1..9].chars().all(|ch| matches!(ch, '0'..='9' | 'a'..='f')));
    assert_eq!(&rk[9..22], "/84'/1'/0'/0]");
    assert_eq!(&ck[9..22], "/84'/1'/0'/1]");
    assert_eq!(&rk[..9], &ck[..9]);
}

#[test]
fn the_reply_decides_whether_to_pay() {
    assert!(matches!(upload_step(b""), Some(UploadStep::NoReply)));
    assert!(matches!(upload_step(b"uploading file..."), Some(UploadStep::Pay)));
    assert!(matches!(upload_step(b"err: full"), Some(UploadStep::Stop)));
    assert!(matches!(upload_step(b"error: file exceeds storage capacity limit"), Some(UploadStep::Pay)));
    assert!(upload_step(b"   ").is_none());
    assert!(upload_step(&[0xff]).is_none());
}

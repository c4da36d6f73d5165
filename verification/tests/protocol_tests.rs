use p2p_storage::protocol::{
    download_message, lookup_message, offer_message, parse_coordinator_request, parse_offer,
    parse_storage_request, parse_upload_reply, register_message, upload_fits, upload_message,
    upload_reply, CoordinatorRequest, Provider, StorageRequest, CAPACITY,
};

fn provider(id: &str, ip: &str, btc: &str) -> Provider {
    Provider { id: id.to_string(), ip_addr: ip.to_string(), btc_addr: btc.to_string() }
}

#[test]
fn register_message_has_the_wire_layout() {
    let m = register_message("4711", "192.168.1.5", "8080\n", "tb1qxyz");
    assert_eq!(m, "p 4711 192.168.1.5:8080\n tb1qxyz");
}

#[test]
fn coordinator_reads_a_registration() {
    let m = register_message("4711", "192.168.1.5", "8080", "tb1qxyz");
    match parse_coordinator_request(m.as_bytes()) {
        Some(CoordinatorRequest::Register(p)) => {
            assert_eq!(p.id, "4711");
            assert_eq!(p.ip_addr, "192.168.1.5:8080");
            assert_eq!(p.btc_addr, "tb1qxyz");
        }
        _ => panic!("expected a registration"),
    }
}

#[test]
fn coordinator_reads_a_registration_with_the_port_line_break() {
    let m = register_message("1", "10.0.0.1", "9000\n", "addr");
    match parse_coordinator_request(m.as_bytes()) {
        Some(CoordinatorRequest::Register(p)) => {
            assert_eq!(p.ip_addr, "10.0.0.1:9000");
            assert_eq!(p.btc_addr, "addr");
        }
        _ => panic!("expected a registration"),
    }
}

#[test]
fn coordinator_treats_other_messages_as_lookups() {
    assert!(matches!(parse_coordinator_request(lookup_message("n").as_bytes()), Some(CoordinatorRequest::Lookup)));
    assert!(matches!(parse_coordinator_request(lookup_message("123").as_bytes()), Some(CoordinatorRequest::Lookup)));
    assert!(matches!(parse_coordinator_request(b"anything"), Some(CoordinatorRequest::Lookup)));
    assert!(matches!(parse_coordinator_request(b"c"), Some(CoordinatorRequest::Lookup)));
}

#[test]
fn coordinator_cannot_serve_empty_short_or_binary_messages() {
    assert!(parse_coordinator_request(b"").is_none());
    assert!(parse_coordinator_request(b"  \n").is_none());
    assert!(parse_coordinator_request(b"p 1 2").is_none());
    assert!(parse_coordinator_request(&[0xff, 0x20, 0x70]).is_none());
}

#[test]
fn extra_words_after_a_registration_are_ignored() {
    match parse_coordinator_request(b"p a b c d e") {
        Some(CoordinatorRequest::Register(p)) => {
            assert_eq!((p.id.as_str(), p.ip_addr.as_str(), p.btc_addr.as_str()), ("a", "b", "c"));
        }
        _ => panic!("expected a registration"),
    }
}

#[test]
fn lookup_message_has_the_wire_layout() {
    assert_eq!(lookup_message("n"), "c n");
}

#[test]
fn offer_is_read_back_by_the_client() {
    let p = provider("65535", "127.0.0.1:8080", "tb1qabc");
    let m = offer_message(&p);
    assert_eq!(m, "65535 127.0.0.1:8080 tb1qabc");
    let q = parse_offer(m.as_bytes()).unwrap();
    assert_eq!((q.id, q.ip_addr, q.btc_addr), (p.id, p.ip_addr, p.btc_addr));
}

#[test]
fn short_offers_are_not_read() {
    assert!(parse_offer(b"1 2").is_none());
    assert!(parse_offer(b"").is_none());
    assert!(parse_offer(&[0xc3]).is_none());
}

#[test]
fn upload_and_download_messages_have_the_wire_layout() {
    assert_eq!(upload_message(1000, "notes.txt"), "u 1000 notes.txt");
    assert_eq!(upload_message(0, "a b"), "u 0 a b");
    assert_eq!(download_message("abc123"), "d abc123");
}

#[test]
fn provider_reads_an_upload_offer() {
    match parse_storage_request(upload_message(1000, "notes.txt").as_bytes()) {
        Some(StorageRequest::Upload { size, file_name }) => {
            assert_eq!(size, 1000);
            assert_eq!(file_name.as_deref(), Some("notes.txt"));
        }
        _ => panic!("expected an upload"),
    }
}

#[test]
fn provider_reads_an_upload_offer_without_a_name() {
    match parse_storage_request(b"u 999999999999") {
        Some(StorageRequest::Upload { size, file_name }) => {
            assert_eq!(size, 999999999999);
            assert!(file_name.is_none());
        }
        _ => panic!("expected an upload"),
    }
}

#[test]
fn provider_cannot_serve_bad_upload_sizes() {
    assert!(parse_storage_request(b"u").is_none());
    assert!(parse_storage_request(b"u ten name").is_none());
    assert!(parse_storage_request(b"u -1 name").is_none());
    assert!(parse_storage_request(b"u 18446744073709551616 name").is_none());
}

#[test]
fn provider_reads_a_download_request() {
    match parse_storage_request(download_message("feed").as_bytes()) {
        Some(StorageRequest::Download { hash }) => assert_eq!(hash, "feed"),
        _ => panic!("expected a download"),
    }
    match parse_storage_request(b"x beef") {
        Some(StorageRequest::Download { hash }) => assert_eq!(hash, "beef"),
        _ => panic!("expected a download"),
    }
    assert!(parse_storage_request(b"d").is_none());
    assert!(parse_storage_request(b"").is_none());
}

#[test]
fn capacity_decides_the_upload_reply() {
    assert!(upload_fits(CAPACITY));
    assert!(!upload_fits(CAPACITY + 1));
    assert_eq!(upload_reply(0), "uploading file...");
    assert_eq!(upload_reply(CAPACITY), "uploading file...");
    assert_eq!(upload_reply(CAPACITY + 1), "error: file exceeds storage capacity limit");
}

#[test]
fn client_goes_ahead_unless_the_reply_starts_with_err() {
    assert_eq!(parse_upload_reply(b"uploading file..."), Some(true));
    assert_eq!(parse_upload_reply(b"err: no"), Some(false));
    assert_eq!(parse_upload_reply(b"  err:"), Some(false));
    assert_eq!(parse_upload_reply(b""), None);
    assert_eq!(parse_upload_reply(&[0xff]), None);
}

#[test]
fn client_does_not_recognise_the_capacity_refusal() {
    let refusal = upload_reply(CAPACITY + 1);
    assert_eq!(parse_upload_reply(refusal.as_bytes()), Some(true));
}

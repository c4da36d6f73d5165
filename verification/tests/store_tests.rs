use p2p_storage::digest::file_hash;
use p2p_storage::files::{check_new_upload, position_of_name, record_upload, take_file, FileInfo};
use p2p_storage::storage::{receive_upload, StoredFile, StoredFiles};

fn stored(hash: &str, content: &[u8]) -> StoredFile {
    StoredFile { hash: hash.to_string(), content: content.to_vec() }
}

#[test]
fn a_stored_file_is_handed_back_by_its_hash() {
    let mut store = StoredFiles::new();
    store.store(stored("h1", b"one"));
    store.store(stored("h2", b"two"));
    let f = store.take(&"h2".to_string()).unwrap();
    assert_eq!(f.content, b"two".to_vec());
    assert_eq!(store.stored_files.len(), 1);
    assert_eq!(store.stored_files[0].hash, "h1");
}

#[test]
fn a_handed_back_file_is_gone() {
    let mut store = StoredFiles::new();
    store.store(stored("h1", b"one"));
    assert!(store.take(&"h1".to_string()).is_ok());
    assert_eq!(store.take(&"h1".to_string()).err().unwrap(), "hash not found");
}

#[test]
fn an_unknown_hash_is_refused_and_changes_nothing() {
    let mut store = StoredFiles::new();
    store.store(stored("h1", b"one"));
    let e = store.take(&"zz".to_string()).err().unwrap();
    assert_eq!(e, "hash not found");
    assert_eq!(store.stored_files.len(), 1);
}

#[test]
fn the_oldest_file_of_a_hash_is_handed_out_first() {
    let mut store = StoredFiles::new();
    store.store(stored("h", b"first"));
    store.store(stored("h", b"second"));
    assert_eq!(store.position_of(&"h".to_string()), Some(0));
    assert_eq!(store.take(&"h".to_string()).unwrap().content, b"first".to_vec());
    assert_eq!(store.take(&"h".to_string()).unwrap().content, b"second".to_vec());
}

#[test]
fn received_uploads_are_stored_under_their_file_hash() {
    let f = receive_upload("a.txt", b"cipher".to_vec());
    assert_eq!(f.hash, file_hash("a.txt", b"cipher"));
    assert_eq!(f.content, b"cipher".to_vec());
}

fn info(name: &str) -> FileInfo {
    FileInfo { hash: format!("hash-{}", name), name: name.to_string(), provider_id: "7".to_string() }
}

#[test]
fn a_taken_name_is_refused() {
    let files = vec![info("a.txt"), info("b.txt")];
    assert_eq!(
        check_new_upload(&files, "b.txt").err().unwrap(),
        "File with this name already exists. Change file name"
    );
    assert!(check_new_upload(&files, "c.txt").is_ok());
    assert!(check_new_upload(&Vec::new(), "a.txt").is_ok());
}

#[test]
fn recorded_uploads_are_found_by_name() {
    let mut files = vec![info("a.txt")];
    record_upload(&mut files, "h".to_string(), "b.txt".to_string(), "9".to_string());
    assert_eq!(position_of_name(&files, "b.txt"), Some(1));
    assert!(check_new_upload(&files, "b.txt").is_err());
    let f = take_file(&mut files, "b.txt").unwrap();
    assert_eq!((f.hash.as_str(), f.provider_id.as_str()), ("h", "9"));
    assert_eq!(files.len(), 1);
    assert_eq!(files[0].name, "a.txt");
}

#[test]
fn taking_an_unknown_name_changes_nothing() {
    let mut files = vec![info("a.txt")];
    assert!(take_file(&mut files, "x").is_none());
    assert_eq!(files.len(), 1);
}

use p2p_storage::protocol::{download_message, parse_storage_request, upload_message, CAPACITY, StorageRequest};
use p2p_storage::storage::{handle_request, ProviderAction};

#[test]
fn provider_refuses_oversized_uploads() {
    let mut store = StoredFiles::new();
    let request = StorageRequest::Upload { size: CAPACITY + 1, file_name: Some("x".to_string()) };
    match handle_request(&mut store, request) {
        ProviderAction::RefuseUpload { reply } => {
            assert_eq!(reply, "error: file exceeds storage capacity limit")
        }
        _ => panic!("expected a refusal"),
    }
}

#[test]
fn provider_receives_uploads_within_capacity() {
    let mut store = StoredFiles::new();
    let request = StorageRequest::Upload { size: CAPACITY, file_name: None };
    match handle_request(&mut store, request) {
        ProviderAction::ReceiveUpload { reply, file_name } => {
            assert_eq!(reply, "uploading file...");
            assert!(file_name.is_none());
        }
        _ => panic!("expected to receive"),
    }
    assert!(store.stored_files.is_empty());
}

#[test]
fn an_uploaded_file_comes_back_by_its_hash() {
    let mut store = StoredFiles::new();
    store.store(stored("other", b"zzz"));
    let offer = upload_message(3, "doc.pdf");
    let file_name = match parse_storage_request(offer.as_bytes()).unwrap() {
        StorageRequest::Upload { size, file_name } => {
            assert_eq!(size, 3);
            file_name.unwrap()
        }
        _ => panic!("expected an upload"),
    };
    match handle_request(&mut store, StorageRequest::Upload { size: 3, file_name: Some(file_name.clone()) }) {
        ProviderAction::ReceiveUpload { .. } => store.store(receive_upload(&file_name, b"abc".to_vec())),
        _ => panic!("expected to receive"),
    }
    let client_hash = file_hash("doc.pdf", b"abc");
    let request = parse_storage_request(download_message(&client_hash).as_bytes()).unwrap();
    match handle_request(&mut store, request) {
        ProviderAction::SendFile { content } => assert_eq!(content, b"abc".to_vec()),
        _ => panic!("expected the file"),
    }
    assert_eq!(store.stored_files.len(), 1);
    match handle_request(&mut store, StorageRequest::Download { hash: client_hash }) {
        ProviderAction::SendError { message } => assert_eq!(message, "hash not found"),
        _ => panic!("expected the refusal"),
    }
}

use fileway::error::UploadError;
use fileway::file_data::{FileData, FileDataPermission};
use fileway::store::Store;

fn upload_one(
    store: &mut Store,
    filename: &str,
    declared: Option<u64>,
    max_size: u64,
    chunks: Vec<Vec<u8>>,
) -> Result<String, UploadError> {
    store.upload(
        &filename.to_string(),
        declared,
        max_size,
        &"prefix01".to_string(),
        &chunks,
    )
}

#[test]
fn upload_then_download_round_trips_the_bytes() {
    let mut store = Store::new();
    let name = upload_one(
        &mut store,
        "data.bin",
        Some(6),
        1024,
        vec![vec![1, 2, 3], vec![4, 5, 6]],
    )
    .unwrap();
    let hex = blake3::hash(&[1, 2, 3, 4, 5, 6]).to_hex();
    assert_eq!(name, format!("{}_data.bin", &hex.as_str()[..8]));
    let body = store.download(&name, None, 1000).unwrap();
    assert_eq!(body, vec![1, 2, 3, 4, 5, 6]);
    // the temporary name left no trace
    assert!(!store.has_blob("prefix01_data.bin.partial"));
}

#[test]
fn declared_zero_is_refused_and_stores_nothing() {
    let mut store = Store::new();
    let r = upload_one(&mut store, "f.txt", Some(0), 100, vec![vec![1]]);
    assert!(matches!(r, Err(UploadError::InvalidBody)));
    assert!(!store.has_blob("prefix01_f.txt.partial"));
}

#[test]
fn streaming_past_the_limit_is_refused_and_stores_nothing() {
    let mut store = Store::new();
    // max_size + 1 bytes in two chunks
    let r = upload_one(&mut store, "f.txt", None, 4, vec![vec![1, 2, 3], vec![4, 5]]);
    assert!(matches!(r, Err(UploadError::FileIsTooBig(4))));
    assert!(!store.has_blob("prefix01_f.txt.partial"));
    let hex = blake3::hash(&[1, 2, 3, 4, 5]).to_hex();
    assert!(!store.has_blob(format!("{}_f.txt", &hex.as_str()[..8]).as_str()));
}

#[test]
fn empty_stream_is_refused_and_stores_nothing() {
    let mut store = Store::new();
    let r = upload_one(&mut store, "f.txt", None, 100, Vec::new());
    assert!(matches!(r, Err(UploadError::InvalidBody)));
    assert!(!store.has_blob("prefix01_f.txt.partial"));
}

#[test]
fn incomplete_delivery_is_refused_and_stores_nothing() {
    let mut store = Store::new();
    let r = upload_one(&mut store, "f.txt", Some(10), 100, vec![vec![1, 2]]);
    assert!(matches!(r, Err(UploadError::IncompleteUpload(10, 2))));
    assert!(!store.has_blob("prefix01_f.txt.partial"));
}

#[test]
fn reupload_of_same_content_overwrites_harmlessly() {
    let mut store = Store::new();
    let first = upload_one(&mut store, "f", None, 100, vec![vec![9, 9]]).unwrap();
    let second = upload_one(&mut store, "f", None, 100, vec![vec![9, 9]]).unwrap();
    assert_eq!(first, second);
    assert_eq!(store.download(&first, None, 0).unwrap(), vec![9, 9]);
}

#[test]
fn unlimited_override_admits_a_denied_caller() {
    let mut store = Store::new();
    let name = upload_one(&mut store, "f", None, 100, vec![vec![7]]).unwrap();
    store.put_record(
        name.as_str(),
        FileData {
            download_permission: Some(FileDataPermission::Unlimited),
            ttl: None,
        },
    );
    let denial = UploadError::InvalidAuth("Basic".to_string());
    let body = store.download(&name, Some(denial), 1000).unwrap();
    assert_eq!(body, vec![7]);
}

#[test]
fn denied_override_hides_the_file_even_from_an_authorized_caller() {
    let mut store = Store::new();
    let name = upload_one(&mut store, "f", None, 100, vec![vec![7]]).unwrap();
    store.put_record(
        name.as_str(),
        FileData {
            download_permission: Some(FileDataPermission::Denied),
            ttl: None,
        },
    );
    let r = store.download(&name, None, 1000);
    assert!(matches!(r, Err(UploadError::FileNotExists)));
    // the blob itself is untouched
    assert!(store.has_blob(name.as_str()));
}

#[test]
fn without_override_the_authorization_outcome_decides() {
    let mut store = Store::new();
    let name = upload_one(&mut store, "f", None, 100, vec![vec![7]]).unwrap();
    let denial = UploadError::InvalidAuth("Basic".to_string());
    let r = store.download(&name, Some(denial), 1000);
    assert!(matches!(r, Err(UploadError::InvalidAuth(s)) if s == "Basic"));
    assert!(store.download(&name, None, 1000).is_ok());
}

#[test]
fn missing_blob_answers_not_found_whatever_the_authorization() {
    let mut store = Store::new();
    let r = store.download(&"nothing_here".to_string(), None, 0);
    assert!(matches!(r, Err(UploadError::FileNotExists)));
    let denial = UploadError::InvalidAuth("Basic".to_string());
    let r = store.download(&"nothing_here".to_string(), Some(denial), 0);
    assert!(matches!(r, Err(UploadError::FileNotExists)));
}

#[test]
fn expired_file_answers_not_found_and_vanishes() {
    let mut store = Store::new();
    let name = upload_one(&mut store, "f", None, 100, vec![vec![7]]).unwrap();
    store.put_record(
        name.as_str(),
        FileData {
            // even an unlimited override does not revive an expired file
            download_permission: Some(FileDataPermission::Unlimited),
            ttl: Some(500),
        },
    );
    let r = store.download(&name, None, 501);
    assert!(matches!(r, Err(UploadError::FileNotExists)));
    assert!(!store.has_blob(name.as_str()));
    assert!(store.get_record(name.as_str()).is_none());
}

#[test]
fn expiry_is_strict_so_the_boundary_instant_still_serves() {
    let mut store = Store::new();
    let name = upload_one(&mut store, "f", None, 100, vec![vec![7]]).unwrap();
    store.put_record(
        name.as_str(),
        FileData {
            download_permission: None,
            ttl: Some(500),
        },
    );
    assert!(store.download(&name, None, 500).is_ok());
    assert!(matches!(
        store.download(&name, None, 501),
        Err(UploadError::FileNotExists)
    ));
}

#[test]
fn deleting_an_expired_file_twice_never_errors() {
    let mut store = Store::new();
    let name = upload_one(&mut store, "f", None, 100, vec![vec![7]]).unwrap();
    store.put_record(
        name.as_str(),
        FileData {
            download_permission: None,
            ttl: Some(10),
        },
    );
    // the reaper and the on-demand path race on the same expired file
    store.reap(100);
    let r = store.download(&name, None, 100);
    assert!(matches!(r, Err(UploadError::FileNotExists)));
    // direct double deletion is a no-op as well
    store.delete_blob(name.as_str());
    store.delete_blob(name.as_str());
    store.delete_record(name.as_str());
    store.delete_record(name.as_str());
    assert!(!store.has_blob(name.as_str()));
}

#[test]
fn the_reaper_removes_exactly_the_expired() {
    let mut store = Store::new();
    let expired = upload_one(&mut store, "old", None, 100, vec![vec![1]]).unwrap();
    let fresh = upload_one(&mut store, "new", None, 100, vec![vec![2]]).unwrap();
    let plain = upload_one(&mut store, "plain", None, 100, vec![vec![3]]).unwrap();
    store.put_record(
        expired.as_str(),
        FileData {
            download_permission: None,
            ttl: Some(10),
        },
    );
    store.put_record(
        fresh.as_str(),
        FileData {
            download_permission: None,
            ttl: Some(1000),
        },
    );
    store.reap(100);
    assert!(!store.has_blob(expired.as_str()));
    assert!(store.get_record(expired.as_str()).is_none());
    assert!(store.has_blob(fresh.as_str()));
    assert!(store.get_record(fresh.as_str()).is_some());
    assert!(store.has_blob(plain.as_str()));
    // a second sweep finds nothing more to do
    store.reap(100);
    assert!(store.has_blob(fresh.as_str()));
    assert!(store.has_blob(plain.as_str()));
}

#[test]
fn blobs_can_be_renamed_and_replaced() {
    let mut store = Store::new();
    store.put_blob("a", vec![1]);
    store.put_blob("b", vec![2]);
    store.rename_blob("a", "b");
    assert!(!store.has_blob("a"));
    assert_eq!(store.get_blob("b").unwrap(), &vec![1]);
    store.rename_blob("missing", "c");
    assert!(!store.has_blob("c"));
    store.put_blob("b", vec![9, 9]);
    assert_eq!(store.get_blob("b").unwrap(), &vec![9, 9]);
}

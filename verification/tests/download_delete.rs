use sha2::{Digest, Sha256};
use spaces_store::errors::ErrorType;
use spaces_store::files::UploadPart;
use spaces_store::spaces::CreateSpaceRequest;
use spaces_store::store::{content_disposition, Store};

fn make_space(store: &mut Store, id: &str, now: i64) {
    let req = CreateSpaceRequest {
        name: format!("space {}", id),
        description: None,
        is_public: None,
        access_code: None,
    };
    store
        .create_space_with_id(req, id.to_string(), now)
        .expect("space creation should succeed");
}

fn upload_one(store: &mut Store, space: &str, file_id: &str, name: &str, data: &[u8], now: i64) {
    let p = UploadPart {
        filename: Some(name.to_string()),
        mime_type: Some("application/octet-stream".to_string()),
        data: data.to_vec(),
    };
    store
        .upload_with_ids(
            &space.to_string(),
            vec![p],
            &vec![file_id.to_string()],
            now,
        )
        .expect("upload should succeed");
}

fn hex_key(data: &[u8]) -> String {
    format!("{:x}", Sha256::digest(data))
}

#[test]
fn download_returns_payload_and_metadata() {
    let mut store = Store::new();
    make_space(&mut store, "c1", 1);
    upload_one(&mut store, "c1", "f1", "report.pdf", b"pdf bytes", 2);
    let d = store.download(&"f1".to_string(), 50).expect("download should succeed");
    assert_eq!(d.data, b"pdf bytes".to_vec());
    assert_eq!(d.filename, "report.pdf");
    assert_eq!(d.mime_type.as_deref(), Some("application/octet-stream"));
}

#[test]
fn each_download_counts_once_and_stamps_access_time() {
    let mut store = Store::new();
    make_space(&mut store, "c1", 1);
    upload_one(&mut store, "c1", "f1", "a.txt", b"abc", 2);
    store.download(&"f1".to_string(), 100).unwrap();
    let rec = store.catalog.get_by_id(&"f1".to_string()).unwrap();
    assert_eq!(rec.download_count, 1);
    assert_eq!(rec.last_accessed, Some(100));
    store.download(&"f1".to_string(), 200).unwrap();
    let rec = store.catalog.get_by_id(&"f1".to_string()).unwrap();
    assert_eq!(rec.download_count, 2);
    assert_eq!(rec.last_accessed, Some(200));
}

#[test]
fn download_of_unknown_id_is_not_found() {
    let mut store = Store::new();
    let err = store.download(&"ghost".to_string(), 1).unwrap_err();
    assert!(matches!(err.error_type, ErrorType::NotFound(_)));
}

#[test]
fn disposition_line_quotes_the_original_filename() {
    assert_eq!(
        content_disposition(&"annual report.pdf".to_string()),
        "attachment; filename=\"annual report.pdf\""
    );
}

#[test]
fn delete_returns_the_removed_record() {
    let mut store = Store::new();
    make_space(&mut store, "c1", 1);
    upload_one(&mut store, "c1", "f1", "a.txt", b"abc", 2);
    let removed = store.delete_file(&"f1".to_string()).expect("delete should succeed");
    assert_eq!(removed.id, "f1");
    assert_eq!(removed.original_filename, "a.txt");
    assert_eq!(store.catalog.rows.len(), 0);
    let space = store.get_space(&"c1".to_string()).unwrap();
    assert_eq!(space.total_size_used_bytes, 0);
}

#[test]
fn last_citation_reclaims_blob_earlier_ones_do_not() {
    let mut store = Store::new();
    make_space(&mut store, "c1", 1);
    let payload = b"shared";
    upload_one(&mut store, "c1", "f1", "a.bin", payload, 2);
    upload_one(&mut store, "c1", "f2", "b.bin", payload, 3);
    let key = hex_key(payload);
    store.delete_file(&"f1".to_string()).unwrap();
    // One record still cites the key: the blob must stay retrievable.
    assert!(store.blobs.contains(&key));
    assert!(store.blobs.open_read(&key).is_some());
    store.delete_file(&"f2".to_string()).unwrap();
    // The last citation is gone: so is the blob.
    assert!(!store.blobs.contains(&key));
    assert!(store.blobs.open_read(&key).is_none());
}

#[test]
fn deleting_twice_fails_and_changes_nothing() {
    let mut store = Store::new();
    make_space(&mut store, "c1", 1);
    upload_one(&mut store, "c1", "f1", "a.txt", b"abcde", 2);
    upload_one(&mut store, "c1", "f2", "b.txt", b"xy", 3);
    store.delete_file(&"f1".to_string()).unwrap();
    let usage_after_first = store.get_space(&"c1".to_string()).unwrap().total_size_used_bytes;
    assert_eq!(usage_after_first, 2);
    let err = store.delete_file(&"f1".to_string()).unwrap_err();
    assert!(matches!(err.error_type, ErrorType::NotFound(_)));
    // No double decrement, no second reclaim attempt.
    let usage_after_second = store.get_space(&"c1".to_string()).unwrap().total_size_used_bytes;
    assert_eq!(usage_after_second, 2);
    assert_eq!(store.catalog.rows.len(), 1);
    assert_eq!(store.blobs.rows.len(), 1);
}

#[test]
fn deleting_unknown_id_is_not_found() {
    let mut store = Store::new();
    let err = store.delete_file(&"ghost".to_string()).unwrap_err();
    assert!(matches!(err.error_type, ErrorType::NotFound(_)));
}

#[test]
fn example_flow_across_two_spaces() {
    let payload = b"AAAAAAAAAA";
    let mut store = Store::new();
    make_space(&mut store, "c1", 1);
    make_space(&mut store, "c2", 2);

    upload_one(&mut store, "c1", "f1", "a.bin", payload, 3);
    assert_eq!(store.catalog.rows.len(), 1);
    assert_eq!(store.catalog.rows[0].file_size_bytes, 10);
    assert_eq!(
        store.get_space(&"c1".to_string()).unwrap().total_size_used_bytes,
        10
    );
    let key = hex_key(payload);
    assert!(store.blobs.contains(&key));
    assert_eq!(store.blobs.rows.len(), 1);

    upload_one(&mut store, "c2", "f2", "b.bin", payload, 4);
    assert_eq!(store.catalog.rows.len(), 2);
    assert_eq!(
        store.get_space(&"c2".to_string()).unwrap().total_size_used_bytes,
        10
    );
    assert_eq!(store.blobs.rows.len(), 1);

    store.delete_file(&"f1".to_string()).unwrap();
    assert_eq!(
        store.get_space(&"c1".to_string()).unwrap().total_size_used_bytes,
        0
    );
    assert!(store.blobs.contains(&key));

    store.delete_file(&"f2".to_string()).unwrap();
    assert_eq!(
        store.get_space(&"c2".to_string()).unwrap().total_size_used_bytes,
        0
    );
    assert!(!store.blobs.contains(&key));
}

use sha2::{Digest, Sha256};
use spaces_store::errors::ErrorType;
use spaces_store::files::UploadPart;
use spaces_store::spaces::CreateSpaceRequest;
use spaces_store::store::Store;

fn make_space(store: &mut Store, id: &str, now: i64) {
    let req = CreateSpaceRequest {
        name: format!("space {}", id),
        description: None,
        is_public: Some(true),
        access_code: None,
    };
    store
        .create_space_with_id(req, id.to_string(), now)
        .expect("space creation should succeed");
}

fn part(filename: &str, mime: Option<&str>, data: &[u8]) -> UploadPart {
    UploadPart {
        filename: Some(filename.to_string()),
        mime_type: mime.map(|m| m.to_string()),
        data: data.to_vec(),
    }
}

fn hex_key(data: &[u8]) -> String {
    format!("{:x}", Sha256::digest(data))
}

#[test]
fn upload_creates_record_blob_and_usage() {
    let mut store = Store::new();
    make_space(&mut store, "c1", 100);
    let payload = b"hello blob";
    let recs = store
        .upload_with_ids(
            &"c1".to_string(),
            vec![part("hello.txt", Some("text/plain"), payload)],
            &vec!["f1".to_string()],
            200,
        )
        .expect("upload should succeed");
    assert_eq!(recs.len(), 1);
    let r = &recs[0];
    assert_eq!(r.id, "f1");
    assert_eq!(r.space_id, "c1");
    assert_eq!(r.original_filename, "hello.txt");
    assert_eq!(r.file_size_bytes, payload.len() as u64);
    assert_eq!(r.mime_type.as_deref(), Some("text/plain"));
    assert_eq!(r.upload_date, 200);
    assert_eq!(r.last_accessed, None);
    assert_eq!(r.download_count, 0);
    assert_eq!(r.checksum, hex_key(payload));
    assert!(store.blobs.contains(&hex_key(payload)));
    assert_eq!(store.blobs.rows.len(), 1);
    let space = store.get_space(&"c1".to_string()).unwrap();
    assert_eq!(space.total_size_used_bytes, payload.len() as u64);
}

#[test]
fn same_payload_twice_stores_one_blob() {
    let mut store = Store::new();
    make_space(&mut store, "c1", 1);
    let payload = b"shared content";
    store
        .upload_with_ids(
            &"c1".to_string(),
            vec![part("a.bin", None, payload)],
            &vec!["f1".to_string()],
            2,
        )
        .unwrap();
    store
        .upload_with_ids(
            &"c1".to_string(),
            vec![part("b.bin", None, payload)],
            &vec!["f2".to_string()],
            3,
        )
        .unwrap();
    assert_eq!(store.catalog.rows.len(), 2);
    assert_eq!(store.blobs.rows.len(), 1);
    assert_eq!(
        store.catalog.count_by_content_key(&hex_key(payload)),
        2
    );
    let space = store.get_space(&"c1".to_string()).unwrap();
    assert_eq!(space.total_size_used_bytes, 2 * payload.len() as u64);
}

#[test]
fn upload_to_missing_space_is_not_found() {
    let mut store = Store::new();
    let err = store
        .upload_with_ids(
            &"nowhere".to_string(),
            vec![part("x.txt", None, b"x")],
            &vec!["f1".to_string()],
            1,
        )
        .unwrap_err();
    assert!(matches!(err.error_type, ErrorType::NotFound(_)));
    assert_eq!(store.catalog.rows.len(), 0);
    assert_eq!(store.blobs.rows.len(), 0);
}

#[test]
fn part_without_filename_fails_validation_but_keeps_earlier_parts() {
    let mut store = Store::new();
    make_space(&mut store, "c1", 1);
    let first = b"first part";
    let unnamed = UploadPart {
        filename: None,
        mime_type: None,
        data: b"second part".to_vec(),
    };
    let err = store
        .upload_with_ids(
            &"c1".to_string(),
            vec![part("ok.txt", None, first), unnamed],
            &vec!["f1".to_string(), "f2".to_string()],
            5,
        )
        .unwrap_err();
    assert!(matches!(err.error_type, ErrorType::Validation(_)));
    // The first part stays applied: a failed request does not roll back.
    assert_eq!(store.catalog.rows.len(), 1);
    assert_eq!(store.catalog.rows[0].id, "f1");
    let space = store.get_space(&"c1".to_string()).unwrap();
    assert_eq!(space.total_size_used_bytes, first.len() as u64);
}

#[test]
fn duplicate_record_id_fails_database() {
    let mut store = Store::new();
    make_space(&mut store, "c1", 1);
    let err = store
        .upload_with_ids(
            &"c1".to_string(),
            vec![part("a.txt", None, b"aaa"), part("b.txt", None, b"bbb")],
            &vec!["same".to_string(), "same".to_string()],
            5,
        )
        .unwrap_err();
    assert!(matches!(err.error_type, ErrorType::Database(_)));
    assert_eq!(store.catalog.rows.len(), 1);
}

#[test]
fn generated_ids_are_uuid_shaped_and_unique() {
    let mut store = Store::new();
    make_space(&mut store, "c1", 1);
    let recs = store
        .upload(
            &"c1".to_string(),
            vec![part("a.txt", None, b"aaa"), part("b.txt", None, b"bbb")],
            9,
        )
        .expect("upload should succeed");
    assert_eq!(recs.len(), 2);
    assert_eq!(recs[0].id.len(), 36);
    assert_eq!(recs[1].id.len(), 36);
    assert_ne!(recs[0].id, recs[1].id);
}

#[test]
fn multi_part_upload_orders_records() {
    let mut store = Store::new();
    make_space(&mut store, "c1", 1);
    let recs = store
        .upload_with_ids(
            &"c1".to_string(),
            vec![
                part("one.txt", None, b"1"),
                part("two.txt", None, b"22"),
                part("three.txt", None, b"333"),
            ],
            &vec!["f1".to_string(), "f2".to_string(), "f3".to_string()],
            7,
        )
        .unwrap();
    assert_eq!(recs.len(), 3);
    assert_eq!(recs[0].original_filename, "one.txt");
    assert_eq!(recs[1].original_filename, "two.txt");
    assert_eq!(recs[2].original_filename, "three.txt");
    let listed = store.list_files(&"c1".to_string());
    assert_eq!(listed.len(), 3);
    assert_eq!(listed[0].id, "f1");
    assert_eq!(listed[1].id, "f2");
    assert_eq!(listed[2].id, "f3");
    let space = store.get_space(&"c1".to_string()).unwrap();
    assert_eq!(space.total_size_used_bytes, 6);
}

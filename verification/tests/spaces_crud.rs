use spaces_store::errors::ErrorType;
use spaces_store::files::UploadPart;
use spaces_store::spaces::{CreateSpaceRequest, QuotaOutcome, UpdateSpaceRequest};
use spaces_store::store::Store;

fn create_req(name: &str) -> CreateSpaceRequest {
    CreateSpaceRequest {
        name: name.to_string(),
        description: Some("a place for files".to_string()),
        is_public: Some(false),
        access_code: Some("1234".to_string()),
    }
}

#[test]
fn created_space_starts_empty() {
    let mut store = Store::new();
    let s = store
        .create_space_with_id(create_req("docs"), "c1".to_string(), 42)
        .unwrap();
    assert_eq!(s.id, "c1");
    assert_eq!(s.name, "docs");
    assert_eq!(s.description.as_deref(), Some("a place for files"));
    assert_eq!(s.created_at, 42);
    assert_eq!(s.updated_at, 42);
    assert!(!s.is_public);
    assert_eq!(s.total_size_used_bytes, 0);
}

#[test]
fn missing_visibility_defaults_to_private() {
    let mut store = Store::new();
    let req = CreateSpaceRequest {
        name: "quiet".to_string(),
        description: None,
        is_public: None,
        access_code: None,
    };
    let s = store.create_space_with_id(req, "c1".to_string(), 1).unwrap();
    assert!(!s.is_public);
}

#[test]
fn generated_space_id_is_uuid_shaped() {
    let mut store = Store::new();
    let s = store.create_space(create_req("docs"), 1).unwrap();
    assert_eq!(s.id.len(), 36);
    assert!(store.get_space(&s.id).is_some());
}

#[test]
fn duplicate_space_id_is_refused() {
    let mut store = Store::new();
    store
        .create_space_with_id(create_req("one"), "c1".to_string(), 1)
        .unwrap();
    let err = store
        .create_space_with_id(create_req("two"), "c1".to_string(), 2)
        .unwrap_err();
    assert!(matches!(err.error_type, ErrorType::Database(_)));
    assert_eq!(store.spaces.rows.len(), 1);
}

#[test]
fn list_returns_spaces_newest_first() {
    let mut store = Store::new();
    store
        .create_space_with_id(create_req("oldest"), "c1".to_string(), 1)
        .unwrap();
    store
        .create_space_with_id(create_req("newest"), "c3".to_string(), 9)
        .unwrap();
    store
        .create_space_with_id(create_req("middle"), "c2".to_string(), 5)
        .unwrap();
    let all = store.list_spaces();
    assert_eq!(all.len(), 3);
    assert_eq!(all[0].id, "c3");
    assert_eq!(all[1].id, "c2");
    assert_eq!(all[2].id, "c1");
}

#[test]
fn list_keeps_every_space_once_under_equal_creation_times() {
    let mut store = Store::new();
    store
        .create_space_with_id(create_req("twin a"), "c1".to_string(), 4)
        .unwrap();
    store
        .create_space_with_id(create_req("twin b"), "c2".to_string(), 4)
        .unwrap();
    let all = store.list_spaces();
    assert_eq!(all.len(), 2);
    let mut ids: Vec<&str> = all.iter().map(|s| s.id.as_str()).collect();
    ids.sort();
    assert_eq!(ids, vec!["c1", "c2"]);
}

#[test]
fn update_replaces_name_and_keeps_unsupplied_fields() {
    let mut store = Store::new();
    store
        .create_space_with_id(create_req("before"), "c1".to_string(), 7)
        .unwrap();
    let req = UpdateSpaceRequest {
        name: "after".to_string(),
        description: None,
        is_public: Some(true),
        access_code: None,
    };
    let s = store.update_space(&"c1".to_string(), req).unwrap();
    assert_eq!(s.name, "after");
    assert_eq!(s.description.as_deref(), Some("a place for files"));
    assert!(s.is_public);
    assert_eq!(s.access_code.as_deref(), Some("1234"));
    assert_eq!(s.created_at, 7);
    assert_eq!(s.updated_at, 7);
}

#[test]
fn update_of_missing_space_is_not_found() {
    let mut store = Store::new();
    let req = UpdateSpaceRequest {
        name: "x".to_string(),
        description: None,
        is_public: None,
        access_code: None,
    };
    let err = store.update_space(&"nowhere".to_string(), req).unwrap_err();
    assert!(matches!(err.error_type, ErrorType::NotFound(_)));
}

#[test]
fn delete_returns_removed_space_or_none() {
    let mut store = Store::new();
    store
        .create_space_with_id(create_req("gone"), "c1".to_string(), 1)
        .unwrap();
    let removed = store.delete_space(&"c1".to_string()).unwrap();
    assert_eq!(removed.unwrap().name, "gone");
    assert!(store.get_space(&"c1".to_string()).is_none());
    let nothing = store.delete_space(&"c1".to_string()).unwrap();
    assert!(nothing.is_none());
}

#[test]
fn space_with_files_cannot_be_deleted() {
    let mut store = Store::new();
    store
        .create_space_with_id(create_req("busy"), "c1".to_string(), 1)
        .unwrap();
    let p = UploadPart {
        filename: Some("a.txt".to_string()),
        mime_type: None,
        data: b"abc".to_vec(),
    };
    store
        .upload_with_ids(&"c1".to_string(), vec![p], &vec!["f1".to_string()], 2)
        .unwrap();
    let err = store.delete_space(&"c1".to_string()).unwrap_err();
    assert!(matches!(err.error_type, ErrorType::Database(_)));
    // Once its file is gone the space can leave too.
    store.delete_file(&"f1".to_string()).unwrap();
    assert!(store.delete_space(&"c1".to_string()).unwrap().is_some());
}

#[test]
fn usage_tracks_live_files_through_uploads_and_deletes() {
    let mut store = Store::new();
    store
        .create_space_with_id(create_req("ledger"), "c1".to_string(), 1)
        .unwrap();
    let mk = |name: &str, data: &[u8]| UploadPart {
        filename: Some(name.to_string()),
        mime_type: None,
        data: data.to_vec(),
    };
    store
        .upload_with_ids(
            &"c1".to_string(),
            vec![mk("a", b"aaaa"), mk("b", b"bb")],
            &vec!["f1".to_string(), "f2".to_string()],
            2,
        )
        .unwrap();
    assert_eq!(
        store.get_space(&"c1".to_string()).unwrap().total_size_used_bytes,
        6
    );
    store
        .upload_with_ids(&"c1".to_string(), vec![mk("c", b"ccc")], &vec!["f3".to_string()], 3)
        .unwrap();
    assert_eq!(
        store.get_space(&"c1".to_string()).unwrap().total_size_used_bytes,
        9
    );
    store.delete_file(&"f1".to_string()).unwrap();
    assert_eq!(
        store.get_space(&"c1".to_string()).unwrap().total_size_used_bytes,
        5
    );
    store.delete_file(&"f3".to_string()).unwrap();
    store.delete_file(&"f2".to_string()).unwrap();
    assert_eq!(
        store.get_space(&"c1".to_string()).unwrap().total_size_used_bytes,
        0
    );
}

#[test]
fn usage_decrease_clamps_at_zero() {
    let mut store = Store::new();
    store
        .create_space_with_id(create_req("clamped"), "c1".to_string(), 1)
        .unwrap();
    // Drift tolerance: lowering an empty counter leaves it at zero rather
    // than wrapping below it.
    store.spaces.decrease(&"c1".to_string(), 1_000_000);
    assert_eq!(
        store.get_space(&"c1".to_string()).unwrap().total_size_used_bytes,
        0
    );
}

#[test]
fn usage_increase_refuses_a_sum_the_counter_cannot_hold() {
    let mut store = Store::new();
    store
        .create_space_with_id(create_req("full"), "c1".to_string(), 1)
        .unwrap();
    let big = store.spaces.increase(&"c1".to_string(), u64::MAX);
    assert!(matches!(big, QuotaOutcome::Applied));
    let over = store.spaces.increase(&"c1".to_string(), 1);
    assert!(matches!(over, QuotaOutcome::Overflow));
    assert_eq!(
        store.get_space(&"c1".to_string()).unwrap().total_size_used_bytes,
        u64::MAX
    );
    let missing = store.spaces.increase(&"ghost".to_string(), 1);
    assert!(matches!(missing, QuotaOutcome::Missing));
}

#[test]
fn listing_files_is_scoped_to_the_space() {
    let mut store = Store::new();
    store
        .create_space_with_id(create_req("one"), "c1".to_string(), 1)
        .unwrap();
    store
        .create_space_with_id(create_req("two"), "c2".to_string(), 1)
        .unwrap();
    let mk = |name: &str| UploadPart {
        filename: Some(name.to_string()),
        mime_type: None,
        data: b"data".to_vec(),
    };
    store
        .upload_with_ids(&"c1".to_string(), vec![mk("a")], &vec!["f1".to_string()], 2)
        .unwrap();
    store
        .upload_with_ids(&"c2".to_string(), vec![mk("b")], &vec!["f2".to_string()], 3)
        .unwrap();
    let c1_files = store.list_files(&"c1".to_string());
    assert_eq!(c1_files.len(), 1);
    assert_eq!(c1_files[0].id, "f1");
    let none = store.list_files(&"c3".to_string());
    assert!(none.is_empty());
}

use opensovd::bulkdata::{
    include_metadata, validate_segment, BulkDataError, BulkDataMetadata, CategoryFilter,
    InMemoryBulkDataProvider, UtcTime,
};

fn filter() -> CategoryFilter {
    CategoryFilter { created_before: None, created_after: None, tags: None }
}

#[test]
fn download_gives_back_what_was_uploaded() {
    let mut p = InMemoryBulkDataProvider::new();
    p.upload("logs", "a.txt", 3, vec![1, 2, 3], None).unwrap();
    let got = p.download("logs", "a.txt").unwrap();
    assert_eq!(got.data, vec![1, 2, 3]);
    assert!(got.signature.is_none());
    p.upload("logs", "a.txt", 1, vec![9], None).unwrap();
    assert_eq!(p.download("logs", "a.txt").unwrap().data, vec![9]);
}

#[test]
fn missing_items_are_not_found() {
    let p = InMemoryBulkDataProvider::new();
    match p.download("logs", "x") {
        Err(BulkDataError::NotFound(m)) => assert_eq!(m, "not found: logs/x"),
        other => panic!("unexpected {:?}", other.map(|b| b.data)),
    }
}

#[test]
fn categories_and_items_are_listed_in_order() {
    let mut p = InMemoryBulkDataProvider::new();
    p.upload("zeta", "b", 0, vec![1, 2], None).unwrap();
    p.upload("alpha", "z", 0, vec![], None).unwrap();
    p.upload("zeta", "a", 0, vec![7], None).unwrap();
    let cats: Vec<String> = p.categories().unwrap().into_iter().map(|c| c.category).collect();
    assert_eq!(cats, vec!["alpha", "zeta"]);
    let items = p.list("zeta", filter()).unwrap();
    let ids: Vec<&str> = items.iter().map(|m| m.id.as_str()).collect();
    assert_eq!(ids, vec!["a", "b"]);
    assert_eq!(items[1].size, Some(2));
    assert_eq!(items[1].mimetype, "application/octet-stream");
    assert_eq!(items[1].name.as_deref(), Some("b"));
    assert!(p.list("missing", filter()).unwrap().is_empty());
    let tagged = CategoryFilter { created_before: None, created_after: None, tags: Some(vec!["x".into()]) };
    assert!(p.list("zeta", tagged).unwrap().is_empty());
    let untagged = CategoryFilter { created_before: None, created_after: None, tags: Some(vec![]) };
    assert_eq!(p.list("zeta", untagged).unwrap().len(), 2);
}

#[test]
fn permanent_entries_cannot_be_deleted() {
    let mut p = InMemoryBulkDataProvider::new().with_permanent_entry("cfg", "base");
    assert!(p.is_permanent("cfg", "base"));
    assert!(!p.is_permanent("cfg", "other"));
    assert_eq!(p.download("cfg", "base").unwrap().data, Vec::<u8>::new());
    match p.delete("cfg", "base") {
        Err(BulkDataError::DeletionFailed(m)) => assert_eq!(m, "entry is protected: cfg/base"),
        other => panic!("unexpected {:?}", other),
    }
    assert!(p.download("cfg", "base").is_ok());
}

#[test]
fn delete_removes_one_item_and_keeps_the_category() {
    let mut p = InMemoryBulkDataProvider::new();
    p.upload("logs", "a", 0, vec![1], None).unwrap();
    p.delete("logs", "a").unwrap();
    assert!(p.download("logs", "a").is_err());
    let cats: Vec<String> = p.categories().unwrap().into_iter().map(|c| c.category).collect();
    assert_eq!(cats, vec!["logs"]);
    match p.delete("logs", "a") {
        Err(BulkDataError::NotFound(m)) => assert_eq!(m, "not found: logs/a"),
        other => panic!("unexpected {:?}", other),
    }
}

#[test]
fn delete_category_keeps_protected_items() {
    let mut p = InMemoryBulkDataProvider::new().with_permanent_entry("cfg", "keep");
    p.upload("cfg", "drop", 0, vec![1], None).unwrap();
    p.upload("cfg", "also", 0, vec![2], None).unwrap();
    let items = p.delete_category("cfg").unwrap();
    let ids: Vec<&str> = items.iter().map(|i| i.id.as_str()).collect();
    assert_eq!(ids, vec!["also", "drop", "keep"]);
    assert!(items[0].error.is_none());
    assert!(items[1].error.is_none());
    match &items[2].error {
        Some(BulkDataError::DeletionFailed(m)) => assert_eq!(m, "entry is protected: cfg/keep"),
        other => panic!("unexpected {:?}", other),
    }
    assert!(p.download("cfg", "keep").is_ok());
    assert!(p.download("cfg", "drop").is_err());
}

#[test]
fn delete_category_removes_an_emptied_category() {
    let mut p = InMemoryBulkDataProvider::new();
    p.upload("tmp", "x", 0, vec![], None).unwrap();
    p.upload("keep", "y", 0, vec![], None).unwrap();
    assert_eq!(p.delete_category("tmp").unwrap().len(), 1);
    let cats: Vec<String> = p.categories().unwrap().into_iter().map(|c| c.category).collect();
    assert_eq!(cats, vec!["keep"]);
    match p.delete_category("tmp") {
        Err(BulkDataError::NotFound(m)) => assert_eq!(m, "not found: tmp"),
        other => panic!("unexpected {:?}", other.map(|v| v.len())),
    }
}

#[test]
fn error_messages() {
    assert_eq!(BulkDataError::InvalidRequest("x".into()).message(), "invalid request: x");
    assert_eq!(BulkDataError::DeletionFailed("x".into()).message(), "bulk data deletion failed: x");
    assert_eq!(BulkDataError::Internal("x".into()).message(), "x");
    assert_eq!(BulkDataError::NotFound("x".into()).message(), "bulk data not found: x");
}

#[test]
fn path_segments_are_validated() {
    assert!(validate_segment("category", "logs").is_ok());
    for bad in ["", ".", "..", "a/b", "a\\b"] {
        match validate_segment("data id", bad) {
            Err(BulkDataError::InvalidRequest(m)) => assert_eq!(m, format!("invalid data id: {bad}")),
            other => panic!("unexpected {:?}", other),
        }
    }
    assert!(validate_segment("category", "...").is_ok());
}

#[test]
fn listing_filters_by_creation_date() {
    let t = |s: i64| UtcTime { seconds: s, nanos: 0 };
    let md = BulkDataMetadata {
        id: "a".into(),
        mimetype: "application/octet-stream".into(),
        name: None,
        translation_id: None,
        size: None,
        creation_date: Some(t(100)),
        last_modified: None,
        hash: None,
        hash_algorithm: None,
        tags: None,
    };
    let f = |b: Option<UtcTime>, a: Option<UtcTime>| CategoryFilter { created_before: b, created_after: a, tags: None };
    assert!(include_metadata(&md, &f(None, None)));
    assert!(include_metadata(&md, &f(Some(t(101)), Some(t(99)))));
    assert!(!include_metadata(&md, &f(Some(t(100)), None)));
    assert!(!include_metadata(&md, &f(None, Some(t(100)))));
    let tagged = CategoryFilter { created_before: None, created_after: None, tags: Some(vec!["x".into()]) };
    assert!(!include_metadata(&md, &tagged));
    let unknown = BulkDataMetadata { creation_date: None, ..md };
    assert!(include_metadata(&unknown, &f(Some(t(0)), Some(t(1000)))));
}

use std::collections::HashMap;

use opensovd::models::{
    BulkDataDescriptorsQuery, ErrorCode, GenericError, JsonPointer, PathSegment, SupportedTags,
    UriReference,
};

#[test]
fn uri_reference_from_string() {
    let uri: UriReference = String::from("https://example.com/api/v1").into();
    assert_eq!(uri.0, "https://example.com/api/v1");
}

#[test]
fn json_pointer_from_string() {
    let s = String::from("/data/0");
    let ptr: JsonPointer = s.into();
    assert_eq!(ptr.0, "/data/0");
}

#[test]
fn supported_tags_from_vec() {
    let tags: SupportedTags = vec!["OBD".to_string()].into();
    assert_eq!(tags.0, vec!["OBD".to_string()]);
}

fn field(k: &str) -> PathSegment {
    PathSegment::Field { key: k.to_string() }
}

#[test]
fn json_pointer_walks_the_failed_path() {
    let p = JsonPointer::from_segments(
        &vec![field("data"), PathSegment::Index { index: 0 }, field("level")],
        "invalid type: string \"x\", expected u8 at line 1 column 22",
    );
    assert_eq!(p.0, "/data/0/level");
    let p = JsonPointer::from_segments(
        &vec![field("data"), PathSegment::Index { index: 0 }],
        "missing field `level` at line 1 column 13",
    );
    assert_eq!(p.0, "/data/0/level");
    let p = JsonPointer::from_segments(&vec![], "missing field `data` at line 1 column 2");
    assert_eq!(p.0, "/data");
    let p = JsonPointer::from_segments(&vec![field("a/b~c")], "invalid type");
    assert_eq!(p.0, "/a~1b~0c");
    let p = JsonPointer::from_segments(
        &vec![field("mode"), PathSegment::Variant { variant: "Manual".to_string() }, field("level")],
        "invalid type",
    );
    assert_eq!(p.0, "/mode/Manual/level");
    let p = JsonPointer::from_segments(&vec![PathSegment::Unknown], "invalid type: sequence");
    assert_eq!(p.0, "");
    let p = JsonPointer::from_segments(&vec![], "missing field `open");
    assert_eq!(p.0, "/open");
}

#[test]
fn bulk_data_descriptors_query_all_defaults() {
    let q = BulkDataDescriptorsQuery::default();
    assert!(!q.include_schema);
    assert!(q.created_before.is_none());
    assert!(q.created_after.is_none());
    assert!(q.tags.is_none());
}

#[test]
fn generic_errors_carry_their_codes() {
    let e = GenericError::new(ErrorCode::IncompleteRequest, "Bad request".to_string());
    assert_eq!(e.error_code.as_str(), "incomplete-request");
    assert!(e.vendor_code.is_none());
    let v = GenericError::with_vendor_code("read-only", "m".to_string());
    assert_eq!(v.error_code.as_str(), "vendor-specific");
    assert_eq!(v.vendor_code.as_deref(), Some("read-only"));
    assert_eq!(ErrorCode::ErrorResponse.as_str(), "error-response");
}

/// The pointer of a deserialization failure, as the server reads it from
/// `serde_path_to_error`.
fn pointer_of<T: serde::de::DeserializeOwned>(text: &str) -> String {
    let mut de = serde_json::Deserializer::from_str(text);
    let error = serde_path_to_error::deserialize::<_, T>(&mut de).err().unwrap();
    let segments: Vec<PathSegment> = error
        .path()
        .iter()
        .map(|s| match s {
            serde_path_to_error::Segment::Seq { index } => PathSegment::Index { index: *index },
            serde_path_to_error::Segment::Map { key } => PathSegment::Field { key: key.clone() },
            serde_path_to_error::Segment::Enum { variant } => PathSegment::Variant { variant: variant.clone() },
            serde_path_to_error::Segment::Unknown => PathSegment::Unknown,
        })
        .collect();
    JsonPointer::from_segments(&segments, &error.inner().to_string()).0
}

#[test]
fn json_pointer_from_path_error() {
    type Outer = HashMap<String, Vec<HashMap<String, u8>>>;
    assert_eq!(pointer_of::<Outer>(r#"{"data": [{"level": "x"}]}"#), "/data/0/level");
    assert_eq!(pointer_of::<HashMap<String, u8>>(r#"{"a/b~c": "x"}"#), "/a~1b~0c");
    assert_eq!(pointer_of::<Outer>("[]"), "");
}

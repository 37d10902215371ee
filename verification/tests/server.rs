use opensovd::bulkdata::{BulkDataError, BulkDataMetadata, CategoryInfo, UtcTime};
use opensovd::models::{BulkDataDescriptorsQuery, ErrorCode, ErrorDetails};
use opensovd::server::{
    attachment_disposition, base_uri, category_filter, category_items, check_upload_size,
    descriptor_items, entity_collection, field_kind, field_upload_length, multipart_step,
    signature_part, upload_filename, upload_location, versioned_uri, BaseUri, BodyRejection,
    ContentDisposition, DataError, EntityCollection, FieldKind, MultipartAction, MultipartEvent,
    RouteError, TopologyError, MAX_BULKDATA_BODY_BYTES,
};

fn generic(d: &ErrorDetails) -> (ErrorCode, Option<String>, String) {
    match d {
        ErrorDetails::Generic(g) => (g.error_code, g.vendor_code.clone(), g.message.clone()),
        ErrorDetails::Data(_) => panic!("expected a generic error"),
    }
}

fn data(d: &ErrorDetails) -> (String, ErrorCode, String) {
    match d {
        ErrorDetails::Data(dd) => {
            let g = dd.error.as_ref().unwrap();
            (dd.path.0.clone(), g.error_code, g.message.clone())
        }
        ErrorDetails::Generic(_) => panic!("expected a data error"),
    }
}

#[test]
fn test_error_entity_not_found() {
    let r = RouteError::EntityNotFound("test-component".into()).reply();
    assert_eq!(r.status, 404);
    let (_, vendor, message) = generic(&r.details);
    assert_eq!(vendor.as_deref(), Some("entity-not-found"));
    assert!(message.contains("test-component"));
}

#[test]
fn test_error_provider_not_available() {
    let r = RouteError::ProviderNotAvailable("data".into()).reply();
    assert_eq!(r.status, 404);
    assert_eq!(generic(&r.details).1.as_deref(), Some("provider-not-available"));
}

#[test]
fn test_error_data_not_found() {
    assert_eq!(RouteError::Data(DataError::NotFound("voltage".into())).reply().status, 404);
}

#[test]
fn test_error_data_read_only() {
    let r = RouteError::Data(DataError::ReadOnly).reply();
    assert_eq!(r.status, 405);
    assert_eq!(r.allow.as_deref(), Some("GET"));
    let (code, vendor, _) = generic(&r.details);
    assert_eq!(code.as_str(), "vendor-specific");
    assert_eq!(vendor.as_deref(), Some("read-only"));
}

#[test]
fn test_error_data_invalid_value() {
    let r = RouteError::Data(DataError::InvalidValue { path: "/level".into(), message: "expected u8".into() }).reply();
    assert_eq!(r.status, 400);
    let (path, code, message) = data(&r.details);
    assert_eq!(path, "/data/level");
    assert_eq!(code.as_str(), "incomplete-request");
    assert_eq!(message, "expected u8");
}

#[test]
fn test_error_data_internal() {
    let r = RouteError::Data(DataError::Internal("lock poisoned".into())).reply();
    assert_eq!(r.status, 500);
    let (_, _, message) = generic(&r.details);
    assert_eq!(message, "An internal error occurred");
    assert!(!message.contains("lock poisoned"));
}

#[test]
fn test_error_topology_not_found() {
    let r = RouteError::Topology(TopologyError::NotFound("area-1".into())).reply();
    assert_eq!(r.status, 404);
    assert!(generic(&r.details).2.contains("area-1"));
}

#[test]
fn bad_query_and_headers_are_bad_requests() {
    let r = RouteError::BadQuery.reply();
    assert_eq!(r.status, 400);
    assert_eq!(generic(&r.details), (ErrorCode::IncompleteRequest, None, "Bad request".to_string()));
    let r = RouteError::InvalidHeader.reply();
    assert_eq!(generic(&r.details).2, "Bad request headers");
}

#[test]
fn bad_bodies_point_at_their_element() {
    let r = RouteError::BadBody(BodyRejection::JsonData { path: "/data".into(), body_text: "missing".into() }).reply();
    assert_eq!(r.status, 400);
    assert_eq!(data(&r.details).0, "/data");
    let r = RouteError::BadBody(BodyRejection::JsonSyntax { body_text: "eof".into() }).reply();
    assert_eq!(data(&r.details).0, "");
    let r = RouteError::BadBody(BodyRejection::Other { status: 415, body_text: "no type".into() }).reply();
    assert_eq!(r.status, 415);
    assert_eq!(generic(&r.details).0.as_str(), "incomplete-request");
}

#[test]
fn bulk_data_errors_map_to_statuses() {
    let cases = [
        (BulkDataError::Internal("secret".into()), 500, "An internal error occurred"),
        (BulkDataError::DeletionFailed("x".into()), 409, "bulk data deletion failed: x"),
        (BulkDataError::InvalidRequest("x".into()), 400, "invalid request: x"),
        (BulkDataError::NotFound("x".into()), 404, "bulk data not found: x"),
    ];
    for (e, status, message) in cases {
        let r = RouteError::BulkData(e).reply();
        assert_eq!(r.status, status);
        assert_eq!(generic(&r.details).2, message);
    }
}

#[test]
fn content_disposition_is_parsed() {
    let cd = ContentDisposition::decode(Some(b"form-data; name=\"file\"; filename=\"report.bin\"")).unwrap();
    assert_eq!(cd.disposition_type, "form-data");
    assert_eq!(cd.filename.as_deref(), Some("report.bin"));
    assert_eq!(cd.name.as_deref(), Some("file"));
    let cd = ContentDisposition::decode(Some(b" attachment ;filename=a;filename=\"b\" ")).unwrap();
    assert_eq!(cd.disposition_type, "attachment");
    assert_eq!(cd.filename.as_deref(), Some("b"));
    assert!(cd.name.is_none());
    assert!(ContentDisposition::decode(None).is_err());
    assert!(ContentDisposition::decode(Some(b"attachment; filename=\x01")).is_err());
}

#[test]
fn uploads_are_named_and_located() {
    let cd = ContentDisposition::decode(Some(b"attachment; name=n")).unwrap();
    assert_eq!(upload_filename(&cd), "n");
    let cd = ContentDisposition::decode(Some(b"attachment")).unwrap();
    assert_eq!(upload_filename(&cd).len(), 36);
    assert_eq!(
        upload_location("http://h/sovd", "apps", "a1", "logs", "f.bin"),
        "http://h/sovd/apps/a1/bulk-data/logs/f.bin"
    );
    assert_eq!(attachment_disposition("x.bin"), "attachment; filename=\"x.bin\"");
}

#[test]
fn uploads_over_the_limit_are_refused() {
    assert!(check_upload_size(MAX_BULKDATA_BODY_BYTES).is_ok());
    match check_upload_size(MAX_BULKDATA_BODY_BYTES + 1) {
        Err(BulkDataError::InvalidRequest(m)) => {
            assert_eq!(m, "Content-Length exceeds maximum allowed size of 1073741824 bytes")
        }
        other => panic!("unexpected {:?}", other),
    }
}

#[test]
fn multipart_parts_are_read_by_type() {
    assert_eq!(field_kind(Some("application/json")), FieldKind::Signature);
    assert_eq!(field_kind(Some("application/octet-stream")), FieldKind::Content);
    assert_eq!(field_kind(Some("text/plain")), FieldKind::Unexpected);
    assert_eq!(field_kind(None), FieldKind::Unexpected);
    assert_eq!(field_upload_length(Some(b"42"), 7), 42);
    assert_eq!(field_upload_length(Some(b"+42"), 7), 42);
    assert_eq!(field_upload_length(Some(b"-1"), 7), 7);
    assert_eq!(field_upload_length(Some(b"18446744073709551616"), 7), 7);
    assert_eq!(field_upload_length(None, 7), 7);
    assert_eq!(signature_part(r#"{"signature": "abc"}"#).unwrap().as_deref(), Some("abc"));
    assert_eq!(signature_part(r#"{"signature": 5}"#).unwrap(), None);
    assert!(matches!(signature_part("{"), Err(BulkDataError::InvalidRequest(_))));
}

#[test]
fn base_uri_uses_the_host_header() {
    let b = BaseUri { scheme: "https".into(), path: "/sovd".into() };
    assert_eq!(base_uri(Some(&b), Some(b"gw:7690")), "https://gw:7690/sovd");
    assert_eq!(base_uri(None, None), "http://localhost");
    assert_eq!(base_uri(None, Some(b"\x7f")), "http://localhost");
    assert_eq!(versioned_uri(Some(&b), Some(b"gw")), "https://gw/sovd/v1");
    let d = BaseUri::default();
    assert_eq!(d.scheme, "http");
    assert_eq!(d.path, "");
}

#[test]
fn only_components_and_apps_hold_bulk_data() {
    assert_eq!(entity_collection("components").unwrap(), EntityCollection::Components);
    assert_eq!(entity_collection("apps").unwrap(), EntityCollection::Apps);
    match entity_collection("areas") {
        Err(RouteError::EntityNotFound(c)) => assert_eq!(c, "areas"),
        _ => panic!("expected an unknown entity"),
    }
}

#[test]
fn test_error_from_data_error() {
    let error: RouteError = DataError::NotFound("voltage".into()).into();
    assert_eq!(error.reply().status, 404);
}

#[test]
fn other_errors_convert_into_their_variants() {
    let e: RouteError = BulkDataError::DeletionFailed("locked".into()).into();
    assert_eq!(e.reply().status, 409);
    let e: RouteError = TopologyError::NotFound("area-1".into()).into();
    assert_eq!(e.reply().status, 404);
    let e: RouteError = BodyRejection::JsonSyntax { body_text: "eof".into() }.into();
    assert_eq!(e.reply().status, 400);
}

#[test]
fn multipart_uploads_carry_the_signature_read_before_the_content() {
    let (sig, a) = multipart_step(None, MultipartEvent::Json(r#"{"signature": "c2ln"}"#.into()), 100);
    assert_eq!(sig.as_deref(), Some("c2ln"));
    assert!(matches!(a, MultipartAction::Next));
    let (sig, a) = multipart_step(sig, MultipartEvent::Json(r#"{"other": 1}"#.into()), 100);
    assert_eq!(sig.as_deref(), Some("c2ln"));
    assert!(matches!(a, MultipartAction::Next));
    let (_, a) = multipart_step(sig.clone(), MultipartEvent::Content(Some(b"42".to_vec())), 100);
    match a {
        MultipartAction::Upload { length, signature } => {
            assert_eq!(length, 42);
            assert_eq!(signature.as_deref(), Some("c2ln"));
        }
        other => panic!("unexpected {other:?}"),
    }
    let (_, a) = multipart_step(None, MultipartEvent::Content(None), 100);
    match a {
        MultipartAction::Upload { length, signature } => {
            assert_eq!(length, 100);
            assert!(signature.is_none());
        }
        other => panic!("unexpected {other:?}"),
    }
}

#[test]
fn multipart_uploads_refuse_bad_parts() {
    let (_, a) = multipart_step(None, MultipartEvent::Json("{".into()), 100);
    assert!(matches!(a, MultipartAction::Fail(BulkDataError::InvalidRequest(_))));
    let (_, a) = multipart_step(None, MultipartEvent::Other, 100);
    match a {
        MultipartAction::Fail(BulkDataError::InvalidRequest(m)) => assert_eq!(m, "unexpected content type"),
        other => panic!("unexpected {other:?}"),
    }
    let (_, a) = multipart_step(None, MultipartEvent::End, 100);
    match a {
        MultipartAction::Fail(BulkDataError::InvalidRequest(m)) => assert_eq!(m, "no file content received"),
        other => panic!("unexpected {other:?}"),
    }
}

#[test]
fn descriptors_copy_what_the_provider_tells() {
    let full = BulkDataMetadata {
        id: "file2".into(),
        mimetype: "image/png".into(),
        name: Some("picture.png".into()),
        translation_id: Some("t.id.1".into()),
        size: Some(1024),
        creation_date: Some(UtcTime { seconds: 1_767_225_600, nanos: 0 }),
        last_modified: None,
        hash: Some("abc".into()),
        hash_algorithm: Some("sha256".into()),
        tags: Some(vec!["a".into(), "b".into()]),
    };
    let minimal = BulkDataMetadata {
        id: "file1".into(),
        mimetype: "application/octet-stream".into(),
        name: None,
        translation_id: None,
        size: None,
        creation_date: None,
        last_modified: None,
        hash: None,
        hash_algorithm: None,
        tags: None,
    };
    let r = descriptor_items(&vec![full, minimal]);
    assert_eq!(r.items.len(), 2);
    let d = &r.items[0];
    assert_eq!(d.id, "file2");
    assert_eq!(d.mimetype, "image/png");
    assert_eq!(d.name.as_deref(), Some("picture.png"));
    assert_eq!(d.translation_id.as_deref(), Some("t.id.1"));
    assert_eq!(d.size, Some(1024));
    assert_eq!(d.creation_date, Some(UtcTime { seconds: 1_767_225_600, nanos: 0 }));
    assert_eq!(d.hash.as_deref(), Some("abc"));
    assert_eq!(d.hash_algorithm.as_deref(), Some("sha256"));
    assert_eq!(d.tags.as_ref().map(|t| t.0.clone()), Some(vec!["a".to_string(), "b".to_string()]));
    let d = &r.items[1];
    assert_eq!(d.id, "file1");
    assert!(d.name.is_none() && d.size.is_none() && d.tags.is_none());
}

#[test]
fn listing_queries_become_category_filters() {
    let q = BulkDataDescriptorsQuery {
        include_schema: true,
        created_before: Some(UtcTime { seconds: 100, nanos: 0 }),
        created_after: None,
        tags: Some(vec!["x".into(), "y".into()]),
    };
    let f = category_filter(&q);
    assert_eq!(f.created_before, Some(UtcTime { seconds: 100, nanos: 0 }));
    assert_eq!(f.created_after, None);
    assert_eq!(f.tags, Some(vec!["x".to_string(), "y".to_string()]));
    let f = category_filter(&BulkDataDescriptorsQuery::default());
    assert!(f.created_before.is_none() && f.created_after.is_none() && f.tags.is_none());
}

#[test]
fn categories_are_listed_by_name() {
    let cats = vec![
        CategoryInfo { category: "logs".into(), translation_id: None },
        CategoryInfo { category: "maps".into(), translation_id: Some("t".into()) },
    ];
    let r = category_items(&cats);
    let names: Vec<&str> = r.items.iter().map(|c| c.0.as_str()).collect();
    assert_eq!(names, vec!["logs", "maps"]);
    assert!(category_items(&Vec::new()).items.is_empty());
}

#[test]
fn unnamed_uploads_get_a_random_uuid() {
    let cd = ContentDisposition::decode(Some(b"attachment")).unwrap();
    let a = upload_filename(&cd);
    let b = upload_filename(&cd);
    for id in [&a, &b] {
        let c: Vec<char> = id.chars().collect();
        assert_eq!(c.len(), 36);
        for (i, ch) in c.iter().enumerate() {
            if [8, 13, 18, 23].contains(&i) {
                assert_eq!(*ch, '-');
            } else {
                assert!(ch.is_ascii_digit() || ('a'..='f').contains(ch));
            }
        }
        assert_eq!(c[14], '4');
        assert!(['8', '9', 'a', 'b'].contains(&c[19]));
    }
    assert_ne!(a, b);
}

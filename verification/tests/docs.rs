use opensovd::docs::{
    build_openapi_doc, data_collection_docs, filter_query_parameters, hoist_schema_defs,
    list_query_parameters, rewrite_defs_refs, switch_parameter, with_property, Json, Member,
};

fn s(t: &str) -> Json {
    Json::Str(t.to_string())
}

fn obj(members: Vec<(&str, Json)>) -> Json {
    Json::Object(members.into_iter().map(|(k, v)| Member { key: k.to_string(), value: v }).collect())
}

fn get<'a>(j: &'a Json, key: &str) -> Option<&'a Json> {
    match j {
        Json::Object(m) => m.iter().find(|x| x.key == key).map(|x| &x.value),
        _ => None,
    }
}

fn at<'a>(j: &'a Json, i: usize) -> Option<&'a Json> {
    match j {
        Json::Array(v) => v.get(i),
        _ => None,
    }
}

fn text_of(j: Option<&Json>) -> Option<&str> {
    match j {
        Some(Json::Str(t)) => Some(t.as_str()),
        _ => None,
    }
}

fn collect_refs(j: &Json, out: &mut Vec<String>) {
    match j {
        Json::Object(m) => {
            for x in m {
                if x.key == "$ref" {
                    if let Json::Str(r) = &x.value {
                        out.push(r.clone());
                    }
                }
                collect_refs(&x.value, out);
            }
        }
        Json::Array(v) => v.iter().for_each(|x| collect_refs(x, out)),
        _ => {}
    }
}

fn list_schema() -> Json {
    obj(vec![
        ("$defs", obj(vec![("Metadata", obj(vec![("type", s("object")), ("properties", obj(vec![("category", obj(vec![("$ref", s("#/$defs/DataCategory"))]))]))])), ("DataCategory", obj(vec![("type", s("string"))]))])),
        ("properties", obj(vec![("items", obj(vec![("type", s("array")), ("items", obj(vec![("$ref", s("#/$defs/Metadata"))]))]))])),
        ("type", s("object")),
    ])
}

fn parameters() -> Json {
    Json::Array(filter_query_parameters())
}

fn items() -> Json {
    Json::Array(vec![obj(vec![("id", s("rpm")), ("name", s("rpm"))])])
}

#[test]
fn data_collection_documents_get_with_filters_and_example_items() {
    let doc = data_collection_docs("/components/Engine/data", items(), "http://localhost/sovd/v1", parameters(), list_schema());
    let path = get(get(&doc, "paths").unwrap(), "/components/Engine/data").unwrap();
    let getop = get(path, "get").unwrap();
    assert!(matches!(getop, Json::Object(_)));
    assert!(get(path, "put").is_none());
    let p0 = at(get(getop, "parameters").unwrap(), 0).unwrap();
    assert_eq!(text_of(get(p0, "name")), Some("groups"));
    assert!(matches!(get(p0, "explode"), Some(Json::Bool(true))));
    let responses = get(getop, "responses").unwrap();
    let example = get(get(get(get(responses, "200").unwrap(), "content").unwrap(), "application/json").unwrap(), "example").unwrap();
    assert_eq!(text_of(get(at(get(example, "items").unwrap(), 0).unwrap(), "id")), Some("rpm"));
    assert!(matches!(get(responses, "400"), Some(Json::Object(_))));
    assert!(matches!(get(responses, "500"), Some(Json::Object(_))));
    assert_eq!(text_of(get(&doc, "openapi")), Some("3.1.0"));
    assert_eq!(text_of(get(get(&doc, "info").unwrap(), "title")), Some("Data collection /components/Engine/data"));
    assert_eq!(text_of(get(at(get(&doc, "servers").unwrap(), 0).unwrap(), "url")), Some("http://localhost/sovd/v1"));
}

#[test]
fn embedded_schema_defs_are_hoisted_to_components_and_refs_resolve() {
    let doc = data_collection_docs("/components/Engine/data", items(), "http://localhost/sovd/v1", parameters(), list_schema());
    let mut refs = Vec::new();
    collect_refs(&doc, &mut refs);
    assert!(!refs.is_empty());
    assert!(refs.iter().all(|r| !r.starts_with("#/$defs/")), "{refs:?}");
    let schemas = get(get(&doc, "components").unwrap(), "schemas").unwrap();
    for r in &refs {
        if let Some(name) = r.strip_prefix("#/components/schemas/") {
            assert!(get(schemas, name).is_some(), "dangling reference {r}");
        }
    }
}

#[test]
fn first_definition_of_a_name_wins_and_defs_are_removed() {
    let mut schemas = Vec::new();
    let j = Json::Array(vec![
        obj(vec![("$defs", obj(vec![("A", s("first"))])), ("x", Json::Null)]),
        obj(vec![("$defs", obj(vec![("A", s("second")), ("B", s("b"))]))]),
        obj(vec![("$defs", s("not an object"))]),
    ]);
    let h = hoist_schema_defs(j, &mut schemas);
    let names: Vec<&str> = schemas.iter().map(|(k, _)| k.as_str()).collect();
    assert_eq!(names, vec!["A", "B"]);
    assert_eq!(text_of(Some(&schemas[0].1)), Some("first"));
    let mut refs = Vec::new();
    collect_refs(&h, &mut refs);
    match &h {
        Json::Array(v) => {
            for x in v {
                assert!(get(x, "$defs").is_none());
            }
            assert!(get(&v[0], "x").is_some());
        }
        _ => panic!("expected an array"),
    }
}

#[test]
fn only_defs_references_are_rewritten() {
    let j = obj(vec![("a", obj(vec![("$ref", s("#/$defs/X"))])), ("b", obj(vec![("$ref", s("other"))])), ("c", obj(vec![("ref", s("#/$defs/Y"))]))]);
    let r = rewrite_defs_refs(j);
    assert_eq!(text_of(get(get(&r, "a").unwrap(), "$ref")), Some("#/components/schemas/X"));
    assert_eq!(text_of(get(get(&r, "b").unwrap(), "$ref")), Some("other"));
    assert_eq!(text_of(get(get(&r, "c").unwrap(), "ref")), Some("#/$defs/Y"));
}

#[test]
fn documents_without_definitions_have_no_components() {
    let doc = build_openapi_doc("t", "/p", obj(vec![("get", obj(vec![]))]), "http://h");
    assert!(get(&doc, "components").is_none());
    assert!(get(get(&doc, "paths").unwrap(), "/p").is_some());
}

#[test]
fn properties_are_added_to_object_schemas() {
    let schema = obj(vec![("properties", obj(vec![("items", s("x"))])), ("type", s("object"))]);
    let r = with_property(schema, "schema", s("described"));
    let props = get(&r, "properties").unwrap();
    assert_eq!(text_of(get(props, "schema")), Some("described"));
    assert_eq!(text_of(get(props, "items")), Some("x"));
    let r = with_property(s("plain"), "schema", s("described"));
    assert_eq!(text_of(Some(&r)), Some("plain"));
}

#[test]
fn data_lists_filter_by_repeated_keys() {
    let ps = filter_query_parameters();
    let names: Vec<Option<&str>> = ps.iter().map(|p| text_of(get(p, "name"))).collect();
    assert_eq!(names, vec![Some("groups"), Some("categories"), Some("tags")]);
    for p in &ps {
        assert_eq!(text_of(get(p, "in")), Some("query"));
        assert_eq!(text_of(get(p, "style")), Some("form"));
        assert!(matches!(get(p, "explode"), Some(Json::Bool(true))));
        assert!(matches!(get(p, "required"), Some(Json::Bool(false))));
        let schema = get(p, "schema").unwrap();
        assert_eq!(text_of(get(schema, "type")), Some("array"));
        assert_eq!(text_of(get(get(schema, "items").unwrap(), "type")), Some("string"));
    }
    assert_eq!(
        text_of(get(&ps[0], "description")),
        Some("Filter by data group. Repeat the parameter to select multiple groups.")
    );
}

#[test]
fn data_lists_end_with_the_schema_switch() {
    let ps = list_query_parameters("with-schema", "Adds the schema.");
    assert_eq!(ps.len(), 4);
    let names: Vec<Option<&str>> = ps.iter().map(|p| text_of(get(p, "name"))).collect();
    assert_eq!(names, vec![Some("groups"), Some("categories"), Some("tags"), Some("with-schema")]);
    let alone = switch_parameter("with-schema", "Adds the schema.");
    assert_eq!(format!("{alone:?}"), format!("{:?}", ps[3]));
    let p = &ps[3];
    assert_eq!(text_of(get(p, "name")), Some("with-schema"));
    assert_eq!(text_of(get(p, "in")), Some("query"));
    assert!(matches!(get(p, "required"), Some(Json::Bool(false))));
    assert_eq!(text_of(get(p, "description")), Some("Adds the schema."));
    let schema = get(p, "schema").unwrap();
    assert_eq!(text_of(get(schema, "type")), Some("boolean"));
    assert!(matches!(get(schema, "default"), Some(Json::Bool(false))));
    assert!(get(p, "style").is_none());
}

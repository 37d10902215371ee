use opensovd::docs::{Json, Member};
use opensovd::proxy::{app_api_base, data_item_url, data_list_url, proxied_metadata, proxied_value, proxy_category};

fn obj(members: Vec<(&str, Json)>) -> Json {
    Json::Object(members.into_iter().map(|(k, v)| Member { key: k.to_string(), value: v }).collect())
}

#[test]
fn app_items_read_as_data_resources() {
    let item = obj(vec![("id", Json::Str("rpm".into())), ("category", Json::Str("sysInfo".into())), ("writable", Json::Bool(true))]);
    let md = proxied_metadata(&item);
    assert_eq!(md.id, "rpm");
    assert_eq!(md.name, "rpm");
    assert_eq!(md.category, "SysInfo");
    assert!(md.is_readable);
    assert!(md.is_writable);
    let item = obj(vec![("name", Json::Str("Speed".into())), ("is_writable", Json::Bool(false)), ("writable", Json::Bool(true))]);
    let md = proxied_metadata(&item);
    assert_eq!(md.id, "unknown");
    assert_eq!(md.name, "Speed");
    assert_eq!(md.category, "CurrentData");
    assert!(!md.is_writable);
    assert!(!proxied_metadata(&Json::Null).is_writable);
}

#[test]
fn categories_accept_either_spelling() {
    assert_eq!(proxy_category(Some("IdentData")), "IdentData");
    assert_eq!(proxy_category(Some("identData")), "IdentData");
    assert_eq!(proxy_category(Some("configData")), "ConfigData");
    assert_eq!(proxy_category(Some("faultData")), "CurrentData");
    assert_eq!(proxy_category(None), "CurrentData");
}

#[test]
fn app_urls() {
    let base = app_api_base(8080);
    assert_eq!(base, "http://127.0.0.1:8080/api");
    assert_eq!(data_list_url(&base), "http://127.0.0.1:8080/api/data");
    assert_eq!(data_item_url(&base, "rpm"), "http://127.0.0.1:8080/api/data/rpm");
}

#[test]
fn reads_take_the_value_member() {
    let v = proxied_value(obj(vec![("id", Json::Str("x".into())), ("value", Json::Bool(true))]));
    assert!(matches!(v, Json::Bool(true)));
    assert!(matches!(proxied_value(obj(vec![])), Json::Null));
    assert!(matches!(proxied_value(Json::Str("x".into())), Json::Null));
}

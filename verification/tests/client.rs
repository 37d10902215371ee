use opensovd::client::{
    encode, first_match, link, merge_link, App, Area, Auth, Client, Component, DataRequest,
    Discovery, DiscoveryError, EntityCapabilities, RequestTimeoutLayer, RetryPolicy, SovdInfo,
};
use opensovd::models::UriReference;

fn client() -> Client {
    Client::new("http://localhost/sovd/v1")
}

#[test]
fn debug_redacts_bearer_token() {
    let auth = Auth::bearer("secret-token");
    let debug = auth.redacted();
    assert!(!debug.contains("secret-token"));
    assert_eq!(debug, "Bearer(****)");
    let from: Auth = String::from("t").into();
    assert_eq!(from.redacted(), "Bearer(****)");
}

#[test]
fn component_default_links() {
    let c = client();
    let ecu = Component::new(&c, "ecu1");
    let links = ecu.links().clone();
    assert_eq!(links.id, "ecu1");
    assert_eq!(links.data.unwrap().0, "http://localhost/sovd/v1/components/ecu1/data");
    assert_eq!(links.hosts.unwrap().0, "http://localhost/sovd/v1/components/ecu1/hosts");
    assert_eq!(ecu.list_data().path, "http://localhost/sovd/v1/components/ecu1/data");
    assert_eq!(ecu.data("a b/c").path, "http://localhost/sovd/v1/components/ecu1/data/a%20b%2Fc");
}

#[test]
fn component_capabilities_follow_advertised_links() {
    let c = client();
    let advertised = EntityCapabilities {
        id: "ecu1".into(),
        name: "Engine ECU".into(),
        data: Some(UriReference("http://localhost/sovd/v1/ecus/ecu1/data".into())),
        ..EntityCapabilities::default()
    };
    let ecu = Component::new(&c, "ecu1").with_advertised(&c, advertised);
    assert_eq!(ecu.links().name, "Engine ECU");
    assert_eq!(ecu.list_data().path, "http://localhost/sovd/v1/ecus/ecu1/data");
    assert_eq!(ecu.data("voltage").path, "http://localhost/sovd/v1/ecus/ecu1/data/voltage");
    assert_eq!(ecu.hosts_path(), "http://localhost/sovd/v1/components/ecu1/hosts");
    assert_eq!(ecu.query_capabilities().path, "http://localhost/sovd/v1/components/ecu1");
}

#[test]
fn ids_are_percent_encoded() {
    assert_eq!(encode("ecu-1_a.b~c"), "ecu-1_a.b~c");
    assert_eq!(encode("a b"), "a%20b");
    assert_eq!(encode("ä"), "%C3%A4");
}

#[test]
fn app_links_start_from_the_id() {
    let c = client();
    let app = App::new(&c, "nav");
    assert_eq!(app.path, "http://localhost/sovd/v1/apps/nav");
    assert_eq!(app.links().id, "nav");
    assert_eq!(app.links().data.as_ref().unwrap().0, "http://localhost/sovd/v1/apps/nav/data");
    assert_eq!(app.list_data().path, "http://localhost/sovd/v1/apps/nav/data");
    assert!(!app.list_data().schema);
    assert_eq!(app.data("rpm").path, "http://localhost/sovd/v1/apps/nav/data/rpm");
    let q = app.query_capabilities().schema(true);
    assert_eq!(q.path, "http://localhost/sovd/v1/apps/nav");
    assert!(q.schema);
}

#[test]
fn area_capabilities_resolve_relative_links() {
    let c = client();
    let area = Area::new(&c, "powertrain");
    assert_eq!(area.contains_path(), "http://localhost/sovd/v1/areas/powertrain/contains");
    let advertised = EntityCapabilities {
        id: "powertrain".into(),
        name: "Powertrain".into(),
        contains: Some(UriReference("/sovd/v1/domains/powertrain/contains".into())),
        ..EntityCapabilities::default()
    };
    let area = area.with_advertised(&c, advertised);
    assert_eq!(area.contains_path(), "http://localhost/sovd/v1/domains/powertrain/contains");
    assert_eq!(area.links().name, "Powertrain");
}

#[test]
fn app_keeps_its_default_link_where_none_is_advertised() {
    let c = client();
    let app = App::new(&c, "nav").with_advertised(&c, EntityCapabilities { id: "nav".into(), ..EntityCapabilities::default() });
    assert_eq!(app.list_data().path, "http://localhost/sovd/v1/apps/nav/data");
    let app = app.with_advertised(&c, EntityCapabilities {
        data: Some(UriReference("http://other/data".into())),
        ..EntityCapabilities::default()
    });
    assert_eq!(app.list_data().path, "http://other/data");
}

#[test]
fn links_and_queries() {
    let c = client();
    assert_eq!(c.url("/components"), "http://localhost/sovd/v1/components");
    assert_eq!(c.resolve("/x"), "http://localhost/x");
    assert_eq!(c.resolve("http://a/b"), "http://a/b");
    assert_eq!(link(None), "");
    let u = UriReference("u".into());
    assert_eq!(link(Some(&u)), "u");
    assert_eq!(merge_link(&c, None, Some(u.clone())), Some(u.clone()));
    assert_eq!(merge_link(&c, Some(&UriReference("/p".into())), None), Some(UriReference("http://localhost/p".into())));
    let read = DataRequest { path: "p".into() }.read();
    assert_eq!(read.path, "p");
    assert!(!read.schema);
    assert!(read.schema(true).schema);
}

#[test]
fn retry_waits_grow_and_stay_below_the_ceiling() {
    let p = RetryPolicy::new(3);
    assert_eq!(p.max_retries, 3);
    assert_eq!(p.ceiling(0), 100);
    assert_eq!(p.ceiling(3), 800);
    assert_eq!(p.ceiling(20), 30_000);
    assert_eq!(p.ceiling(200), 30_000);
    for attempt in 0..10 {
        assert!(p.delay(attempt) < p.ceiling(attempt));
    }
    let zero = RetryPolicy::new(1).backoff(0);
    assert_eq!(zero.delay(5), 0);
    let capped = RetryPolicy::new(1).backoff(10).max_backoff(15);
    assert_eq!(capped.ceiling(1), 15);
    assert_eq!(RequestTimeoutLayer::new(Some(5)).timeout_ms, Some(5));
}

#[test]
fn encoded_ids_stay_one_path_segment() {
    let e = encode("a/b?c#d");
    assert_eq!(e, "a%2Fb%3Fc%23d");
    assert!(!e.contains('/') && !e.contains('?') && !e.contains('#'));
    assert_eq!(encode("engine-ecu_1"), "engine-ecu_1");
}

#[test]
fn the_ceiling_of_late_attempts_is_the_longest_wait() {
    let p = RetryPolicy::new(3);
    assert_eq!(p.ceiling(0), 100);
    assert_eq!(p.ceiling(3), 800);
    assert_eq!(p.ceiling(64), 30_000);
    assert_eq!(p.ceiling(u32::MAX), 30_000);
}

fn advertised(version: &str, base_uri: &str, vendor: Option<&str>) -> SovdInfo<String> {
    SovdInfo { version: version.to_string(), base_uri: base_uri.to_string(), vendor_info: vendor.map(str::to_string) }
}

#[test]
fn discovery_lists_versions_under_its_root() {
    let d = Discovery::new("http://localhost:7690/sovd");
    assert_eq!(d.version_info_url(), "http://localhost:7690/sovd/version-info");
}

#[test]
fn discovery_selects_the_first_matching_instance() {
    let d = Discovery::new("http://localhost:7690/sovd");
    let list = vec![
        advertised("1.0", "http://localhost:7690/sovd/v0", None),
        advertised("1.1", "http://localhost:7690/sovd/v1", Some("OpenSOVD")),
        advertised("1.1", "http://localhost:7690/sovd/v1b", None),
    ];
    let c = d.select(&list, |s: &SovdInfo<String>| s.version == "1.1").unwrap();
    assert_eq!(c.base(), "http://localhost:7690/sovd/v1");
    assert_eq!(c.url("/components"), "http://localhost:7690/sovd/v1/components");
    let by_vendor = d.select(&list, |s: &SovdInfo<String>| s.vendor_info.as_deref() == Some("OpenSOVD")).unwrap();
    assert_eq!(by_vendor.base(), "http://localhost:7690/sovd/v1");
    assert_eq!(first_match(&list, |s: &SovdInfo<String>| s.vendor_info.is_none()), Some(0));
}

#[test]
fn discovery_without_a_match_says_so() {
    let d = Discovery::new("http://localhost:7690/sovd");
    let list = vec![advertised("1.1", "http://localhost:7690/sovd/v1", None)];
    assert_eq!(d.select(&list, |s: &SovdInfo<String>| s.version == "2.0").unwrap_err(), DiscoveryError::NoMatchingVersion);
    let empty: Vec<SovdInfo<String>> = Vec::new();
    assert_eq!(d.select(&empty, |_: &SovdInfo<String>| true).unwrap_err(), DiscoveryError::NoMatchingVersion);
}

#[test]
fn discovery_refuses_an_advertised_uri_that_does_not_parse() {
    let d = Discovery::new("http://localhost:7690/sovd");
    let list = vec![advertised("1.1", "http://bad host/v1", None)];
    assert_eq!(
        d.select(&list, |_: &SovdInfo<String>| true).unwrap_err(),
        DiscoveryError::InvalidUri("http://bad host/v1".to_string())
    );
}

use mdns_sd::{ServiceEvent, ServiceInfo};
use opensovd::mdns::SERVICE_TYPE;
use opensovd::net::IpAddress;
use opensovd::providers::{
    convert_event, registration_description, registration_info, DiscoveryDiff, ProviderMdnsError, ServiceEventData, Value,
    TXT_ACCESS_URL, TXT_IDENTIFICATION,
};

/// The plain values the responder's event carries, as the discovery loop
/// reads them.
fn event_data(event: ServiceEvent) -> ServiceEventData {
    match event {
        ServiceEvent::ServiceResolved(info) => ServiceEventData::Resolved {
            fullname: info.get_fullname().to_string(),
            hostname: info.get_hostname().to_string(),
            port: info.get_port(),
            properties: info.get_properties().iter().map(|p| (p.key().to_string(), p.val_str().to_string())).collect(),
        },
        ServiceEvent::ServiceRemoved(_, fullname) => ServiceEventData::Removed { fullname },
        _ => ServiceEventData::Other,
    }
}

fn convert_service_event(local: &Vec<String>, event: ServiceEvent) -> Option<DiscoveryDiff> {
    convert_event(local, &event_data(event))
}

fn resolved_event(instance: &str, txt: &[(&str, &str)]) -> ServiceEvent {
    let host_name = format!("{instance}.local.");
    let info = ServiceInfo::new(SERVICE_TYPE, instance, &host_name, "192.168.1.20", 7690, txt).unwrap();
    ServiceEvent::ServiceResolved(Box::new(info.as_resolved_service()))
}

#[test]
fn resolved_service_becomes_component_with_identification() {
    let event = resolved_event(
        "peer-ecu",
        &[(TXT_IDENTIFICATION, "VIN999"), (TXT_ACCESS_URL, "http://192.168.1.20:7690/sovd")],
    );
    let diff = convert_service_event(&vec![], event).unwrap();
    assert!(diff.removed.is_empty());
    assert_eq!(diff.added.len(), 1);
    let component = &diff.added[0];
    assert_eq!(component.id, "peer-ecu._sovd._tcp.local.");
    assert_eq!(component.name, "peer-ecu.local");
    assert_eq!(component.metadata, vec![("identification".to_string(), "VIN999".to_string())]);
}

#[test]
fn resolved_service_without_txt_has_no_metadata() {
    let diff = convert_service_event(&vec![], resolved_event("peer-ecu", &[])).unwrap();
    assert_eq!(diff.added.len(), 1);
    assert!(diff.added[0].metadata.is_empty());
}

#[test]
fn private_access_url_is_not_exposed_in_metadata() {
    let event = resolved_event("peer-ecu", &[(TXT_ACCESS_URL, "http://10.0.0.5:7690/sovd")]);
    let diff = convert_service_event(&vec![], event).unwrap();
    let metadata = &diff.added[0].metadata;
    assert!(!metadata.iter().any(|(k, _)| k == TXT_ACCESS_URL));
    assert!(metadata.iter().all(|(_, v)| !v.contains("10.0.0.5")));
}

#[test]
fn removed_service_yields_component_removal() {
    let event = ServiceEvent::ServiceRemoved(SERVICE_TYPE.to_string(), "peer-ecu._sovd._tcp.local.".to_string());
    let diff = convert_service_event(&vec![], event).unwrap();
    assert_eq!(diff.removed, vec!["peer-ecu._sovd._tcp.local.".to_string()]);
    assert!(diff.added.is_empty());
}

#[test]
fn self_registered_service_is_filtered_on_resolve() {
    let event = resolved_event("self-ecu", &[(TXT_IDENTIFICATION, "self")]);
    assert!(convert_service_event(&vec!["self-ecu._sovd._tcp.local.".to_string()], event).is_none());
}

#[test]
fn self_registered_service_is_filtered_on_removal() {
    let event = ServiceEvent::ServiceRemoved(SERVICE_TYPE.to_string(), "self-ecu._sovd._tcp.local.".to_string());
    assert!(convert_service_event(&vec!["self-ecu._sovd._tcp.local.".to_string()], event).is_none());
}

#[test]
fn other_events_change_nothing() {
    assert!(convert_service_event(&vec![], ServiceEvent::SearchStarted(SERVICE_TYPE.to_string())).is_none());
}

#[test]
fn registration_describes_the_gateway() {
    let built = registration_info("gw", "VIN1", "http://10.0.0.1:7690/sovd", IpAddress::V4(0x0a00_0001), 7690).unwrap();
    assert_eq!(built.fullname, "gw._sovd._tcp.local.");
    let d = &built.description;
    assert!(!d.follow_addresses);
    let info = ServiceInfo::new(&d.service_type, &d.instance, &d.host_name, "10.0.0.1", d.port, &d.properties[..]).unwrap();
    assert_eq!(info.get_fullname(), built.fullname);
    assert_eq!(info.get_hostname(), "gw.local.");
    assert_eq!(info.get_property_val_str("identification"), Some("VIN1"));
    let long = "x".repeat(300);
    assert!(matches!(
        registration_info("gw", "VIN1", &long, IpAddress::V4(1), 7690),
        Err(ProviderMdnsError::ServiceInfo(_))
    ));
}

#[test]
fn values_wrap_what_they_hold() {
    assert_eq!(Value::new(5u8).value, 5);
}

#[test]
fn registration_description_holds_the_plain_values() {
    let d = registration_description("gw", "VIN1", "http://10.0.0.1:7690/sovd", IpAddress::V4(0x0a00_0001), 7690);
    assert_eq!(d.service_type, SERVICE_TYPE);
    assert_eq!(d.instance, "gw");
    assert_eq!(d.host_name, "gw.local.");
    assert_eq!(d.address, Some(IpAddress::V4(0x0a00_0001)));
    assert_eq!(d.port, 7690);
    assert_eq!(
        d.properties,
        vec![
            ("identification".to_string(), "VIN1".to_string()),
            ("accessurl".to_string(), "http://10.0.0.1:7690/sovd".to_string()),
        ]
    );
    assert!(d.interfaces.is_empty());
}

#[test]
fn registered_full_names_escape_dots() {
    let built = registration_info("gw.v2", "VIN1", "http://10.0.0.1:7690/sovd", IpAddress::V4(0x0a00_0001), 7690).unwrap();
    assert_eq!(built.fullname, "gw\\.v2._sovd._tcp.local.");
}

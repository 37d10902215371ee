use mdns_sd::{IfKind, ServiceInfo};
use opensovd::mdns::{
    host_from, validate_host, watch_step, Announcement, InterfaceKind, MdnsError, NetInterface,
    ServiceDescription, WatchAction, WatchEvent, WatchState, SERVICE_TYPE,
};
use opensovd::net::{IpAddress, SocketAddress};

const VIN: &str = "ABC123456789";

fn wildcard() -> SocketAddress {
    SocketAddress { ip: IpAddress::V4(0), port: 7690 }
}

fn ip_of(ip: IpAddress) -> core::net::IpAddr {
    match ip {
        IpAddress::V4(a) => core::net::Ipv4Addr::from(a).into(),
        IpAddress::V6(a) => core::net::Ipv6Addr::from(a).into(),
    }
}

/// The responder's form of a description, as the announcer builds it.
fn info_of(d: &ServiceDescription) -> ServiceInfo {
    let ips: Vec<core::net::IpAddr> = d.address.iter().map(|ip| ip_of(*ip)).collect();
    let mut info = ServiceInfo::new(&d.service_type, &d.instance, &d.host_name, &ips[..], d.port, &d.properties[..]).unwrap();
    if d.follow_addresses {
        info = info.enable_addr_auto();
    }
    if !d.interfaces.is_empty() {
        info.set_interfaces(
            d.interfaces
                .iter()
                .map(|k| match k {
                    InterfaceKind::All => IfKind::All,
                    InterfaceKind::IPv4 => IfKind::IPv4,
                    InterfaceKind::IPv6 => IfKind::IPv6,
                    InterfaceKind::Name(n) => IfKind::Name(n.clone()),
                    InterfaceKind::Addr(ip) => IfKind::Addr(ip_of(*ip)),
                })
                .collect(),
        );
    }
    info
}

#[test]
fn host_labels_are_validated() {
    for ok in ["a", "ABC123456789", "ecu-1", &"a".repeat(60)] {
        assert!(validate_host(ok).is_ok(), "{ok}");
    }
    for bad in ["", "-a", "a-", "ABC_1", "a b", "a.local", &"a".repeat(61)] {
        assert!(validate_host(bad).is_err(), "{bad}");
    }
}

#[test]
fn host_defaults_to_identification_then_system() {
    let explicit = Announcement::new(wildcard()).identification(VIN.to_string()).host("ecu-1".to_string());
    assert_eq!(explicit.resolve_host().unwrap(), "ecu-1");

    let by_id = Announcement::new(wildcard()).identification(VIN.to_string());
    assert_eq!(by_id.resolve_host().unwrap(), VIN);

    let system = Announcement::new(wildcard()).resolve_host().unwrap();
    assert!(validate_host(&system).is_ok(), "{system}");

    let invalid = Announcement::new(wildcard()).host("VIN_1".to_string());
    assert!(matches!(invalid.resolve_host(), Err(MdnsError::InvalidHost(_))));
}

#[test]
fn identification_is_made_dns_safe() {
    assert_eq!(host_from("VIN_0001").as_deref(), Some("VIN-0001"));
    assert_eq!(host_from(" Bench 3 ").as_deref(), Some("Bench-3"));
    assert_eq!(host_from("Line 2's Rig").as_deref(), Some("Line-2s-Rig"));
    assert_eq!(host_from("ECU__front").as_deref(), Some("ECU-front"));
    assert_eq!(host_from("rig - left").as_deref(), Some("rig-left"));
    assert_eq!(host_from("Bay #7").as_deref(), Some("Bay-7"));
    assert_eq!(host_from("Rig.07/B").as_deref(), Some("Rig07B"));
    assert_eq!(host_from(&"a".repeat(70)).map(|h| h.len()), Some(60));
    assert_eq!(host_from("__"), None);

    let fallback = Announcement::new(wildcard()).identification("__".to_string());
    assert!(validate_host(&fallback.resolve_host().unwrap()).is_ok());
}

#[test]
fn txt_records_match_the_spec_example() {
    let info = Announcement::new(wildcard())
        .identification(VIN.to_string())
        .access("https", "/vehicle/")
        .service_info("abc123456789", VIN).map(|b| info_of(&b.description))
        .unwrap();
    assert_eq!(info.get_fullname(), "abc123456789._sovd._tcp.local.");
    assert_eq!(info.get_hostname(), "ABC123456789.local.");
    assert_eq!(info.get_property_val_str("identification"), Some(VIN));
    assert_eq!(info.get_property_val_str("accessurl"), Some("https://ABC123456789.local:7690/vehicle"));
}

#[test]
fn access_url_leaves_room_for_a_rename() {
    let path = format!("/{}", "p".repeat(222));
    let long = Announcement::new(wildcard()).host("gw".to_string()).access("https", &path).prepare();
    assert!(matches!(long, Err(MdnsError::AccessUrlTooLong(_))));
}

#[test]
fn mapped_ipv4_is_announced_as_ipv4() {
    let mapped = SocketAddress { ip: IpAddress::V6(0xffff_c000_0201), port: 7690 };
    let announcement = Announcement::new(mapped);
    assert_eq!(announcement.addr(), SocketAddress { ip: IpAddress::V4(0xc000_0201), port: 7690 });
}

#[test]
fn access_path_gets_one_leading_slash() {
    for (path, url) in [
        ("sovd", "http://gw.local:7690/sovd"),
        ("/sovd/", "http://gw.local:7690/sovd"),
        ("/", "http://gw.local:7690"),
    ] {
        let access = Announcement::new(wildcard()).access("http", path);
        assert_eq!(access.access_url("gw"), url);
    }
}

#[test]
fn identification_is_optional() {
    let info = Announcement::new(wildcard()).access("http", "/sovd").service_info("gw", "gw").map(|b| info_of(&b.description)).unwrap();
    assert_eq!(info.get_property("identification"), None);
    assert_eq!(info.get_property_val_str("accessurl"), Some("http://gw.local:7690/sovd"));
}

#[test]
fn wildcard_follows_interface_addresses() {
    let info = Announcement::new(wildcard()).service_info("gw", "gw").map(|b| info_of(&b.description)).unwrap();
    assert!(info.is_addr_auto());
    assert!(info.get_addresses().is_empty());
}

#[test]
fn specific_address_follows_its_interface() {
    let addr = SocketAddress { ip: IpAddress::V4(0xc000_0201), port: 7690 };
    let info = Announcement::new(addr).service_info("gw", "gw").map(|b| info_of(&b.description)).unwrap();
    assert!(info.is_addr_auto());
    assert!(info.get_addresses().is_empty());
}

#[test]
fn interfaces_must_carry_a_specific_address() {
    let addr = SocketAddress { ip: IpAddress::V4(0x7f00_0001), port: 7690 };
    let err = Announcement::new(addr).interfaces(vec!["no-such-intf".to_string()]).check_interfaces().unwrap_err();
    assert!(matches!(err, MdnsError::InterfaceMismatch { .. }));
    let wildcard = Announcement::new(wildcard()).interfaces(vec!["no-such-intf".to_string()]);
    assert!(wildcard.check_interfaces().is_ok());
}

fn intf(name: &str, ip: IpAddress) -> NetInterface {
    NetInterface { name: name.to_string(), ip }
}

#[test]
fn a_specific_address_must_sit_on_a_configured_interface() {
    let addr = SocketAddress { ip: IpAddress::V4(0xc0a8_0105), port: 7690 };
    let a = Announcement::new(addr).interfaces(vec!["eth0".to_string(), "eth1".to_string()]);
    let on_eth1 = vec![intf("eth0", IpAddress::V4(0x0a00_0001)), intf("eth1", IpAddress::V4(0xc0a8_0105))];
    assert!(a.check_interfaces_with(&on_eth1).is_ok());
    let elsewhere = vec![intf("wlan0", IpAddress::V4(0xc0a8_0105))];
    match a.check_interfaces_with(&elsewhere).unwrap_err() {
        MdnsError::InterfaceMismatch { ip, interfaces } => {
            assert_eq!(ip, IpAddress::V4(0xc0a8_0105));
            assert_eq!(interfaces, "eth0,eth1");
        }
        other => panic!("unexpected {other:?}"),
    }
}

#[test]
fn a_wildcard_reports_interfaces_without_a_usable_address() {
    let a = Announcement::new(wildcard()).interfaces(vec!["eth0".to_string(), "lo".to_string(), "eth1".to_string()]);
    let intfs = vec![
        intf("eth0", IpAddress::V4(0x0a00_0001)),
        intf("lo", IpAddress::V4(0x7f00_0001)),
        intf("eth1", IpAddress::V6(1u128 << 127)),
    ];
    assert!(a.check_interfaces_with(&intfs).is_ok());
    assert_eq!(a.unusable_interfaces(&intfs), vec!["lo".to_string(), "eth1".to_string()]);
    let specific = Announcement::new(SocketAddress { ip: IpAddress::V4(0x0a00_0001), port: 7690 })
        .interfaces(vec!["eth0".to_string()]);
    assert!(specific.unusable_interfaces(&intfs).is_empty());
}

#[test]
fn the_service_description_holds_the_plain_values() {
    let a = Announcement::new(wildcard()).identification("ABC123456789".to_string()).access("https", "/vehicle/");
    let d = a.service_description("abc123456789", "ABC123456789");
    assert_eq!(d.service_type, SERVICE_TYPE);
    assert_eq!(d.instance, "abc123456789");
    assert_eq!(d.host_name, "ABC123456789.local.");
    assert!(d.address.is_none());
    assert_eq!(d.port, 7690);
    assert_eq!(
        d.properties,
        vec![
            ("identification".to_string(), "ABC123456789".to_string()),
            ("accessurl".to_string(), "https://ABC123456789.local:7690/vehicle".to_string()),
        ]
    );
    assert_eq!(d.interfaces.len(), 1);
    assert!(matches!(d.interfaces[0], InterfaceKind::IPv4));
}

#[test]
fn prepare_names_the_service_after_the_host() {
    let p = Announcement::new(wildcard()).host("GW-1".to_string()).access("http", "/sovd").prepare().unwrap();
    assert_eq!(p.host, "GW-1");
    assert_eq!(p.instance, "gw-1");
    assert_eq!(p.fullname, "gw-1._sovd._tcp.local.");
    assert_eq!(p.description.host_name, "GW-1.local.");
    assert!(p.description.follow_addresses);
    let info = info_of(&p.description);
    assert_eq!(info.get_fullname(), p.fullname);
    assert_eq!(info.get_hostname(), "GW-1.local.");
    assert!(info.is_addr_auto());
    let bad = Announcement::new(wildcard()).host("-gw".to_string()).prepare();
    assert!(matches!(bad, Err(MdnsError::InvalidHost(_))));
}

#[test]
fn identification_labels_are_stable() {
    assert!(host_from("--- ___").is_none());
    assert!(host_from("äöü").is_none());
    let l = host_from("VIN  _-_ 123--x").unwrap();
    assert_eq!(l, "VIN-123-x");
    assert!(!l.contains("--"));
    assert_eq!(host_from(&l), Some(l.clone()));
}

#[test]
fn the_responder_task_follows_one_rename_and_warns_once() {
    let s = WatchState::new();
    let (s, a) = watch_step(s, WatchEvent::AddressRenamed);
    assert_eq!(a, WatchAction::FollowHost);
    let s = WatchState { followed: true, ..s };
    let (s, a) = watch_step(s, WatchEvent::AddressRenamed);
    assert_eq!(a, WatchAction::WarnConflictPersists);
    let (s, a) = watch_step(s, WatchEvent::AddressRenamed);
    assert_eq!(a, WatchAction::Continue);
    let (s, a) = watch_step(s, WatchEvent::InstanceRenamed);
    assert_eq!(a, WatchAction::RenameInstance);
    assert!(s.followed && s.warned);
    assert_eq!(watch_step(s, WatchEvent::Closed).1, WatchAction::Stop);
}

#[test]
fn a_built_service_carries_its_description_and_full_name() {
    let b = Announcement::new(wildcard())
        .identification(VIN.to_string())
        .access("https", "/vehicle/")
        .service_info("abc123456789", VIN)
        .unwrap();
    assert_eq!(b.fullname, "abc123456789._sovd._tcp.local.");
    assert_eq!(info_of(&b.description).get_fullname(), b.fullname);
    assert_eq!(b.description.instance, "abc123456789");
    assert_eq!(b.description.host_name, "ABC123456789.local.");
    assert!(b.description.follow_addresses);
    assert_eq!(info_of(&b.description).get_hostname(), b.description.host_name);
}

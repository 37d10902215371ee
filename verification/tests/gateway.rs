use opensovd::gateway::{
    access_url, advertised_addr, configure_mdns, ip_text, ipv4_string, listener_choice, registration_plan,
    resolve_host, parse_gateway_url, serve_dir_parts, Bound, ListenerChoice,
};
use opensovd::net::{IpAddress, SocketAddress};

fn v4(a: u8, b: u8, c: u8, d: u8) -> IpAddress {
    IpAddress::V4(u32::from_be_bytes([a, b, c, d]))
}

#[test]
fn resolve_host_prefers_explicit_host() {
    let explicit = v4(10, 0, 0, 5);
    assert_eq!(resolve_host(Some(explicit), v4(127, 0, 0, 1)), explicit);
}

#[test]
fn resolve_host_falls_back_to_listener_host() {
    assert_eq!(resolve_host(None, v4(192, 168, 1, 10)), v4(192, 168, 1, 10));
}

#[test]
fn advertised_addr_uses_bound_port_and_skips_unadvertisable_listeners() {
    let listener = SocketAddress { ip: v4(192, 168, 1, 10), port: 53_421 };
    assert_eq!(advertised_addr(None, Some(listener)), Some(listener));
    assert_eq!(advertised_addr(None, None), None);
    assert_eq!(advertised_addr(None, Some(SocketAddress { ip: v4(0, 0, 0, 0), port: 7690 })), None);
    assert_eq!(
        advertised_addr(Some(v4(10, 0, 0, 5)), Some(SocketAddress { ip: v4(0, 0, 0, 0), port: 53_421 })),
        Some(SocketAddress { ip: v4(10, 0, 0, 5), port: 53_421 })
    );
}

#[test]
fn access_url_formats_ip_addresses_as_url_hosts() {
    assert_eq!(access_url("http", v4(192, 168, 1, 10), 7690, "/sovd"), "http://192.168.1.10:7690/sovd");
    assert_eq!(access_url("https", IpAddress::V6(1), 7690, "/sovd"), "https://[::1]:7690/sovd");
}

#[test]
fn mdns_is_refused_for_unannounceable_setups() {
    let lo = Bound { addr: SocketAddress { ip: v4(127, 0, 0, 1), port: 7690 }, v6_only: false, activated: false };
    assert!(configure_mdns(None, None, vec![], Some(lo), Some("http"), "/sovd", false).unwrap().is_none());
    assert_eq!(
        configure_mdns(Some("VIN".into()), None, vec![], None, Some("http"), "/sovd", false).unwrap_err(),
        "--mdns requires a TCP listener"
    );
    assert_eq!(
        configure_mdns(Some("VIN".into()), None, vec![], Some(lo), Some("http"), "/sovd", false).unwrap_err(),
        "--mdns cannot announce the loopback address 127.0.0.1; bind --url to 0.0.0.0 or an interface address"
    );
    let any = Bound { addr: SocketAddress { ip: v4(0, 0, 0, 0), port: 7690 }, v6_only: false, activated: true };
    assert!(configure_mdns(Some("VIN".into()), None, vec![], Some(any), Some("https"), "/sovd", false)
        .unwrap_err()
        .contains("--tls-cert"));
    let a = configure_mdns(Some("VIN".into()), Some("gw".into()), vec![], Some(any), Some("https"), "/sovd/", true)
        .unwrap()
        .unwrap();
    assert_eq!(a.access_url("gw"), "https://gw.local:7690/sovd");
}

#[test]
fn serve_dir_splits_at_the_first_colon() {
    assert_eq!(serve_dir_parts("/ui:./webui/dist").unwrap(), ("/ui".to_string(), "./webui/dist".to_string()));
    assert_eq!(serve_dir_parts("/a:b:c").unwrap(), ("/a".to_string(), "b:c".to_string()));
    assert!(serve_dir_parts("nocolon").is_err());
}

#[test]
fn registration_uses_the_name_when_no_identification_is_set() {
    let listener = Some(SocketAddress { ip: v4(192, 168, 1, 10), port: 7690 });
    let g = registration_plan("gateway", None, None, listener, "http", "/sovd").unwrap();
    assert_eq!(g.name, "gateway");
    assert_eq!(g.identification, "gateway");
    assert_eq!(g.access_url, "http://192.168.1.10:7690/sovd");
    assert_eq!(g.addr, SocketAddress { ip: v4(192, 168, 1, 10), port: 7690 });
    let g = registration_plan("gateway", Some("Vehicle GW"), Some(v4(10, 0, 0, 5)), listener, "https", "").unwrap();
    assert_eq!(g.identification, "Vehicle GW");
    assert_eq!(g.access_url, "https://10.0.0.5:7690");
}

#[test]
fn no_registration_without_an_advertisable_address() {
    assert!(registration_plan("gw", None, None, None, "http", "").is_none());
    let loopback = Some(SocketAddress { ip: v4(127, 0, 0, 1), port: 7690 });
    assert!(registration_plan("gw", None, None, loopback, "http", "").is_none());
    let any = Some(SocketAddress { ip: v4(0, 0, 0, 0), port: 7690 });
    assert!(registration_plan("gw", None, None, any, "http", "").is_none());
}

#[test]
fn listener_prefers_activation_then_unix_socket_then_tcp() {
    assert_eq!(listener_choice(true, Some("/run/gw.sock"), true), ListenerChoice::Activated);
    assert_eq!(listener_choice(false, Some("@gw"), true), ListenerChoice::AbstractUnix("gw".into()));
    assert_eq!(listener_choice(false, Some("@gw"), false), ListenerChoice::UnixPath("@gw".into()));
    assert_eq!(listener_choice(false, Some("/run/gw.sock"), true), ListenerChoice::UnixPath("/run/gw.sock".into()));
    assert_eq!(listener_choice(false, None, true), ListenerChoice::Tcp);
}

#[test]
fn the_gateway_url_must_name_host_and_port() {
    let u = parse_gateway_url("http://localhost:7690/sovd").unwrap();
    assert_eq!(u.scheme.as_deref(), Some("http"));
    assert_eq!(u.authority, "localhost:7690");
    assert_eq!(u.path, "/sovd");
    assert_eq!(
        parse_gateway_url("/sovd").unwrap_err(),
        "--url must include host:port (e.g., http://localhost:7690/sovd)"
    );
    assert_eq!(parse_gateway_url("http://[::1").unwrap_err(), "invalid --url \"http://[::1\"");
}

#[test]
fn addresses_read_as_std_displays_them() {
    assert_eq!(ipv4_string(0xc0a8_0001), "192.168.0.1");
    assert_eq!(ipv4_string(0), "0.0.0.0");
    assert_eq!(ipv4_string(u32::MAX), "255.255.255.255");
    assert_eq!(ip_text(v4(10, 0, 20, 7)), "10.0.20.7");
    assert_eq!(ip_text(IpAddress::V6(1)), "::1");
    assert_eq!(ip_text(IpAddress::V6(0x2001_0db8_0000_0000_0000_0000_0000_0001)), "2001:db8::1");
}

//! The gateway's decisions about what to announce over mDNS and where it
//! serves files from.

use vstd::prelude::*;

use crate::mdns::{normalized_access_path, Announcement, AnnouncementView};
use crate::net::{spec_is_loopback, spec_is_unspecified, spec_to_canonical, IpAddress, SocketAddress};
use crate::text::{
    chars_of, concat2, decimal, opt_view, push_decimal, push_str, string_of, strings_view,
};

verus! {

/// The text of an IPv6 address as `std` displays it: the RFC 5952 form,
/// with an embedded IPv4 address where `std` shows one.
pub uninterp spec fn ipv6_display(a: u128) -> Seq<char>;

/// The dotted decimal text of an IPv4 address, most significant byte first.
pub open spec fn ipv4_text(a: u32) -> Seq<char> {
    decimal((a / 0x100_0000) as nat) + "."@ + decimal(((a / 0x1_0000) % 0x100) as nat) + "."@
        + decimal(((a / 0x100) % 0x100) as nat) + "."@ + decimal((a % 0x100) as nat)
}

/// The text of an IP address as `std` displays it.
pub open spec fn ip_display(ip: IpAddress) -> Seq<char> {
    match ip {
        IpAddress::V4(a) => ipv4_text(a),
        IpAddress::V6(a) => ipv6_display(a),
    }
}

/// The text of an IPv6 address (`core::net::Ipv6Addr` as `Display`).
#[verifier::external_body]
fn ipv6_text(a: u128) -> (r: String)
    ensures
        r@ == ipv6_display(a),
{
    core::net::Ipv6Addr::from(a).to_string()
}

/// The dotted decimal text of an IPv4 address.
pub fn ipv4_string(a: u32) -> (r: String)
    ensures
        r@ == ipv4_text(a),
{
    let mut s = String::new();
    push_decimal(&mut s, (a / 0x100_0000) as u64);
    push_str(&mut s, ".");
    push_decimal(&mut s, ((a / 0x1_0000) % 0x100) as u64);
    push_str(&mut s, ".");
    push_decimal(&mut s, ((a / 0x100) % 0x100) as u64);
    push_str(&mut s, ".");
    push_decimal(&mut s, (a % 0x100) as u64);
    s
}

/// The text of an IP address as `std` displays it: dotted decimal for IPv4.
pub fn ip_text(ip: IpAddress) -> (r: String)
    ensures
        r@ == ip_display(ip),
{
    match ip {
        IpAddress::V4(a) => ipv4_string(a),
        IpAddress::V6(a) => ipv6_text(a),
    }
}

/// The IP address to announce: the one configured, else the listener's.
pub fn resolve_host(configured: Option<IpAddress>, listener_ip: IpAddress) -> (r: IpAddress)
    ensures
        r == (match configured {
            Some(ip) => ip,
            None => listener_ip,
        }),
{
    match configured {
        Some(ip) => ip,
        None => listener_ip,
    }
}

/// The address to advertise: the resolved host at the listener's port,
/// unless there is no TCP listener or the host is unspecified or loopback.
pub open spec fn advertised_of(configured: Option<IpAddress>, listener: Option<SocketAddress>) -> Option<
    SocketAddress,
> {
    match listener {
        Some(l) => {
            let ip = match configured {
                Some(c) => c,
                None => l.ip,
            };
            if !spec_is_unspecified(ip) && !spec_is_loopback(ip) {
                Some(SocketAddress { ip, port: l.port })
            } else {
                None
            }
        },
        None => None,
    }
}

/// The address to advertise, where there is one.
pub fn advertised_addr(configured: Option<IpAddress>, listener: Option<SocketAddress>) -> (r: Option<
    SocketAddress,
>)
    ensures
        r == advertised_of(configured, listener),
{
    match listener {
        Some(l) => {
            let ip = resolve_host(configured, l.ip);
            if !ip.is_unspecified() && !ip.is_loopback() {
                Some(SocketAddress { ip, port: l.port })
            } else {
                None
            }
        },
        None => None,
    }
}

/// A socket address as `std` displays it: `ip:port`, an IPv6 address in
/// brackets.
pub open spec fn socket_display(ip: IpAddress, port: u16) -> Seq<char> {
    match ip {
        IpAddress::V4(_) => ip_display(ip) + ":"@ + decimal(port as nat),
        IpAddress::V6(_) => "["@ + ip_display(ip) + "]:"@ + decimal(port as nat),
    }
}

/// The URL the gateway is reached at: `{scheme}://{ip}:{port}{base_path}`.
pub fn access_url(scheme: &str, ip: IpAddress, port: u16, base_path: &str) -> (r: String)
    ensures
        r@ == scheme@ + "://"@ + socket_display(ip, port) + base_path@,
{
    let mut s = concat2(scheme, "://");
    let t = ip_text(ip);
    match ip {
        IpAddress::V4(_) => {
            push_str(&mut s, t.as_str());
            push_str(&mut s, ":");
        },
        IpAddress::V6(_) => {
            push_str(&mut s, "[");
            push_str(&mut s, t.as_str());
            push_str(&mut s, "]:");
        },
    }
    push_decimal(&mut s, port as u64);
    push_str(&mut s, base_path);
    s
}

/// The listener the gateway serves on.
#[derive(Debug, Clone, Copy)]
pub struct Bound {
    pub addr: SocketAddress,
    /// The socket accepts IPv6 only.
    pub v6_only: bool,
    /// The socket was handed over by the service manager.
    pub activated: bool,
}

/// The refusal of an announcement without a TCP listener.
pub open spec fn needs_tcp_text() -> Seq<char> {
    "--mdns requires a TCP listener"@
}

/// The refusal of an announcement of a loopback address.
pub open spec fn loopback_text(ip: IpAddress, activated: bool) -> Seq<char> {
    "--mdns cannot announce the loopback address "@ + ip_display(ip) + "; "@ + (if activated {
        "set ListenStream in the systemd socket unit"@
    } else {
        "bind --url"@
    }) + " to 0.0.0.0 or an interface address"@
}

/// The refusal of an announcement of an https URL without TLS.
pub open spec fn needs_tls_text() -> Seq<char> {
    "--mdns with an https --url requires --tls-cert, since clients connect to the announced port directly"@
}

/// The URL's scheme is `https`.
pub open spec fn is_https(scheme: Option<&str>) -> bool {
    scheme matches Some(s) && s@ == "https"@
}

/// The announcement the gateway makes: none without an identification; a
/// refusal without a TCP listener, for a loopback address, or for an https
/// URL without TLS; else the bound address with the identification, the
/// scheme by TLS, the URL's path, the interfaces and the host.
pub fn configure_mdns(
    identification: Option<String>,
    host: Option<String>,
    interfaces: Vec<String>,
    bound: Option<Bound>,
    uri_scheme: Option<&str>,
    uri_path: &str,
    tls: bool,
) -> (r: Result<Option<Announcement>, String>)
    ensures
        match identification {
            None => r matches Ok(None),
            Some(id) => match bound {
                None => r matches Err(m) && m@ == needs_tcp_text(),
                Some(b) => if spec_is_loopback(spec_to_canonical(b.addr.ip)) {
                    r matches Err(m) && m@ == loopback_text(b.addr.ip, b.activated)
                } else if !tls && is_https(uri_scheme) {
                    r matches Err(m) && m@ == needs_tls_text()
                } else {
                    r matches Ok(Some(a)) && a@ == (AnnouncementView {
                        addr: SocketAddress { ip: spec_to_canonical(b.addr.ip), port: b.addr.port },
                        host: match host {
                            Some(h) => Some(h@),
                            None => None,
                        },
                        identification: Some(id@),
                        scheme: if tls {
                            "https"@
                        } else {
                            "http"@
                        },
                        path: normalized_access_path(uri_path@),
                        interfaces: strings_view(interfaces@),
                        ipv6_only: b.v6_only,
                    })
                },
            },
        },
{
    let id = match identification {
        Some(id) => id,
        None => {
            return Ok(None);
        },
    };
    let b = match bound {
        Some(b) => b,
        None => {
            return Err("--mdns requires a TCP listener".to_owned());
        },
    };
    if b.addr.ip.to_canonical().is_loopback() {
        let mut m = concat2("--mdns cannot announce the loopback address ", ip_text(b.addr.ip).as_str());
        push_str(&mut m, "; ");
        if b.activated {
            push_str(&mut m, "set ListenStream in the systemd socket unit");
        } else {
            push_str(&mut m, "bind --url");
        }
        push_str(&mut m, " to 0.0.0.0 or an interface address");
        return Err(m);
    }
    let https = match uri_scheme {
        Some(s) => crate::keyed::compare_keys(s, "https") == 0,
        None => false,
    };
    if !tls && https {
        return Err(
            "--mdns with an https --url requires --tls-cert, since clients connect to the announced port directly".to_owned(),
        );
    }
    let scheme = if tls {
        "https"
    } else {
        "http"
    };
    let mut a = Announcement::new(b.addr).identification(id).access(scheme, uri_path).interfaces(
        interfaces,
    ).ipv6_only(b.v6_only);
    match host {
        Some(h) => {
            a = a.host(h);
        },
        None => {},
    }
    Ok(Some(a))
}

/// The refusal of a `--serve-dir` value without a colon.
pub open spec fn serve_dir_text() -> Seq<char> {
    "--serve-dir format: PATH:DIRECTORY (e.g., /ui:./webui/dist)"@
}

/// A `--serve-dir` value split at its first colon into the URL path and the
/// directory.
pub fn serve_dir_parts(arg: &str) -> (r: Result<(String, String), String>)
    ensures
        match r {
            Ok((p, d)) => exists|i: int|
                0 <= i < arg@.len() && arg@[i] == ':' && (forall|j: int| 0 <= j < i ==> arg@[j] != ':')
                    && p@ == arg@.take(i) && d@ == arg@.skip(i + 1),
            Err(m) => m@ == serve_dir_text() && forall|j: int| 0 <= j < arg@.len() ==> arg@[j] != ':',
        },
{
    let v = chars_of(arg);
    let i = crate::text::find_char(&v, ':');
    if i == v.len() {
        return Err("--serve-dir format: PATH:DIRECTORY (e.g., /ui:./webui/dist)".to_owned());
    }
    let p = crate::text::sub_vec(&v, 0, i);
    let d = crate::text::sub_vec(&v, i + 1, v.len());
    assert(v@.subrange(0, i as int) =~= arg@.take(i as int));
    assert(v@.subrange(i + 1, v@.len() as int) =~= arg@.skip(i + 1));
    Ok((string_of(&p), string_of(&d)))
}

/// What the gateway registers for discovery by others: its name, its
/// identification, the URL it is reached at, and the advertised address.
#[derive(Debug, Clone)]
pub struct GatewayRegistration {
    pub name: String,
    pub identification: String,
    pub access_url: String,
    pub addr: SocketAddress,
}

/// The registration of the gateway's discovery session: none where no
/// address can be advertised; else the name, the identification (the name
/// where none is configured), and the URL at the advertised address.
pub fn registration_plan(
    name: &str,
    identification: Option<&str>,
    configured: Option<IpAddress>,
    listener: Option<SocketAddress>,
    scheme: &str,
    base_path: &str,
) -> (r: Option<GatewayRegistration>)
    ensures
        match advertised_of(configured, listener) {
            None => r is None,
            Some(a) => r matches Some(g) && g.addr == a && g.name@ == name@ && g.identification@
                == (match identification {
                Some(i) => i@,
                None => name@,
            }) && g.access_url@ == scheme@ + "://"@ + socket_display(a.ip, a.port) + base_path@,
        },
{
    let a = match advertised_addr(configured, listener) {
        Some(a) => a,
        None => {
            return None;
        },
    };
    let id = match identification {
        Some(i) => i,
        None => name,
    };
    Some(
        GatewayRegistration {
            name: name.to_owned(),
            identification: id.to_owned(),
            access_url: access_url(scheme, a.ip, a.port, base_path),
            addr: a,
        },
    )
}

/// Where the gateway listens.
#[derive(Debug, Clone, PartialEq, Eq)]
pub enum ListenerChoice {
    /// The socket handed over by the service manager.
    Activated,
    /// A Unix socket in the abstract namespace, by its name.
    AbstractUnix(String),
    /// A Unix socket at a path.
    UnixPath(String),
    /// A TCP socket bound to the URL's authority.
    Tcp,
}

/// The listener the gateway uses: a socket from the service manager first,
/// else the configured Unix socket (abstract where its name starts with
/// `@`, and only where abstract sockets exist), else TCP.
pub fn listener_choice(activated: bool, unix_socket: Option<&str>, abstract_supported: bool) -> (r:
    ListenerChoice)
    ensures
        activated ==> r == ListenerChoice::Activated,
        !activated ==> match unix_socket {
            None => r == ListenerChoice::Tcp,
            Some(p) => if abstract_supported && p@.len() > 0 && p@[0] == '@' {
                r matches ListenerChoice::AbstractUnix(n) && n@ == p@.drop_first()
            } else {
                r matches ListenerChoice::UnixPath(q) && q@ == p@
            },
        },
{
    if activated {
        return ListenerChoice::Activated;
    }
    match unix_socket {
        None => ListenerChoice::Tcp,
        Some(p) => {
            let v = chars_of(p);
            if abstract_supported && v.len() > 0 && v[0] == '@' {
                let n = crate::text::sub_vec(&v, 1, v.len());
                assert(v@.subrange(1, v@.len() as int) =~= p@.drop_first());
                ListenerChoice::AbstractUnix(string_of(&n))
            } else {
                ListenerChoice::UnixPath(p.to_owned())
            }
        },
    }
}

/// What a URI text is made of (`http::Uri`): its scheme, its authority and
/// its path, where it parses; nothing where it does not.
pub uninterp spec fn uri_parts(text: Seq<char>) -> Option<(Option<Seq<char>>, Option<Seq<char>>, Seq<char>)>;

/// Parses a URI (`str::parse::<http::Uri>`) and takes its scheme
/// (`scheme_str`), authority (`authority`, `as_str`) and path (`path`).
#[verifier::external_body]
pub(crate) fn parse_uri(text: &str) -> (r: Option<(Option<String>, Option<String>, String)>)
    ensures
        match r {
            None => uri_parts(text@) is None,
            Some((s, a, p)) => uri_parts(text@) == Some((opt_view(s), opt_view(a), p@)),
        },
{
    match text.parse::<http::Uri>() {
        Ok(uri) => Some((
            uri.scheme_str().map(str::to_owned),
            uri.authority().map(|a| a.as_str().to_owned()),
            uri.path().to_owned(),
        )),
        Err(_) => None,
    }
}

/// The text of a string as `std` shows it for debugging: quoted, with
/// quotes, backslashes and control characters escaped.
pub uninterp spec fn str_debug(s: Seq<char>) -> Seq<char>;

/// A string as `std` shows it for debugging (`str` as `Debug`).
#[verifier::external_body]
fn debug_text(s: &str) -> (r: String)
    ensures
        r@ == str_debug(s@),
{
    format!("{s:?}")
}

/// The refusal of a `--url` without `host:port`.
pub open spec fn missing_authority_text() -> Seq<char> {
    "--url must include host:port (e.g., http://localhost:7690/sovd)"@
}

/// The parts of the gateway's `--url` that it serves by.
#[derive(Debug, Clone)]
pub struct GatewayUrl {
    /// The scheme, where the URL has one.
    pub scheme: Option<String>,
    /// The `host:port` the gateway binds.
    pub authority: String,
    /// The base path the API is served under.
    pub path: String,
}

/// Reads the gateway's `--url`: refused where it is no URI, or where it
/// names no `host:port`.
pub fn parse_gateway_url(url: &str) -> (r: Result<GatewayUrl, String>)
    ensures
        match uri_parts(url@) {
            None => r matches Err(m) && m@ == "invalid --url "@ + str_debug(url@),
            Some((scheme, authority, path)) => match authority {
                None => r matches Err(m) && m@ == missing_authority_text(),
                Some(a) => r matches Ok(g) && opt_view(g.scheme) == scheme && g.authority@ == a
                    && g.path@ == path,
            },
        },
{
    match parse_uri(url) {
        None => {
            let d = debug_text(url);
            Err(concat2("invalid --url ", d.as_str()))
        },
        Some((scheme, authority, path)) => match authority {
            None => Err("--url must include host:port (e.g., http://localhost:7690/sovd)".to_owned()),
            Some(authority) => Ok(GatewayUrl { scheme, authority, path }),
        },
    }
}

} // verus!

//! mDNS and DNS-SD announcement of an SOVD server (ISO 17978-3, 5.11): the
//! host label rules, the announcement description and the decisions of the
//! responder task.

use vstd::prelude::*;

use crate::net::{spec_is_loopback, spec_is_unspecified, spec_to_canonical, IpAddress, SocketAddress};
use crate::text::{
    ascii_alnum, ascii_lower, ascii_lower_seq, chars_of, concat2, decimal, is_ascii_alnum, opt_view, push_all,
    push_char, push_decimal, push_str, string_of, strings_view, sub_vec, to_ascii_lowercase,
    trailing_end, trim_ch, trim_end_ch, trim_end_vec, trim_start_ch, trim_vec, utf8_len,
    utf8_len_exceeds,
};

verus! {

#[verifier::external_type_specification]
#[verifier::external_body]
pub struct ExIoError(std::io::Error);

#[verifier::external_type_specification]
#[verifier::external_body]
pub struct ExMdnsSdError(mdns_sd::Error);

/// DNS-SD service type of an SOVD server.
pub const SERVICE_TYPE: &'static str = "_sovd._tcp.local.";

/// Host label used when neither the identification nor the system host name
/// gives one.
pub const FALLBACK_HOST: &'static str = "opensovd";

/// Longest host label; a rename after a conflict (e.g. `-2`) must still fit
/// into a 63 byte DNS label.
pub const MAX_HOST_LEN: usize = 60;

/// Error returned when a service cannot be announced.
#[derive(Debug)]
pub enum MdnsError {
    /// The host label is not a valid DNS label.
    InvalidHost(String),
    /// None of the configured interfaces carries the bound address.
    InterfaceMismatch { ip: crate::net::IpAddress, interfaces: String },
    /// The network interfaces could not be listed.
    Interfaces(std::io::Error),
    /// The announcement needs a running tokio runtime.
    NoRuntime,
    /// The `accessurl` TXT value would not fit after a rename.
    AccessUrlTooLong(String),
    /// The responder reported an error.
    Daemon(mdns_sd::Error),
}

/// A host label: 1 to 60 ASCII letters, digits or inner hyphens.
pub open spec fn valid_host(s: Seq<char>) -> bool {
    &&& s.len() > 0
    &&& s.len() <= MAX_HOST_LEN
    &&& s[0] != '-'
    &&& s.last() != '-'
    &&& forall|i: int| 0 <= i < s.len() ==> is_ascii_alnum(#[trigger] s[i]) || s[i] == '-'
}

/// Checks that `host` is a single DNS label usable as `<host>.local`.
///
/// Fails with [`MdnsError::InvalidHost`], carrying `host`, when the label is
/// empty, longer than 60 characters, starts or ends with a hyphen, or holds
/// anything but ASCII letters, digits and hyphens.
pub fn validate_host(host: &str) -> (r: Result<(), MdnsError>)
    ensures
        r is Ok <==> valid_host(host@),
        r matches Err(MdnsError::InvalidHost(h)) ==> h@ == host@,
        r is Err ==> r matches Err(MdnsError::InvalidHost(_)),
{
    let v = chars_of(host);
    let n: usize = v.len();
    let mut all = true;
    let mut i: usize = 0;
    while i < n
        invariant
            v@ == host@,
            n == v.len(),
            0 <= i <= n,
            all <==> forall|k: int| 0 <= k < i ==> is_ascii_alnum(#[trigger] v@[k]) || v@[k] == '-',
        decreases n - i,
    {
        let c = v[i];
        if !(ascii_alnum(c) || c == '-') {
            all = false;
        }
        i = i + 1;
    }
    let valid = n > 0 && n <= MAX_HOST_LEN && v[0] != '-' && v[n - 1] != '-' && all;
    if valid {
        Ok(())
    } else {
        Err(MdnsError::InvalidHost(host.to_owned()))
    }
}

/// A separator that becomes a single hyphen in a host label.
pub open spec fn is_label_separator(c: char) -> bool {
    c == ' ' || c == '\t' || c == '_' || c == '-'
}

/// Letters and digits of `s` kept, each run of separators after something
/// other than a hyphen turned into one hyphen, everything else dropped.
pub open spec fn collapse_label(s: Seq<char>) -> Seq<char>
    decreases s.len(),
{
    if s.len() == 0 {
        Seq::empty()
    } else {
        let p = collapse_label(s.drop_last());
        let c = s.last();
        if is_ascii_alnum(c) {
            p.push(c)
        } else if is_label_separator(c) && !(p.len() > 0 && p.last() == '-') {
            p.push('-')
        } else {
            p
        }
    }
}

pub open spec fn min_nat(a: nat, b: nat) -> nat {
    if a <= b {
        a
    } else {
        b
    }
}

/// The host label derived from an identification: separators become
/// hyphens, other characters are dropped, hyphens are trimmed from both ends,
/// and the label is cut to 60 characters.
pub open spec fn host_label_of(id: Seq<char>) -> Option<Seq<char>> {
    let t = trim_ch(collapse_label(id), '-');
    let cut = t.take(min_nat(t.len(), MAX_HOST_LEN as nat) as int);
    let label = trim_end_ch(cut, '-');
    if label.len() > 0 {
        Some(label)
    } else {
        None
    }
}

/// Turns an identification such as a VIN into a host label, see
/// [`host_label_of`].
pub fn host_from(identification: &str) -> (r: Option<String>)
    ensures
        r is Some <==> host_label_of(identification@) is Some,
        r matches Some(s) ==> host_label_of(identification@) == Some(s@),
{
    let v = chars_of(identification);
    let mut label: Vec<char> = Vec::new();
    for i in 0..v.len()
        invariant
            v@ == identification@,
            label@ == collapse_label(v@.take(i as int)),
    {
        let c = v[i];
        let ghost pre = v@.take(i as int);
        assert(v@.take(i + 1).drop_last() =~= pre);
        assert(v@.take(i + 1).last() == c);
        if ascii_alnum(c) {
            label.push(c);
        } else if (c == ' ' || c == '\t' || c == '_' || c == '-') && !(label.len() > 0
            && label[label.len() - 1] == '-') {
            label.push('-');
        }
    }
    assert(v@.take(v.len() as int) =~= v@);
    let t = trim_vec(&label, '-');
    let n: usize = if t.len() <= MAX_HOST_LEN {
        t.len()
    } else {
        MAX_HOST_LEN
    };
    let cut = sub_vec(&t, 0, n);
    assert(cut@ =~= t@.take(n as int));
    let l = trim_end_vec(&cut, '-');
    if l.len() > 0 {
        Some(string_of(&l))
    } else {
        None
    }
}

// ---- the host label law -------------------------------------------------

/// Everything `collapse_label` produces is a letter, a digit or a hyphen.
proof fn lemma_collapse_chars(s: Seq<char>)
    ensures
        forall|i: int|
            0 <= i < collapse_label(s).len() ==> is_ascii_alnum(#[trigger] collapse_label(s)[i])
                || collapse_label(s)[i] == '-',
    decreases s.len(),
{
    if s.len() > 0 {
        let p = collapse_label(s.drop_last());
        lemma_collapse_chars(s.drop_last());
        let r = collapse_label(s);
        assert forall|i: int| 0 <= i < r.len() implies is_ascii_alnum(#[trigger] r[i]) || r[i]
            == '-' by {
            if i < p.len() {
                assert(r[i] == p[i]);
            }
        }
    }
}

proof fn lemma_trim_start_subrange(s: Seq<char>, c: char)
    ensures
        exists|j: int| 0 <= j <= s.len() && trim_start_ch(s, c) == s.subrange(j, s.len() as int),
        trim_start_ch(s, c).len() > 0 ==> trim_start_ch(s, c)[0] != c,
    decreases s.len(),
{
    if s.len() > 0 && s[0] == c {
        lemma_trim_start_subrange(s.drop_first(), c);
        let j = choose|j: int|
            0 <= j <= s.drop_first().len() && trim_start_ch(s.drop_first(), c)
                == s.drop_first().subrange(j, s.drop_first().len() as int);
        assert(s.drop_first().subrange(j, s.drop_first().len() as int) =~= s.subrange(
            j + 1,
            s.len() as int,
        ));
    } else {
        assert(s.subrange(0, s.len() as int) =~= s);
    }
}

proof fn lemma_trim_end_prefix(s: Seq<char>, c: char)
    ensures
        trim_end_ch(s, c).len() <= s.len(),
        trim_end_ch(s, c) == s.take(trim_end_ch(s, c).len() as int),
        trim_end_ch(s, c).len() > 0 ==> trim_end_ch(s, c).last() != c,
    decreases s.len(),
{
    if s.len() > 0 && s.last() == c {
        lemma_trim_end_prefix(s.drop_last(), c);
        let k = trim_end_ch(s, c).len() as int;
        assert(s.drop_last().take(k) =~= s.take(k));
    } else {
        assert(s.take(s.len() as int) =~= s);
    }
}

/// Every label derived from an identification is a valid host label.
pub proof fn lemma_host_label_is_valid(id: Seq<char>)
    ensures
        host_label_of(id) matches Some(l) ==> valid_host(l),
{
    let col = collapse_label(id);
    lemma_collapse_chars(id);
    let ts = trim_start_ch(col, '-');
    lemma_trim_start_subrange(col, '-');
    let j = choose|j: int| 0 <= j <= col.len() && ts == col.subrange(j, col.len() as int);
    let t = trim_end_ch(ts, '-');
    lemma_trim_end_prefix(ts, '-');
    let cut = t.take(min_nat(t.len(), MAX_HOST_LEN as nat) as int);
    let label = trim_end_ch(cut, '-');
    lemma_trim_end_prefix(cut, '-');
    if label.len() > 0 {
        assert(label[0] == cut[0]);
        assert(cut[0] == t[0]);
        assert(t[0] == ts[0]);
        assert forall|i: int| 0 <= i < label.len() implies is_ascii_alnum(#[trigger] label[i])
            || label[i] == '-' by {
            assert(label[i] == cut[i]);
            assert(cut[i] == t[i]);
            assert(t[i] == ts[i]);
            assert(ts[i] == col[i + j]);
        }
    }
}

/// `s` holds an ASCII letter or digit.
pub open spec fn has_alnum(s: Seq<char>) -> bool {
    exists|i: int| 0 <= i < s.len() && is_ascii_alnum(#[trigger] s[i])
}

/// No two hyphens stand next to each other in `s`.
pub open spec fn no_double_hyphen(s: Seq<char>) -> bool {
    forall|i: int| 0 <= i < s.len() - 1 ==> !(#[trigger] s[i] == '-' && s[i + 1] == '-')
}

proof fn lemma_collapse_keeps_alnum(s: Seq<char>)
    ensures
        has_alnum(collapse_label(s)) == has_alnum(s),
        no_double_hyphen(collapse_label(s)),
    decreases s.len(),
{
    if s.len() > 0 {
        let p = s.drop_last();
        lemma_collapse_keeps_alnum(p);
        let cp = collapse_label(p);
        let c = collapse_label(s);
        let x = s.last();
        assert(has_alnum(s) == (has_alnum(p) || is_ascii_alnum(x))) by {
            if has_alnum(s) {
                let i = choose|i: int| 0 <= i < s.len() && is_ascii_alnum(#[trigger] s[i]);
                if i < p.len() {
                    assert(p[i] == s[i]);
                }
            }
            if has_alnum(p) {
                let i = choose|i: int| 0 <= i < p.len() && is_ascii_alnum(#[trigger] p[i]);
                assert(s[i] == p[i]);
            }
            if is_ascii_alnum(x) {
                assert(is_ascii_alnum(s[s.len() - 1]));
            }
        }
        if c.len() > cp.len() {
            assert(c == cp.push(c.last()));
            assert(has_alnum(c) == (has_alnum(cp) || is_ascii_alnum(c.last()))) by {
                if has_alnum(c) {
                    let i = choose|i: int| 0 <= i < c.len() && is_ascii_alnum(#[trigger] c[i]);
                    if i < cp.len() {
                        assert(cp[i] == c[i]);
                    }
                }
                if has_alnum(cp) {
                    let i = choose|i: int| 0 <= i < cp.len() && is_ascii_alnum(#[trigger] cp[i]);
                    assert(c[i] == cp[i]);
                }
                if is_ascii_alnum(c.last()) {
                    assert(is_ascii_alnum(c[c.len() - 1]));
                }
            }
            assert forall|i: int| 0 <= i < c.len() - 1 implies !(#[trigger] c[i] == '-' && c[i + 1]
                == '-') by {
                if i < cp.len() - 1 {
                    assert(c[i] == cp[i] && c[i + 1] == cp[i + 1]);
                } else {
                    assert(c[i] == cp.last());
                }
            }
        } else {
            assert(c == cp);
        }
    }
}

proof fn lemma_trim_start_keeps_alnum(s: Seq<char>)
    ensures
        has_alnum(trim_start_ch(s, '-')) == has_alnum(s),
    decreases s.len(),
{
    if s.len() > 0 && s[0] == '-' {
        let d = s.drop_first();
        lemma_trim_start_keeps_alnum(d);
        assert(has_alnum(d) == has_alnum(s)) by {
            if has_alnum(s) {
                let i = choose|i: int| 0 <= i < s.len() && is_ascii_alnum(#[trigger] s[i]);
                assert(i > 0);
                assert(d[i - 1] == s[i]);
            }
            if has_alnum(d) {
                let i = choose|i: int| 0 <= i < d.len() && is_ascii_alnum(#[trigger] d[i]);
                assert(s[i + 1] == d[i]);
            }
        }
    }
}

proof fn lemma_trim_end_keeps_alnum(s: Seq<char>)
    ensures
        has_alnum(trim_end_ch(s, '-')) == has_alnum(s),
    decreases s.len(),
{
    if s.len() > 0 && s.last() == '-' {
        let d = s.drop_last();
        lemma_trim_end_keeps_alnum(d);
        assert(has_alnum(d) == has_alnum(s)) by {
            if has_alnum(s) {
                let i = choose|i: int| 0 <= i < s.len() && is_ascii_alnum(#[trigger] s[i]);
                assert(i < s.len() - 1);
                assert(d[i] == s[i]);
            }
            if has_alnum(d) {
                let i = choose|i: int| 0 <= i < d.len() && is_ascii_alnum(#[trigger] d[i]);
                assert(s[i] == d[i]);
            }
        }
    }
}

proof fn lemma_no_double_hyphen_sub(s: Seq<char>, a: int, b: int)
    requires
        no_double_hyphen(s),
        0 <= a <= b <= s.len(),
    ensures
        no_double_hyphen(s.subrange(a, b)),
{
    let t = s.subrange(a, b);
    assert forall|i: int| 0 <= i < t.len() - 1 implies !(#[trigger] t[i] == '-' && t[i + 1] == '-') by {
        assert(t[i] == s[a + i] && t[i + 1] == s[a + i + 1]);
    }
}

/// A label of letters, digits and single inner hyphens collapses to itself.
proof fn lemma_collapse_label_fixed(s: Seq<char>)
    requires
        forall|i: int| 0 <= i < s.len() ==> is_ascii_alnum(#[trigger] s[i]) || s[i] == '-',
        no_double_hyphen(s),
        s.len() > 0 ==> s[0] != '-',
    ensures
        collapse_label(s) == s,
    decreases s.len(),
{
    if s.len() > 0 {
        let p = s.drop_last();
        assert forall|i: int| 0 <= i < p.len() implies is_ascii_alnum(#[trigger] p[i]) || p[i] == '-' by {
            assert(p[i] == s[i]);
        }
        lemma_no_double_hyphen_sub(s, 0, s.len() - 1);
        assert(p =~= s.subrange(0, s.len() - 1));
        if p.len() > 0 {
            assert(p[0] == s[0]);
        }
        lemma_collapse_label_fixed(p);
        let x = s.last();
        if !is_ascii_alnum(x) {
            assert(x == '-');
            assert(s.len() >= 2);
            assert(!(s[s.len() - 2] == '-' && s[s.len() - 1] == '-'));
            assert(p.last() == s[s.len() - 2]);
        }
        assert(collapse_label(s) =~= p.push(x));
        assert(p.push(x) =~= s);
    }
}

/// What an identification gives as a host label: none exactly where it holds
/// no ASCII letter or digit; otherwise a label without two hyphens in a row
/// that gives itself again.
pub proof fn lemma_host_label_laws(id: Seq<char>)
    ensures
        host_label_of(id) is None <==> !has_alnum(id),
        match host_label_of(id) {
            Some(l) => no_double_hyphen(l) && host_label_of(l) == Some(l),
            None => true,
        },
{
    let col = collapse_label(id);
    lemma_collapse_keeps_alnum(id);
    lemma_collapse_chars(id);
    let ts = trim_start_ch(col, '-');
    lemma_trim_start_keeps_alnum(col);
    lemma_trim_start_subrange(col, '-');
    let j = choose|j: int| 0 <= j <= col.len() && ts == col.subrange(j, col.len() as int);
    let t = trim_end_ch(ts, '-');
    lemma_trim_end_keeps_alnum(ts);
    lemma_trim_end_prefix(ts, '-');
    let m = min_nat(t.len(), MAX_HOST_LEN as nat) as int;
    let cut = t.take(m);
    let label = trim_end_ch(cut, '-');
    lemma_trim_end_keeps_alnum(cut);
    lemma_trim_end_prefix(cut, '-');
    lemma_host_label_is_valid(id);
    assert(trim_ch(col, '-') == t);
    // the label is a run of the collapsed text
    lemma_no_double_hyphen_sub(col, j, col.len() as int);
    lemma_no_double_hyphen_sub(ts, 0, t.len() as int);
    assert(ts.take(t.len() as int) =~= ts.subrange(0, t.len() as int));
    lemma_no_double_hyphen_sub(t, 0, m);
    assert(cut =~= t.subrange(0, m));
    lemma_no_double_hyphen_sub(cut, 0, label.len() as int);
    assert(cut.take(label.len() as int) =~= cut.subrange(0, label.len() as int));
    if has_alnum(id) {
        assert(has_alnum(t));
        assert(t.len() > 0);
        assert(t[0] == ts[0]);
        assert(ts[0] != '-');
        assert(ts[0] == col[j]);
        assert(is_ascii_alnum(col[j]) || col[j] == '-');
        assert(m > 0);
        assert(cut[0] == t[0]);
        assert(is_ascii_alnum(cut[0]));
        assert(has_alnum(cut));
        assert(label.len() > 0);
    }
    if label.len() > 0 {
        let l = label;
        assert(valid_host(l));
        assert(is_ascii_alnum(l[0]));
        assert(has_alnum(l));
        assert(has_alnum(id));
        lemma_collapse_label_fixed(l);
        assert(trim_start_ch(l, '-') == l);
        assert(trim_end_ch(l, '-') == l);
        assert(trim_ch(collapse_label(l), '-') == l);
        assert(min_nat(l.len(), MAX_HOST_LEN as nat) == l.len());
        assert(l.take(l.len() as int) =~= l);
    }
}

} // verus!

verus! {

/// The base path of the `accessurl`: empty, or one leading `/` followed by
/// the given path without leading or trailing slashes.
pub open spec fn normalized_access_path(p: Seq<char>) -> Seq<char> {
    let t = trim_ch(p, '/');
    if t.len() == 0 {
        Seq::empty()
    } else {
        seq!['/'] + t
    }
}

/// A normalized base path is empty or one `/` followed by a non-empty path
/// that neither starts nor ends with `/`; normalizing it again changes
/// nothing.
pub proof fn lemma_access_path_normal_form(p: Seq<char>)
    ensures
        ({
            let n = normalized_access_path(p);
            &&& n.len() == 0 || (n.len() >= 2 && n[0] == '/' && n[1] != '/' && n.last() != '/')
            &&& normalized_access_path(n) == n
        }),
{
    let ts = trim_start_ch(p, '/');
    lemma_trim_start_subrange(p, '/');
    let t = trim_end_ch(ts, '/');
    lemma_trim_end_prefix(ts, '/');
    if t.len() > 0 {
        assert(t[0] == ts[0]);
        let n = seq!['/'] + t;
        assert(n.drop_first() =~= t);
        assert(trim_start_ch(n, '/') == trim_start_ch(t, '/'));
        assert(trim_start_ch(t, '/') == t);
        assert(n.last() == t.last());
        assert(trim_end_ch(t, '/') == t);
    }
}

/// What an [`Announcement`] describes.
pub struct AnnouncementView {
    pub addr: SocketAddress,
    pub host: Option<Seq<char>>,
    pub identification: Option<Seq<char>>,
    pub scheme: Seq<char>,
    pub path: Seq<char>,
    pub interfaces: Seq<Seq<char>>,
    pub ipv6_only: bool,
}

/// Describes the SOVD server to announce.
#[derive(Debug, Clone)]
pub struct Announcement {
    addr: SocketAddress,
    host: Option<String>,
    identification: Option<String>,
    scheme: String,
    path: String,
    interfaces: Vec<String>,
    ipv6_only: bool,
}

impl View for Announcement {
    type V = AnnouncementView;

    closed spec fn view(&self) -> AnnouncementView {
        AnnouncementView {
            addr: self.addr,
            host: opt_view(self.host),
            identification: opt_view(self.identification),
            scheme: self.scheme@,
            path: self.path@,
            interfaces: strings_view(self.interfaces@),
            ipv6_only: self.ipv6_only,
        }
    }
}

/// The `accessurl` TXT value for a host label:
/// `<scheme>://<host>.local:<port><path>`.
pub open spec fn access_url_of(a: AnnouncementView, host: Seq<char>) -> Seq<char> {
    a.scheme + "://"@ + host + ".local:"@ + decimal(a.addr.port as nat) + a.path
}

/// The longest suffix a conflict rename appends to a host label.
pub open spec fn longest_rename() -> Seq<char> {
    "-99"@
}

/// Whether the `accessurl` TXT value still fits into its 255 byte TXT string
/// once the host has been renamed after a conflict.
pub open spec fn access_url_fits(a: AnnouncementView, host: Seq<char>) -> bool {
    "accessurl="@.len() + utf8_len(access_url_of(a, host + longest_rename())) <= 255
}

/// How an interface is selected for the responder.
#[derive(Debug, Clone)]
pub enum InterfaceKind {
    /// All interfaces.
    All,
    /// All IPv4 interfaces.
    IPv4,
    /// All IPv6 interfaces.
    IPv6,
    /// The interface with this name.
    Name(String),
    /// The interface carrying this address.
    Addr(IpAddress),
}

/// The interfaces a service is published on: its own interface for a
/// specific address, the configured interfaces by name, else all interfaces
/// of the bound family (IPv6 only when so marked).
pub open spec fn is_interface_selection(a: AnnouncementView, ks: Seq<InterfaceKind>) -> bool {
    if !spec_is_unspecified(a.addr.ip) {
        ks == seq![InterfaceKind::Addr(a.addr.ip)]
    } else if a.interfaces.len() > 0 {
        &&& ks.len() == a.interfaces.len()
        &&& forall|i: int|
            0 <= i < ks.len() ==> (#[trigger] ks[i] matches InterfaceKind::Name(n) && n@
                == a.interfaces[i])
    } else if a.addr.ip is V4 {
        ks == seq![InterfaceKind::IPv4]
    } else if a.ipv6_only {
        ks == seq![InterfaceKind::IPv6]
    } else {
        ks == seq![InterfaceKind::All]
    }
}

} // verus!

verus! {

impl Announcement {
    /// Announces the server bound to `addr`; an IPv4-mapped IPv6 address is
    /// announced as the IPv4 address it maps.
    ///
    /// The scheme defaults to `https` and the base path to empty.
    pub fn new(addr: SocketAddress) -> (r: Self)
        ensures
            r@.addr == (SocketAddress { ip: spec_to_canonical(addr.ip), port: addr.port }),
            r@.host is None,
            r@.identification is None,
            r@.scheme == "https"@,
            r@.path == Seq::<char>::empty(),
            r@.interfaces == Seq::<Seq<char>>::empty(),
            !r@.ipv6_only,
    {
        let r = Announcement {
            addr: SocketAddress { ip: addr.ip.to_canonical(), port: addr.port },
            host: None,
            identification: None,
            scheme: "https".to_owned(),
            path: String::new(),
            interfaces: Vec::new(),
            ipv6_only: false,
        };
        assert(strings_view(r.interfaces@) =~= Seq::<Seq<char>>::empty());
        r
    }

    /// Sets the host label published as `<host>.local`.
    pub fn host(self, host: String) -> (r: Self)
        ensures
            r@ == (AnnouncementView { host: Some(host@), ..self@ }),
    {
        Announcement { host: Some(host), ..self }
    }

    /// Sets the `identification` TXT value, e.g. the VIN.
    pub fn identification(self, identification: String) -> (r: Self)
        ensures
            r@ == (AnnouncementView { identification: Some(identification@), ..self@ }),
    {
        Announcement { identification: Some(identification), ..self }
    }

    /// Sets the scheme and base path of the `accessurl` TXT value; the path
    /// keeps exactly one leading slash and no trailing one.
    pub fn access(self, scheme: &str, path: &str) -> (r: Self)
        ensures
            r@ == (AnnouncementView {
                scheme: scheme@,
                path: normalized_access_path(path@),
                ..self@
            }),
    {
        let v = chars_of(path);
        let t = trim_vec(&v, '/');
        let p = if t.len() == 0 {
            String::new()
        } else {
            let mut p = String::new();
            push_char(&mut p, '/');
            push_all(&mut p, &t);
            p
        };
        assert(p@ =~= normalized_access_path(path@));
        Announcement { scheme: scheme.to_owned(), path: p, ..self }
    }

    /// Limits the announcement to the named network interfaces.
    pub fn interfaces(self, interfaces: Vec<String>) -> (r: Self)
        ensures
            r@ == (AnnouncementView { interfaces: strings_view(interfaces@), ..self@ }),
    {
        Announcement { interfaces, ..self }
    }

    /// Marks an unspecified IPv6 address as IPv6 only.
    pub fn ipv6_only(self, ipv6_only: bool) -> (r: Self)
        ensures
            r@ == (AnnouncementView { ipv6_only, ..self@ }),
    {
        Announcement { ipv6_only, ..self }
    }

    /// The address announced.
    pub fn addr(&self) -> (r: SocketAddress)
        ensures
            r == self@.addr,
    {
        self.addr
    }

    /// The `accessurl` TXT value for `host`.
    pub fn access_url(&self, host: &str) -> (r: String)
        ensures
            r@ == access_url_of(self@, host@),
    {
        let mut s = self.scheme.clone();
        push_str(&mut s, "://");
        push_str(&mut s, host);
        push_str(&mut s, ".local:");
        push_decimal(&mut s, self.addr.port as u64);
        push_str(&mut s, self.path.as_str());
        s
    }

    /// Fails with [`MdnsError::AccessUrlTooLong`], carrying the renamed URL,
    /// when the `accessurl` TXT value would not fit after a rename.
    pub fn check_access_url(&self, host: &str) -> (r: Result<(), MdnsError>)
        ensures
            r is Ok <==> access_url_fits(self@, host@),
            r matches Err(e) ==> e matches MdnsError::AccessUrlTooLong(u) && u@ == access_url_of(
                self@,
                host@ + longest_rename(),
            ),
    {
        let renamed = concat2(host, "-99");
        let url = self.access_url(renamed.as_str());
        let too_long = utf8_len_exceeds(url.as_str(), 245);
        proof {
            reveal_strlit("accessurl=");
            assert("accessurl="@.len() == 10);
            assert(renamed@ == host@ + longest_rename());
        }
        if too_long {
            Err(MdnsError::AccessUrlTooLong(url))
        } else {
            Ok(())
        }
    }

    /// Whether an interface address belongs to the announced family.
    pub fn family_matches(&self, ip: IpAddress) -> (b: bool)
        ensures
            b == match self@.addr.ip {
                IpAddress::V4(_) => ip is V4,
                IpAddress::V6(_) => !self@.ipv6_only || ip is V6,
            },
    {
        match self.addr.ip {
            IpAddress::V4(_) => ip.is_ipv4(),
            IpAddress::V6(_) => !self.ipv6_only || ip.is_ipv6(),
        }
    }

    /// The interfaces the service is published on.
    pub fn interface_kinds(&self) -> (r: Vec<InterfaceKind>)
        ensures
            is_interface_selection(self@, r@),
    {
        let ip = self.addr.ip;
        let mut r: Vec<InterfaceKind> = Vec::new();
        if !ip.is_unspecified() {
            r.push(InterfaceKind::Addr(ip));
            assert(r@ =~= seq![InterfaceKind::Addr(ip)]);
        } else if self.interfaces.len() > 0 {
            r = self.if_names();
        } else if ip.is_ipv4() {
            r.push(InterfaceKind::IPv4);
            assert(r@ =~= seq![InterfaceKind::IPv4]);
        } else if self.ipv6_only {
            r.push(InterfaceKind::IPv6);
            assert(r@ =~= seq![InterfaceKind::IPv6]);
        } else {
            r.push(InterfaceKind::All);
            assert(r@ =~= seq![InterfaceKind::All]);
        }
        r
    }

    /// The configured interfaces, selected by name.
    pub fn if_names(&self) -> (r: Vec<InterfaceKind>)
        ensures
            r@.len() == self@.interfaces.len(),
            forall|i: int|
                0 <= i < r@.len() ==> (#[trigger] r@[i] matches InterfaceKind::Name(n) && n@
                    == self@.interfaces[i]),
    {
        let mut r: Vec<InterfaceKind> = Vec::new();
        for i in 0..self.interfaces.len()
            invariant
                r@.len() == i,
                forall|k: int|
                    0 <= k < i ==> (#[trigger] r@[k] matches InterfaceKind::Name(n) && n@
                        == self@.interfaces[k]),
        {
            r.push(InterfaceKind::Name(self.interfaces[i].clone()));
        }
        r
    }
}

} // verus!

verus! {

/// The part of `s` before its first `.` (all of `s` if it has none).
pub open spec fn first_label(s: Seq<char>) -> Seq<char>
    decreases s.len(),
{
    if s.len() == 0 {
        s
    } else if s[0] == '.' {
        Seq::empty()
    } else {
        seq![s[0]] + first_label(s.drop_first())
    }
}

/// The host label taken from the system host name: the label derived from
/// its first DNS label, else [`FALLBACK_HOST`].
pub open spec fn system_host_of(os_name: Option<Seq<char>>) -> Seq<char> {
    match os_name {
        Some(n) => match host_label_of(first_label(n)) {
            Some(l) => l,
            None => FALLBACK_HOST@,
        },
        None => FALLBACK_HOST@,
    }
}

/// The node name of this machine (`uname`), lossily decoded.
#[verifier::external_body]
fn os_host_name() -> Option<String> {
    Some(rustix::system::uname().nodename().to_string_lossy().into_owned())
}

/// The first DNS label of a host name.
fn first_label_of(name: &str) -> (r: Vec<char>)
    ensures
        r@ == first_label(name@),
{
    let v = chars_of(name);
    let mut i: usize = 0;
    assert(v@.skip(0) =~= v@);
    assert(v@.take(0) + first_label(v@) =~= first_label(v@));
    while i < v.len() && v[i] != '.'
        invariant
            v@ == name@,
            0 <= i <= v.len(),
            first_label(name@) == v@.take(i as int) + first_label(v@.skip(i as int)),
        decreases v.len() - i,
    {
        assert(v@.skip(i as int).drop_first() =~= v@.skip(i + 1));
        assert(v@.take(i + 1) =~= v@.take(i as int) + seq![v@[i as int]]);
        i = i + 1;
    }
    assert(v@.take(v.len() as int) =~= v@);
    sub_vec(&v, 0, i)
}

/// The host label derived from a system host name, see [`system_host_of`].
pub fn system_host_from(os_name: Option<String>) -> (r: String)
    ensures
        r@ == system_host_of(opt_view(os_name)),
{
    match os_name {
        Some(name) => {
            let label = first_label_of(name.as_str());
            let s = string_of(&label);
            match host_from(s.as_str()) {
                Some(l) => l,
                None => FALLBACK_HOST.to_owned(),
            }
        },
        None => FALLBACK_HOST.to_owned(),
    }
}

/// The host label of this machine; always a valid host label.
pub fn system_host() -> (r: String)
    ensures
        valid_host(r@),
{
    let name = os_host_name();
    let r = system_host_from(name);
    proof {
        lemma_system_host_is_valid(opt_view(name));
    }
    r
}

/// The fallback host label is a valid host label.
pub proof fn lemma_fallback_host_is_valid()
    ensures
        valid_host(FALLBACK_HOST@),
{
    reveal_strlit("opensovd");
    assert(FALLBACK_HOST@ =~= seq!['o', 'p', 'e', 'n', 's', 'o', 'v', 'd']);
    assert(valid_host(FALLBACK_HOST@));
}

/// Whatever the system reports, the label taken from it is a valid host.
pub proof fn lemma_system_host_is_valid(os_name: Option<Seq<char>>)
    ensures
        valid_host(system_host_of(os_name)),
{
    lemma_fallback_host_is_valid();
    if let Some(n) = os_name {
        lemma_host_label_is_valid(first_label(n));
    }
}

/// The host label an announcement resolves to: the explicit host if it is
/// valid, else the label derived from the identification, else the system
/// host label (the latter depends on the machine).
pub open spec fn resolves_host(a: AnnouncementView, r: Result<Seq<char>, ()>) -> bool {
    match a.host {
        Some(h) => if valid_host(h) {
            r == Ok::<Seq<char>, ()>(h)
        } else {
            r is Err
        },
        None => match r {
            Ok(l) => valid_host(l) && match a.identification {
                Some(id) => match host_label_of(id) {
                    Some(label) => l == label,
                    None => true,
                },
                None => true,
            },
            Err(_) => false,
        },
    }
}

/// The interfaces a check looks at: name and address.
#[derive(Debug, Clone)]
pub struct NetInterface {
    pub name: String,
    pub ip: IpAddress,
}

/// A comma-separated list.
pub open spec fn join_comma(v: Seq<Seq<char>>) -> Seq<char>
    decreases v.len(),
{
    if v.len() == 0 {
        Seq::empty()
    } else if v.len() == 1 {
        v[0]
    } else {
        join_comma(v.drop_last()) + ","@ + v.last()
    }
}

/// Joins strings with commas.
pub fn join_with_comma(v: &Vec<String>) -> (r: String)
    ensures
        r@ == join_comma(strings_view(v@)),
{
    let mut r = String::new();
    for i in 0..v.len()
        invariant
            r@ == join_comma(strings_view(v@.take(i as int))),
    {
        assert(strings_view(v@.take(i + 1)).drop_last() =~= strings_view(v@.take(i as int)));
        if i > 0 {
            push_str(&mut r, ",");
        }
        push_str(&mut r, v[i].as_str());
        proof {
            if i == 0 {
                assert(strings_view(v@.take(0)) =~= Seq::<Seq<char>>::empty());
                assert(strings_view(v@.take(1)) =~= seq![v@[0]@]);
                assert(r@ =~= v@[0]@);
            }
        }
    }
    assert(v@.take(v.len() as int) =~= v@);
    r
}

/// Whether a listed interface carries the bound address under one of the
/// configured names.
pub open spec fn carries_bound_address(a: AnnouncementView, intfs: Seq<NetInterface>) -> bool {
    exists|k: int|
        0 <= k < intfs.len() && (#[trigger] intfs[k]).ip == a.addr.ip && a.interfaces.contains(
            intfs[k].name@,
        )
}

impl Announcement {
    /// The host label to publish, see [`resolves_host`]; an invalid explicit
    /// host fails with [`MdnsError::InvalidHost`].
    pub fn resolve_host(&self) -> (r: Result<String, MdnsError>)
        ensures
            resolves_host(
                self@,
                match r {
                    Ok(s) => Ok(s@),
                    Err(_) => Err(()),
                },
            ),
            r matches Err(e) ==> e matches MdnsError::InvalidHost(h) && Some(h@) == self@.host,
    {
        if let Some(host) = &self.host {
            match validate_host(host.as_str()) {
                Ok(()) => Ok(host.clone()),
                Err(e) => Err(e),
            }
        } else {
            let derived = match &self.identification {
                Some(id) => host_from(id.as_str()),
                None => None,
            };
            match derived {
                Some(l) => {
                    proof {
                        lemma_host_label_is_valid(self@.identification->Some_0);
                    }
                    Ok(l)
                },
                None => Ok(system_host()),
            }
        }
    }

    /// Checks the configured interfaces against the listed ones: a specific
    /// bound address must be carried by one of them, else
    /// [`MdnsError::InterfaceMismatch`] names the address and the list.
    pub fn check_interfaces_with(&self, intfs: &Vec<NetInterface>) -> (r: Result<(), MdnsError>)
        ensures
            r is Ok <==> (self@.interfaces.len() == 0 || spec_is_unspecified(self@.addr.ip)
                || carries_bound_address(self@, intfs@)),
            r matches Err(e) ==> e matches MdnsError::InterfaceMismatch { ip, interfaces } && ip
                == self@.addr.ip && interfaces@ == join_comma(self@.interfaces),
    {
        if self.interfaces.len() == 0 {
            return Ok(());
        }
        let ip = self.addr.ip;
        if ip.is_unspecified() {
            return Ok(());
        }
        let mut found = false;
        for k in 0..intfs.len()
            invariant
                found <==> exists|j: int|
                    0 <= j < k && (#[trigger] intfs@[j]).ip == ip && self@.interfaces.contains(
                        intfs@[j].name@,
                    ),
        {
            if intfs[k].ip == ip && contains_string(&self.interfaces, &intfs[k].name) {
                found = true;
            }
        }
        if found {
            Ok(())
        } else {
            Err(MdnsError::InterfaceMismatch { ip, interfaces: join_with_comma(&self.interfaces) })
        }
    }

    /// The configured interfaces that carry no usable address yet (no
    /// non-loopback address of the announced family); only an unspecified
    /// bound address is announced on them, so only then are any reported.
    pub fn unusable_interfaces(&self, intfs: &Vec<NetInterface>) -> (r: Vec<String>)
        ensures
            !spec_is_unspecified(self@.addr.ip) ==> r@.len() == 0,
            spec_is_unspecified(self@.addr.ip) ==> strings_view(r@) == self@.interfaces.filter(
                |n: Seq<char>| !usable(self@, intfs@, n),
            ),
    {
        let mut r: Vec<String> = Vec::new();
        if !self.addr.ip.is_unspecified() {
            return r;
        }
        let ghost pred = |n: Seq<char>| !usable(self@, intfs@, n);
        for i in 0..self.interfaces.len()
            invariant
                spec_is_unspecified(self@.addr.ip),
                pred == (|n: Seq<char>| !usable(self@, intfs@, n)),
                strings_view(r@) == self@.interfaces.take(i as int).filter(pred),
        {
            let name = &self.interfaces[i];
            let mut ok = false;
            for k in 0..intfs.len()
                invariant
                    ok <==> exists|j: int|
                        0 <= j < k && usable_at(self@, intfs@, name@, j),
            {
                let intf = &intfs[k];
                if string_eq(&intf.name, name) && !intf.ip.is_loopback() && self.family_matches(
                    intf.ip,
                ) {
                    ok = true;
                    assert(usable_at(self@, intfs@, name@, k as int));
                } else {
                    assert(!usable_at(self@, intfs@, name@, k as int));
                }
            }
            assert(ok == usable(self@, intfs@, name@));
            assert(pred(name@) == !ok);
            assert(self@.interfaces.take(i + 1) =~= self@.interfaces.take(i as int).push(name@));
            proof {
                self@.interfaces.take(i as int).lemma_filter_push(name@, pred);
                assert(self@.interfaces[i as int] == name@);
            }
            if !ok {
                r.push(name.clone());
                assert(strings_view(r@) =~= strings_view(r@.drop_last()).push(name@));
            }
        }
        assert(self@.interfaces.take(self@.interfaces.len() as int) =~= self@.interfaces);
        r
    }
}

/// Whether the interface listed at `j` is a usable announcement target for
/// the configured name `n`.
pub open spec fn usable_at(a: AnnouncementView, intfs: Seq<NetInterface>, n: Seq<char>, j: int) -> bool {
    &&& intfs[j].name@ == n
    &&& !spec_is_loopback(intfs[j].ip)
    &&& match a.addr.ip {
        IpAddress::V4(_) => intfs[j].ip is V4,
        IpAddress::V6(_) => !a.ipv6_only || intfs[j].ip is V6,
    }
}

/// Whether some listed interface named `n` is usable.
pub open spec fn usable(a: AnnouncementView, intfs: Seq<NetInterface>, n: Seq<char>) -> bool {
    exists|j: int| 0 <= j < intfs.len() && usable_at(a, intfs, n, j)
}

/// String equality.
pub fn string_eq(a: &String, b: &String) -> (r: bool)
    ensures
        r == (a@ == b@),
{
    *a == *b
}

/// Whether `v` holds `s`.
pub fn contains_string(v: &Vec<String>, s: &String) -> (r: bool)
    ensures
        r == strings_view(v@).contains(s@),
{
    let mut i: usize = 0;
    while i < v.len()
        invariant
            0 <= i <= v.len(),
            forall|k: int| 0 <= k < i ==> v@[k]@ != s@,
        decreases v.len() - i,
    {
        if string_eq(&v[i], s) {
            assert(strings_view(v@)[i as int] == s@);
            return true;
        }
        i = i + 1;
    }
    assert forall|k: int| 0 <= k < strings_view(v@).len() implies strings_view(v@)[k] != s@ by {
        assert(strings_view(v@)[k] == v@[k]@);
    }
    false
}

} // verus!

verus! {

/// The network interfaces of this host with their addresses
/// (`if_addrs::get_if_addrs`). What it lists depends on the machine.
#[verifier::external_body]
fn list_interfaces() -> (r: Result<Vec<NetInterface>, std::io::Error>) {
    let intfs = if_addrs::get_if_addrs()?;
    Ok(intfs.into_iter().map(|intf| NetInterface {
        ip: match intf.addr {
            if_addrs::IfAddr::V4(a) => IpAddress::V4(u32::from(a.ip)),
            if_addrs::IfAddr::V6(a) => IpAddress::V6(u128::from(a.ip)),
        },
        name: intf.name,
    }).collect())
}

/// A TXT property `key=value` fits into a TXT record string: the key is
/// ASCII without `=`, and key, `=` and value take at most 255 bytes.
pub open spec fn txt_property_fits(key: Seq<char>, value: Seq<char>) -> bool {
    &&& forall|i: int| 0 <= i < key.len() ==> (#[trigger] key[i] as u32) < 0x80
    &&& !key.contains('=')
    &&& utf8_len(key) + 1 + utf8_len(value) <= 255
}

/// The TXT keys are ASCII and pairwise distinct in any letter case. The
/// responder keeps only the first property of a key, case aside; with
/// distinct keys it keeps them all.
pub open spec fn txt_keys_distinct(props: Seq<(String, String)>) -> bool {
    &&& forall|i: int, k: int|
        0 <= i < props.len() && 0 <= k < props[i].0@.len() ==> ((#[trigger] props[i].0@[k]) as u32)
            < 0x80
    &&& forall|i: int, j: int|
        0 <= i < j < props.len() ==> ascii_lower_seq(#[trigger] props[i].0@) != ascii_lower_seq(
            #[trigger] props[j].0@,
        )
}

/// The keys of the TXT properties this crate announces are ASCII and of
/// different lengths.
pub proof fn lemma_txt_keys_are_ascii()
    ensures
        "identification"@.len() == 14,
        "accessurl"@.len() == 9,
        forall|k: int| 0 <= k < 14 ==> ((#[trigger] "identification"@[k]) as u32) < 0x80,
        forall|k: int| 0 <= k < 9 ==> ((#[trigger] "accessurl"@[k]) as u32) < 0x80,
{
    reveal_strlit("identification");
    reveal_strlit("accessurl");
}

/// What a DNS-SD service description is built from, as plain values.
#[derive(Debug, Clone)]
pub struct ServiceDescription {
    /// The service type, such as [`SERVICE_TYPE`].
    pub service_type: String,
    /// The instance name.
    pub instance: String,
    /// The host name, such as `ecu.local.`.
    pub host_name: String,
    /// The one address the service is published at; none where the
    /// responder follows the interface addresses.
    pub address: Option<IpAddress>,
    /// The port of the service.
    pub port: u16,
    /// The TXT properties, in order.
    pub properties: Vec<(String, String)>,
    /// Whether the responder keeps the service's addresses equal to those
    /// of its interfaces as they change.
    pub follow_addresses: bool,
    /// The interfaces the service is published on; where none is listed,
    /// every interface.
    pub interfaces: Vec<InterfaceKind>,
}

/// The DNS-SD escaping of an instance name: each `.` and `\` gets a `\`
/// backslash before it.
pub open spec fn escaped_instance(s: Seq<char>) -> Seq<char>
    decreases s.len(),
{
    if s.len() == 0 {
        Seq::empty()
    } else {
        escaped_instance(s.drop_last()) + if s.last() == '.' || s.last() == '\\' {
            seq!['\\', s.last()]
        } else {
            seq![s.last()]
        }
    }
}

/// The full name of an instance of the SOVD service:
/// `<escaped instance>._sovd._tcp.local.`.
pub open spec fn service_fullname_of(instance: Seq<char>) -> Seq<char> {
    escaped_instance(instance) + "."@ + SERVICE_TYPE@
}

/// Every TXT property of a description fits into a TXT record string.
pub open spec fn txt_fits_all(props: Seq<(String, String)>) -> bool {
    forall|i: int| 0 <= i < props.len() ==> txt_property_fits((#[trigger] props[i]).0@, props[i].1@)
}

/// Checks `d` as a DNS-SD service description and gives the full name of
/// its instance (`mdns_sd::ServiceInfo::new`, then `get_fullname`). With
/// keys that are ASCII and distinct in any letter case, it fails exactly when
/// a TXT property does not fit into a TXT record string.
#[verifier::external_body]
pub(crate) fn service_fullname(d: &ServiceDescription) -> (r: Result<String, mdns_sd::Error>)
    requires
        d.service_type@ == SERVICE_TYPE@,
        txt_keys_distinct(d.properties@),
    ensures
        r is Ok <==> txt_fits_all(d.properties@),
        r matches Ok(f) ==> f@ == service_fullname_of(d.instance@),
{
    let ips: Vec<core::net::IpAddr> = d.address.iter().map(|ip| match *ip {
        IpAddress::V4(a) => core::net::Ipv4Addr::from(a).into(),
        IpAddress::V6(a) => core::net::Ipv6Addr::from(a).into(),
    }).collect();
    let info = mdns_sd::ServiceInfo::new(&d.service_type, &d.instance, &d.host_name, &ips[..], d.port, &d.properties[..])?;
    Ok(info.get_fullname().to_owned())
}

/// The TXT properties of the announcement: `identification` when one is
/// set, then `accessurl`.
pub open spec fn txt_properties_of(a: AnnouncementView, host: Seq<char>) -> Seq<(Seq<char>, Seq<char>)> {
    let url = seq![("accessurl"@, access_url_of(a, host))];
    match a.identification {
        Some(id) => seq![("identification"@, id)] + url,
        None => url,
    }
}

/// Every TXT property fits into a TXT record string.
pub open spec fn txt_fits_all_of(props: Seq<(Seq<char>, Seq<char>)>) -> bool {
    forall|i: int| 0 <= i < props.len() ==> txt_property_fits((#[trigger] props[i]).0, props[i].1)
}

/// `d` describes the announcement's service for `instance` on `host`.
pub open spec fn described(a: AnnouncementView, instance: Seq<char>, host: Seq<char>, d: ServiceDescription) -> bool {
    &&& d.service_type@ == SERVICE_TYPE@
    &&& d.instance@ == instance
    &&& d.host_name@ == host + ".local."@
    &&& d.address is None
    &&& d.port == a.addr.port
    &&& d.follow_addresses
    &&& d.properties@.len() == txt_properties_of(a, host).len()
    &&& forall|i: int|
        0 <= i < d.properties@.len() ==> (#[trigger] d.properties@[i]).0@ == txt_properties_of(
            a,
            host,
        )[i].0 && d.properties@[i].1@ == txt_properties_of(a, host)[i].1
    &&& is_interface_selection(a, d.interfaces@)
}

/// A service description the responder accepts, with the full name of its
/// instance.
pub struct BuiltService {
    /// The service.
    pub description: ServiceDescription,
    /// The full DNS-SD instance name.
    pub fullname: String,
}

/// A service prepared for the responder.
pub struct PreparedService {
    /// The host label.
    pub host: String,
    /// The instance name: the host label in lower case.
    pub instance: String,
    /// The service.
    pub description: ServiceDescription,
    /// The full DNS-SD instance name.
    pub fullname: String,
}

impl Announcement {
    /// The TXT properties of the announcement, see [`txt_properties_of`].
    pub fn txt_properties(&self, host: &str) -> (r: Vec<(String, String)>)
        ensures
            r@.len() == txt_properties_of(self@, host@).len(),
            forall|i: int|
                0 <= i < r@.len() ==> (#[trigger] r@[i]).0@ == txt_properties_of(self@, host@)[i].0
                    && r@[i].1@ == txt_properties_of(self@, host@)[i].1,
    {
        let mut r: Vec<(String, String)> = Vec::new();
        if let Some(id) = &self.identification {
            r.push(("identification".to_owned(), id.clone()));
        }
        r.push(("accessurl".to_owned(), self.access_url(host)));
        r
    }

    /// The plain description of the service for `instance` on `host`: the
    /// SOVD service type, the host name `<host>.local.`, no fixed address,
    /// the bound port, the TXT properties, addresses that follow those of the
    /// interfaces, and the interfaces of [`Announcement::interface_kinds`].
    pub fn service_description(&self, instance: &str, host: &str) -> (r: ServiceDescription)
        ensures
            described(self@, instance@, host@, r),
    {
        ServiceDescription {
            service_type: SERVICE_TYPE.to_owned(),
            instance: instance.to_owned(),
            host_name: concat2(host, ".local."),
            address: None,
            port: self.addr.port,
            properties: self.txt_properties(host),
            follow_addresses: true,
            interfaces: self.interface_kinds(),
        }
    }

    /// Checks the responder's service against its description and gives the
    /// full name of the instance.
    fn checked_fullname(&self, d: &ServiceDescription, Ghost(host): Ghost<Seq<char>>) -> (r: Result<
        String,
        MdnsError,
    >)
        requires
            described(self@, d.instance@, host, *d),
        ensures
            r is Ok <==> txt_fits_all_of(txt_properties_of(self@, host)),
            r matches Ok(f) ==> f@ == service_fullname_of(d.instance@),
            r matches Err(e) ==> e is Daemon,
    {
        proof {
            lemma_txt_keys_are_ascii();
            let t = txt_properties_of(self@, host);
            let properties = d.properties@;
            assert forall|i: int, k: int|
                0 <= i < properties.len() && 0 <= k < properties[i].0@.len() implies ((
            #[trigger] properties[i].0@[k]) as u32) < 0x80 by {
                assert(properties[i].0@ == t[i].0);
                if self@.identification is Some && i == 0 {
                    assert(t[i].0 == "identification"@);
                } else {
                    assert(t[i].0 == "accessurl"@);
                }
            }
            assert forall|i: int, j: int| 0 <= i < j < properties.len() implies ascii_lower_seq(
                #[trigger] properties[i].0@,
            ) != ascii_lower_seq(#[trigger] properties[j].0@) by {
                assert(properties[i].0@ == t[i].0);
                assert(properties[j].0@ == t[j].0);
                assert(t[i].0 == "identification"@);
                assert(t[j].0 == "accessurl"@);
                assert(ascii_lower_seq(t[i].0).len() == 14);
                assert(ascii_lower_seq(t[j].0).len() == 9);
            }
            assert(txt_fits_all(d.properties@) == txt_fits_all_of(t)) by {
                if txt_fits_all(d.properties@) {
                    assert forall|i: int| 0 <= i < t.len() implies txt_property_fits(
                        (#[trigger] t[i]).0,
                        t[i].1,
                    ) by {
                        assert(txt_property_fits(properties[i].0@, properties[i].1@));
                    }
                }
                if txt_fits_all_of(t) {
                    assert forall|i: int| 0 <= i < properties.len() implies txt_property_fits(
                        (#[trigger] properties[i]).0@,
                        properties[i].1@,
                    ) by {
                        assert(txt_property_fits(t[i].0, t[i].1));
                    }
                }
            }
        }
        match service_fullname(d) {
            Ok(fullname) => Ok(fullname),
            Err(e) => Err(MdnsError::Daemon(e)),
        }
    }

    /// The responder's service for `instance` on `host`: the description of
    /// [`Announcement::service_description`], checked by the responder, with
    /// the full name of the instance. Fails with [`MdnsError::Daemon`] when a
    /// TXT property does not fit.
    pub fn service_info(&self, instance: &str, host: &str) -> (r: Result<BuiltService, MdnsError>)
        ensures
            r is Ok <==> txt_fits_all_of(txt_properties_of(self@, host@)),
            r matches Ok(b) ==> described(self@, instance@, host@, b.description) && b.fullname@
                == service_fullname_of(instance@),
            r matches Err(e) ==> e is Daemon,
    {
        let description = self.service_description(instance, host);
        match self.checked_fullname(&description, Ghost(host@)) {
            Ok(fullname) => Ok(BuiltService { description, fullname }),
            Err(e) => Err(e),
        }
    }

    /// Checks the configured interfaces against those of this host, see
    /// [`Announcement::check_interfaces_with`]; nothing is listed when no
    /// interface is configured.
    pub fn check_interfaces(&self) -> (r: Result<(), MdnsError>)
        ensures
            self@.interfaces.len() == 0 ==> r is Ok,
            r matches Err(e) ==> (e is Interfaces || (e matches MdnsError::InterfaceMismatch {
                ip,
                interfaces,
            } && ip == self@.addr.ip && interfaces@ == join_comma(self@.interfaces))),
            r matches Err(MdnsError::InterfaceMismatch { .. }) ==> !spec_is_unspecified(
                self@.addr.ip,
            ),
    {
        if self.interfaces.len() == 0 {
            return Ok(());
        }
        match list_interfaces() {
            Ok(intfs) => self.check_interfaces_with(&intfs),
            Err(e) => Err(MdnsError::Interfaces(e)),
        }
    }

    /// Everything `announce` decides before it starts the responder: the
    /// host label, the interfaces, the instance name (the host in lower
    /// case), the room for a rename in the `accessurl`, and the service
    /// description, checked in this order.
    pub fn prepare(&self) -> (r: Result<PreparedService, MdnsError>)
        ensures
            r matches Err(MdnsError::InvalidHost(_)) <==> (self@.host matches Some(h) && !valid_host(
                h,
            )),
            r matches Ok(p) ==> {
                &&& resolves_host(self@, Ok(p.host@))
                &&& p.instance@ == ascii_lower_seq(p.host@)
                &&& access_url_fits(self@, p.host@)
                &&& described(self@, p.instance@, p.host@, p.description)
                &&& p.fullname@ == p.instance@ + "."@ + SERVICE_TYPE@
            },
            r matches Err(MdnsError::AccessUrlTooLong(u)) ==> exists|h: Seq<char>|
                resolves_host(self@, Ok(h)) && !access_url_fits(self@, h) && u@ == access_url_of(
                    self@,
                    h + longest_rename(),
                ),
            match determined_host(self@) {
                Some(h) => self@.interfaces.len() == 0 ==> if !access_url_fits(self@, h) {
                    r matches Err(MdnsError::AccessUrlTooLong(u)) && u@ == access_url_of(
                        self@,
                        h + longest_rename(),
                    )
                } else if txt_fits_all_of(txt_properties_of(self@, h)) {
                    r matches Ok(p) && p.host@ == h
                } else {
                    r matches Err(e) && e is Daemon
                },
                None => true,
            },
    {
        let host = self.resolve_host()?;
        self.check_interfaces()?;
        let instance = to_ascii_lowercase(host.as_str());
        self.check_access_url(host.as_str())?;
        let built = self.service_info(instance.as_str(), host.as_str())?;
        let BuiltService { description, fullname } = built;
        proof {
            lemma_lower_label_is_plain(host@);
            lemma_escape_plain(instance@);
        }
        Ok(PreparedService { host, instance, description, fullname })
    }
}

/// The host label an announcement resolves to without asking the system: the
/// explicit host where it is valid, else the label of the identification.
pub open spec fn determined_host(a: AnnouncementView) -> Option<Seq<char>> {
    match a.host {
        Some(h) => if valid_host(h) {
            Some(h)
        } else {
            None
        },
        None => match a.identification {
            Some(id) => host_label_of(id),
            None => None,
        },
    }
}

/// A host label in lower case holds no `.` and no backslash.
proof fn lemma_lower_label_is_plain(h: Seq<char>)
    requires
        valid_host(h),
    ensures
        forall|i: int|
            0 <= i < ascii_lower_seq(h).len() ==> #[trigger] ascii_lower_seq(h)[i] != '.'
                && ascii_lower_seq(h)[i] != '\\',
{
    assert forall|i: int| 0 <= i < ascii_lower_seq(h).len() implies #[trigger] ascii_lower_seq(
        h,
    )[i] != '.' && ascii_lower_seq(h)[i] != '\\' by {
        assert(is_ascii_alnum(h[i]) || h[i] == '-');
        assert(ascii_lower_seq(h)[i] == ascii_lower(h[i]));
    }
}

/// A name without `.` or backslash needs no escaping.
proof fn lemma_escape_plain(s: Seq<char>)
    requires
        forall|i: int| 0 <= i < s.len() ==> #[trigger] s[i] != '.' && s[i] != '\\',
    ensures
        escaped_instance(s) == s,
    decreases s.len(),
{
    if s.len() > 0 {
        assert forall|i: int| 0 <= i < s.drop_last().len() implies #[trigger] s.drop_last()[i]
            != '.' && s.drop_last()[i] != '\\' by {
            assert(s.drop_last()[i] == s[i]);
        }
        lemma_escape_plain(s.drop_last());
        assert(s[s.len() - 1] != '.');
        assert(escaped_instance(s) =~= s.drop_last().push(s.last()));
        assert(s.drop_last().push(s.last()) =~= s);
    }
}

} // verus!

verus! {

/// One step of setting up the responder's interfaces.
#[derive(Debug, Clone, Copy, PartialEq, Eq, Structural)]
pub enum ResponderStep {
    /// Disable every interface.
    DisableAll,
    /// Enable the interface carrying this address.
    EnableAddr(IpAddress),
    /// Enable the configured interfaces by name.
    EnableNames,
    /// Disable the IPv4 and IPv6 loopback interfaces.
    DisableLoopback,
    /// Disable all IPv6 interfaces.
    DisableIPv6,
    /// Disable all IPv4 interfaces.
    DisableIPv4,
}

/// How the responder's interfaces are set up before the service is
/// registered: a specific address enables only its own interface,
/// configured names only those interfaces; loopback is off unless bound to
/// it; an unspecified IPv4 address turns IPv6 off, an IPv6-only one IPv4.
pub open spec fn responder_steps_of(a: AnnouncementView) -> Seq<ResponderStep> {
    let ip = a.addr.ip;
    let first = if !spec_is_unspecified(ip) {
        seq![ResponderStep::DisableAll, ResponderStep::EnableAddr(ip)]
    } else if a.interfaces.len() > 0 {
        seq![ResponderStep::DisableAll, ResponderStep::EnableNames]
    } else {
        Seq::empty()
    };
    let lo = if !spec_is_loopback(ip) {
        seq![ResponderStep::DisableLoopback]
    } else {
        Seq::empty()
    };
    let v4 = if spec_is_unspecified(ip) && ip is V4 {
        seq![ResponderStep::DisableIPv6]
    } else {
        Seq::empty()
    };
    let v6 = if spec_is_unspecified(ip) && ip is V6 && a.ipv6_only {
        seq![ResponderStep::DisableIPv4]
    } else {
        Seq::empty()
    };
    first + lo + v4 + v6
}

impl Announcement {
    /// The interface setup of the responder, see [`responder_steps_of`].
    pub fn responder_steps(&self) -> (r: Vec<ResponderStep>)
        ensures
            r@ == responder_steps_of(self@),
    {
        let ip = self.addr.ip;
        let mut r: Vec<ResponderStep> = Vec::new();
        if !ip.is_unspecified() {
            r.push(ResponderStep::DisableAll);
            r.push(ResponderStep::EnableAddr(ip));
        } else if self.interfaces.len() > 0 {
            r.push(ResponderStep::DisableAll);
            r.push(ResponderStep::EnableNames);
        }
        let ghost first = r@;
        if !ip.is_loopback() {
            r.push(ResponderStep::DisableLoopback);
        }
        let ghost lo = r@;
        if ip.is_unspecified() && ip.is_ipv4() {
            r.push(ResponderStep::DisableIPv6);
        }
        let ghost v4 = r@;
        if ip.is_unspecified() && ip.is_ipv6() && self.ipv6_only {
            r.push(ResponderStep::DisableIPv4);
        }
        assert(r@ =~= responder_steps_of(self@));
        r
    }

    /// The interfaces named in the announcement, for the responder.
    pub fn interface_names(&self) -> (r: Vec<String>)
        ensures
            strings_view(r@) == self@.interfaces,
    {
        let r = self.interfaces.clone();
        assert(strings_view(r@) =~= self@.interfaces);
        r
    }
}

/// `s` with every trailing copy of `p` removed (`str::trim_end_matches`).
pub open spec fn trim_end_seq(s: Seq<char>, p: Seq<char>) -> Seq<char>
    decreases s.len(),
{
    if p.len() > 0 && s.len() >= p.len() && s.subrange(s.len() - p.len(), s.len() as int) == p {
        trim_end_seq(s.subrange(0, s.len() - p.len()), p)
    } else {
        s
    }
}

/// The host label of a renamed host name such as `ecu-2.local.`.
pub open spec fn renamed_label(new_name: Seq<char>) -> Seq<char> {
    trim_end_seq(trim_end_ch(new_name, '.'), ".local"@)
}

/// A valid host label has no `.`, so no `.local` to trim from its end.
proof fn lemma_label_keeps_its_end(l: Seq<char>)
    requires
        valid_host(l),
    ensures
        trim_end_seq(l, ".local"@) == l,
        trim_end_ch(l, '.') == l,
{
    reveal_strlit(".local");
    assert(l.last() == l[l.len() - 1]);
    assert(is_ascii_alnum(l[l.len() - 1]) || l[l.len() - 1] == '-');
    if l.len() >= 6 && l.subrange(l.len() - 6, l.len() as int) == ".local"@ {
        assert(l.subrange(l.len() - 6, l.len() as int)[0] == '.');
        assert(l[l.len() - 6] == '.');
        assert(is_ascii_alnum(l[l.len() - 6]) || l[l.len() - 6] == '-');
    }
}

/// The label taken from the name the responder gives a valid host `l`,
/// `l.local.`, is `l` itself, and so is the label of `l.` and of `l`.
pub proof fn lemma_renamed_label_of_host(l: Seq<char>)
    requires
        valid_host(l),
    ensures
        renamed_label(l + ".local."@) == l,
        renamed_label(l + "."@) == l,
        renamed_label(l) == l,
{
    reveal_strlit(".local.");
    reveal_strlit(".local");
    reveal_strlit(".");
    lemma_label_keeps_its_end(l);
    let full = l + ".local."@;
    let with_local = l + ".local"@;
    assert(full.drop_last() =~= with_local);
    assert(full.last() == '.');
    assert(with_local.last() == 'l');
    assert(trim_end_ch(with_local, '.') == with_local);
    assert(trim_end_ch(full, '.') == with_local);
    assert(with_local.subrange(with_local.len() - 6, with_local.len() as int) =~= ".local"@);
    assert(with_local.subrange(0, with_local.len() - 6) =~= l);
    assert(trim_end_seq(with_local, ".local"@) == l);
    let dotted = l + "."@;
    assert(dotted.drop_last() =~= l);
    assert(dotted.last() == '.');
    assert(trim_end_ch(dotted, '.') == l);
}

/// What the responder task does when its host name was renamed after a
/// conflict.
#[derive(Debug)]
pub enum HostRename {
    /// The announcement is being withdrawn; nothing is followed.
    Stopping,
    /// The new name is no valid host label; the rename is not followed.
    Rejected(MdnsError),
    /// The host already has this label; the rename is not yet followed.
    Unchanged,
    /// Register the service again under this host label.
    Follow(String),
}

/// Whether `v[..end]` ends with `p`.
fn ends_with_at(v: &Vec<char>, end: usize, p: &Vec<char>) -> (b: bool)
    requires
        end <= v.len(),
    ensures
        b == (end >= p.len() && v@.subrange(end - p.len(), end as int) == p@),
{
    if end < p.len() {
        return false;
    }
    let start = end - p.len();
    let mut i: usize = 0;
    while i < p.len()
        invariant
            start + p.len() == end <= v.len(),
            0 <= i <= p.len(),
            forall|k: int| 0 <= k < i ==> v@[start + k] == p@[k],
        decreases p.len() - i,
    {
        if v[start + i] != p[i] {
            assert(v@.subrange(start as int, end as int)[i as int] != p@[i as int]);
            return false;
        }
        i = i + 1;
    }
    assert(v@.subrange(start as int, end as int) =~= p@);
    true
}

/// The host label of a renamed host name, see [`renamed_label`].
pub fn renamed_host_label(new_name: &str) -> (r: String)
    ensures
        r@ == renamed_label(new_name@),
{
    let v = chars_of(new_name);
    let e = trailing_end(&v, 0, v.len(), '.');
    assert(v@.subrange(0, v.len() as int) =~= v@);
    let suffix = chars_of(".local");
    let ghost t = v@.subrange(0, e as int);
    let mut end = e;
    while ends_with_at(&v, end, &suffix)
        invariant
            end <= e <= v.len(),
            suffix@ == ".local"@,
            trim_end_seq(t, ".local"@) == trim_end_seq(v@.subrange(0, end as int), ".local"@),
            t == v@.subrange(0, e as int),
        decreases end,
    {
        proof {
            reveal_strlit(".local");
            assert(v@.subrange(0, end as int).subrange(end - 6, end as int) =~= v@.subrange(
                end - 6,
                end as int,
            ));
            assert(v@.subrange(0, end as int).subrange(0, end - 6) =~= v@.subrange(0, end - 6));
        }
        end = end - suffix.len();
    }
    proof {
        reveal_strlit(".local");
        if end >= 6 {
            assert(v@.subrange(0, end as int).subrange(end - 6, end as int) =~= v@.subrange(
                end - 6,
                end as int,
            ));
        }
    }
    let l = sub_vec(&v, 0, end);
    string_of(&l)
}

/// Decides how to follow a host rename, given whether the announcement is
/// being withdrawn and the current host label.
pub fn decide_host_rename(stopping: bool, new_name: &str, current: &str) -> (r: HostRename)
    ensures
        stopping ==> r is Stopping,
        !stopping && !valid_host(renamed_label(new_name@)) ==> (r matches HostRename::Rejected(e)
            && e matches MdnsError::InvalidHost(h) && h@ == renamed_label(new_name@)),
        !stopping && valid_host(renamed_label(new_name@)) && renamed_label(new_name@) == current@
            ==> r is Unchanged,
        !stopping && valid_host(renamed_label(new_name@)) && renamed_label(new_name@) != current@
            ==> (r matches HostRename::Follow(l) && l@ == renamed_label(new_name@)),
{
    if stopping {
        return HostRename::Stopping;
    }
    let label = renamed_host_label(new_name);
    if let Err(e) = validate_host(label.as_str()) {
        return HostRename::Rejected(e);
    }
    let cur = current.to_owned();
    if string_eq(&label, &cur) {
        HostRename::Unchanged
    } else {
        HostRename::Follow(label)
    }
}

/// The published host name of a host label: `<label>.local.`.
pub fn announced_host(label: &str) -> (r: String)
    ensures
        r@ == label@ + ".local."@,
{
    concat2(label, ".local.")
}

/// The instance name after the responder reported `new_name`: `Some` with
/// the new name when it differs from the current one.
pub fn renamed_fullname(current: &str, new_name: String) -> (r: Option<String>)
    ensures
        r is Some <==> current@ != new_name@,
        r matches Some(n) ==> n@ == new_name@,
{
    let cur = current.to_owned();
    if string_eq(&cur, &new_name) {
        None
    } else {
        Some(new_name)
    }
}

/// What the responder task reacts to.
#[derive(Debug, Clone, Copy, PartialEq, Eq, Structural)]
pub enum WatchEvent {
    /// The service was announced on an interface.
    Announced,
    /// An address record was renamed after a conflict.
    AddressRenamed,
    /// Another record, the instance name, was renamed.
    InstanceRenamed,
    /// The responder reported an error.
    ResponderError,
    /// No announcement came within the announce timeout.
    DeadlinePassed,
    /// The responder's event channel closed.
    Closed,
    /// Any other event.
    Other,
}

/// What the responder task does next.
#[derive(Debug, Clone, Copy, PartialEq, Eq, Structural)]
pub enum WatchAction {
    /// Wait for the next event.
    Continue,
    /// Follow the host rename (see [`decide_host_rename`]).
    FollowHost,
    /// Warn once that the host conflict persists.
    WarnConflictPersists,
    /// Record the new instance name.
    RenameInstance,
    /// Log the responder error.
    WarnResponderError,
    /// Warn that nothing has been announced yet.
    WarnNotAnnounced,
    /// End the task.
    Stop,
}

/// The state of the responder task.
#[derive(Debug, Clone, Copy, PartialEq, Eq, Structural)]
pub struct WatchState {
    /// A host rename has been followed.
    pub followed: bool,
    /// The persisting conflict has been warned about.
    pub warned: bool,
    /// The announce timeout is still running.
    pub waiting: bool,
}

impl WatchState {
    /// The state the task starts in.
    pub fn new() -> (r: WatchState)
        ensures
            r == (WatchState { followed: false, warned: false, waiting: true }),
    {
        WatchState { followed: false, warned: false, waiting: true }
    }
}

/// The transition of the responder task.
pub open spec fn watch_transition(s: WatchState, e: WatchEvent) -> (WatchState, WatchAction) {
    match e {
        WatchEvent::Announced => (WatchState { waiting: false, ..s }, WatchAction::Continue),
        WatchEvent::AddressRenamed => if !s.followed {
            (s, WatchAction::FollowHost)
        } else if !s.warned {
            (WatchState { warned: true, ..s }, WatchAction::WarnConflictPersists)
        } else {
            (s, WatchAction::Continue)
        },
        WatchEvent::InstanceRenamed => (s, WatchAction::RenameInstance),
        WatchEvent::ResponderError => (s, WatchAction::WarnResponderError),
        WatchEvent::DeadlinePassed => if s.waiting {
            (WatchState { waiting: false, ..s }, WatchAction::WarnNotAnnounced)
        } else {
            (s, WatchAction::Continue)
        },
        WatchEvent::Closed => (s, WatchAction::Stop),
        WatchEvent::Other => (s, WatchAction::Continue),
    }
}

/// One step of the responder task, see [`watch_transition`]. The
/// persisting conflict is warned about at most once, and neither a followed
/// rename nor that warning is ever forgotten.
pub fn watch_step(s: WatchState, e: WatchEvent) -> (r: (WatchState, WatchAction))
    ensures
        r == watch_transition(s, e),
        s.followed ==> r.0.followed,
        s.warned ==> r.0.warned,
        r.1 == WatchAction::WarnConflictPersists ==> !s.warned && r.0.warned,
{
    match e {
        WatchEvent::Announced => (WatchState { waiting: false, ..s }, WatchAction::Continue),
        WatchEvent::AddressRenamed => if !s.followed {
            (s, WatchAction::FollowHost)
        } else if !s.warned {
            (WatchState { warned: true, ..s }, WatchAction::WarnConflictPersists)
        } else {
            (s, WatchAction::Continue)
        },
        WatchEvent::InstanceRenamed => (s, WatchAction::RenameInstance),
        WatchEvent::ResponderError => (s, WatchAction::WarnResponderError),
        WatchEvent::DeadlinePassed => if s.waiting {
            (WatchState { waiting: false, ..s }, WatchAction::WarnNotAnnounced)
        } else {
            (s, WatchAction::Continue)
        },
        WatchEvent::Closed => (s, WatchAction::Stop),
        WatchEvent::Other => (s, WatchAction::Continue),
    }
}

/// The state of the responder task after a run of events.
pub open spec fn watch_run(s: WatchState, es: Seq<WatchEvent>) -> WatchState
    decreases es.len(),
{
    if es.len() == 0 {
        s
    } else {
        watch_transition(watch_run(s, es.drop_last()), es.last()).0
    }
}

/// How often the task warned that a host conflict persists over a run of
/// events.
pub open spec fn watch_warnings(s: WatchState, es: Seq<WatchEvent>) -> nat
    decreases es.len(),
{
    if es.len() == 0 {
        0
    } else {
        watch_warnings(s, es.drop_last()) + if watch_transition(
            watch_run(s, es.drop_last()),
            es.last(),
        ).1 == WatchAction::WarnConflictPersists {
            1nat
        } else {
            0nat
        }
    }
}

/// Over any run of events: a followed rename and the conflict warning are
/// never forgotten; once a rename is followed, no later address rename is
/// followed again; the persisting conflict is warned about at most once; and
/// the task stops on exactly the closing of its event channel.
pub proof fn lemma_watch_run(s: WatchState, es: Seq<WatchEvent>, e: WatchEvent)
    ensures
        s.followed ==> watch_run(s, es).followed,
        s.warned ==> watch_run(s, es).warned,
        watch_run(s, es).followed ==> watch_transition(watch_run(s, es), WatchEvent::AddressRenamed).1
            != WatchAction::FollowHost,
        watch_warnings(s, es) == if watch_run(s, es).warned && !s.warned {
            1nat
        } else {
            0nat
        },
        (watch_transition(watch_run(s, es), e).1 == WatchAction::Stop) == (e == WatchEvent::Closed),
    decreases es.len(),
{
    if es.len() > 0 {
        lemma_watch_run(s, es.drop_last(), e);
    }
}

/// The state after a host rename was handled: it counts as followed unless
/// the host already had the new label.
pub fn after_host_rename(s: WatchState, outcome: &HostRename) -> (r: WatchState)
    ensures
        r == (WatchState { followed: !(outcome is Unchanged), ..s }),
{
    match outcome {
        HostRename::Unchanged => WatchState { followed: false, ..s },
        _ => WatchState { followed: true, ..s },
    }
}

} // verus!

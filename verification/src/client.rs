//! The SOVD client's addressing: where each request of an entity handle goes,
//! which links a handle navigates by, and how long to wait between retries.

use vstd::prelude::*;

use vstd::arithmetic::power2::pow2;
use vstd::string::StringSliceAdditionalSpecFns;

use crate::gateway::{parse_uri, uri_parts};
use crate::models::UriReference;
use crate::text::{chars_of, concat2, push_char, push_str, string_of};

verus! {

/// How the client authenticates.
#[derive(Clone)]
#[non_exhaustive]
pub enum Auth {
    /// A bearer token sent in the `Authorization` header of every request.
    Bearer(String),
}

impl Auth {
    /// Bearer token authentication.
    pub fn bearer(token: &str) -> (r: Self)
        ensures
            r matches Auth::Bearer(t) && t@ == token@,
    {
        Auth::Bearer(token.to_owned())
    }

    /// The text that stands for the value in logs: the token is never shown.
    pub fn redacted(&self) -> (r: &'static str)
        ensures
            r@ == "Bearer(****)"@,
    {
        match self {
            Auth::Bearer(_) => "Bearer(****)",
        }
    }
}

impl From<String> for Auth {
    fn from(value: String) -> (r: Self) {
        Auth::Bearer(value)
    }
}

impl vstd::std_specs::convert::FromSpecImpl<String> for Auth {
    open spec fn obeys_from_spec() -> bool {
        true
    }

    open spec fn from_spec(v: String) -> Self {
        Auth::Bearer(v)
    }
}

/// A byte that a path segment carries as it is: an unreserved character of
/// RFC 3986 (letters, digits, `-`, `.`, `_`, `~`).
pub open spec fn is_unreserved(b: u8) -> bool {
    ||| 48 <= b <= 57
    ||| 65 <= b <= 90
    ||| 97 <= b <= 122
    ||| b == 45
    ||| b == 46
    ||| b == 95
    ||| b == 126
}

/// The upper-case hexadecimal digit of `d < 16`.
pub open spec fn hex_digit(d: int) -> char {
    if d < 10 {
        ((d + 48) as u32) as char
    } else {
        ((d + 55) as u32) as char
    }
}

/// The percent-encoding of bytes: unreserved bytes as they are, every other
/// byte as `%` and two upper-case hexadecimal digits.
pub open spec fn percent_encoded(b: Seq<u8>) -> Seq<char>
    decreases b.len(),
{
    if b.len() == 0 {
        Seq::empty()
    } else {
        let x = b.last();
        percent_encoded(b.drop_last()) + if is_unreserved(x) {
            seq![(x as u32) as char]
        } else {
            seq!['%', hex_digit(x as int / 16), hex_digit(x as int % 16)]
        }
    }
}

/// An encoded id stays one path segment: it holds no `/`, `?` or `#`, and
/// an id made of unreserved characters only is left as it is.
pub proof fn lemma_encoded_is_one_segment(b: Seq<u8>)
    ensures
        forall|i: int|
            0 <= i < percent_encoded(b).len() ==> {
                let c = #[trigger] percent_encoded(b)[i];
                c != '/' && c != '?' && c != '#'
            },
        (forall|i: int| 0 <= i < b.len() ==> is_unreserved(#[trigger] b[i])) ==> percent_encoded(b)
            == b.map_values(|x: u8| (x as u32) as char),
    decreases b.len(),
{
    if b.len() > 0 {
        let p = b.drop_last();
        lemma_encoded_is_one_segment(p);
        let x = b.last();
        let e = percent_encoded(b);
        let ep = percent_encoded(p);
        assert forall|i: int| 0 <= i < e.len() implies {
            let c = #[trigger] e[i];
            c != '/' && c != '?' && c != '#'
        } by {
            if i < ep.len() {
                assert(e[i] == ep[i]);
            } else if is_unreserved(x) {
                assert(e[i] == (x as u32) as char);
            } else {
                let hi = x as int / 16;
                let lo = x as int % 16;
                assert(0 <= hi < 16 && 0 <= lo < 16);
            }
        }
        if forall|i: int| 0 <= i < b.len() ==> is_unreserved(#[trigger] b[i]) {
            assert forall|i: int| 0 <= i < p.len() implies is_unreserved(#[trigger] p[i]) by {
                assert(p[i] == b[i]);
            }
            assert(is_unreserved(b[b.len() - 1]));
            assert(e =~= b.map_values(|x: u8| (x as u32) as char));
        }
    }
}

fn hex_char(d: u8) -> (c: char)
    requires
        d < 16,
    ensures
        c == hex_digit(d as int),
{
    if d < 10 {
        (d + 48) as char
    } else {
        (d + 55) as char
    }
}

/// Percent-encodes an id for use as one path segment.
pub fn encode(id: &str) -> (r: String)
    ensures
        r@ == percent_encoded(id.spec_bytes()),
{
    let bytes = id.as_bytes();
    let mut s = String::new();
    for i in 0..bytes.len()
        invariant
            bytes@ == id.spec_bytes(),
            s@ == percent_encoded(bytes@.take(i as int)),
    {
        let b = bytes[i];
        assert(bytes@.take(i + 1).drop_last() =~= bytes@.take(i as int));
        if (48 <= b && b <= 57) || (65 <= b && b <= 90) || (97 <= b && b <= 122) || b == 45 || b
            == 46 || b == 95 || b == 126 {
            push_char(&mut s, b as char);
        } else {
            push_char(&mut s, '%');
            push_char(&mut s, hex_char(b / 16));
            push_char(&mut s, hex_char(b % 16));
        }
        assert(s@ =~= percent_encoded(bytes@.take(i + 1)));
    }
    assert(bytes@.take(bytes@.len() as int) =~= bytes@);
    s
}

/// Where the client sends its requests: the base URL of the SOVD API, such
/// as `http://localhost/sovd/v1`.
#[derive(Debug, Clone)]
pub struct Client {
    base: String,
}

/// The index of the first `/` at or after `from`, or the length.
pub open spec fn slash_from(s: Seq<char>, from: int) -> int
    decreases s.len() - from,
{
    if from >= s.len() {
        s.len() as int
    } else if s[from] == '/' {
        from
    } else {
        slash_from(s, from + 1)
    }
}

/// The index just past the `://` of a URL, or 0 where it has none.
pub open spec fn authority_start(s: Seq<char>) -> nat
    decreases s.len(),
{
    if s.len() < 3 {
        0
    } else if s.subrange(0, 3) == seq![':', '/', '/'] {
        3
    } else {
        let rest = authority_start(s.drop_first());
        if rest == 0 {
            0
        } else {
            rest + 1
        }
    }
}


/// The scheme and authority of a URL: everything before the path.
pub open spec fn origin_of(s: Seq<char>) -> Seq<char> {
    s.take(slash_from(s, authority_start(s) as int))
}

/// Where no `:` comes before it, the authority starts just past the first
/// `://`.
proof fn lemma_authority_start(scheme: Seq<char>, rest: Seq<char>)
    requires
        !scheme.contains(':'),
    ensures
        authority_start(scheme + "://"@ + rest) == scheme.len() + 3,
    decreases scheme.len(),
{
    reveal_strlit("://");
    let s = scheme + "://"@ + rest;
    if scheme.len() == 0 {
        assert(s.subrange(0, 3) =~= seq![':', '/', '/']);
    } else {
        assert(s[0] == scheme[0]);
        assert(scheme[0] != ':');
        assert(s.subrange(0, 3)[0] != ':');
        assert(s.subrange(0, 3) != seq![':', '/', '/']);
        let t = scheme.drop_first();
        assert(!t.contains(':')) by {
            if t.contains(':') {
                let k = choose|k: int| 0 <= k < t.len() && t[k] == ':';
                assert(scheme[k + 1] == ':');
            }
        }
        lemma_authority_start(t, rest);
        assert(s.drop_first() =~= t + "://"@ + rest);
    }
}

/// From inside an authority without `/`, the next `/` is the one after it.
proof fn lemma_slash_from_authority(s: Seq<char>, from: int, end: int)
    requires
        0 <= from <= end <= s.len(),
        forall|k: int| from <= k < end ==> s[k] != '/',
        end == s.len() || s[end] == '/',
    ensures
        slash_from(s, from) == end,
    decreases end - from,
{
    if from < end {
        lemma_slash_from_authority(s, from + 1, end);
    }
}

/// The origin of `scheme://authority/path` is `scheme://authority`: the
/// whole authority, host and port, is kept, and the path is dropped.
pub proof fn lemma_origin_keeps_authority(scheme: Seq<char>, authority: Seq<char>, path: Seq<char>)
    requires
        !scheme.contains(':'),
        !authority.contains('/'),
        path.len() == 0 || path[0] == '/',
    ensures
        origin_of(scheme + "://"@ + authority + path) == scheme + "://"@ + authority,
{
    reveal_strlit("://");
    let s = scheme + "://"@ + authority + path;
    assert(s =~= scheme + "://"@ + (authority + path));
    lemma_authority_start(scheme, authority + path);
    let start: int = scheme.len() as int + 3;
    let end: int = start + authority.len();
    assert forall|k: int| start <= k < end implies s[k] != '/' by {
        assert(s[k] == authority[k - start]);
        if authority[k - start] == '/' {
            assert(authority.contains('/'));
        }
    }
    if end < s.len() {
        assert(s[end] == path[0]);
    }
    lemma_slash_from_authority(s, start, end);
    assert(s.take(end) =~= scheme + "://"@ + authority);
}

impl Client {
    /// The base URL.
    pub closed spec fn base_view(&self) -> Seq<char> {
        self.base@
    }

    /// A client of the API at `base`.
    pub fn new(base: &str) -> (r: Client)
        ensures
            r.base_view() == base@,
    {
        Client { base: base.to_owned() }
    }

    /// The base URL.
    pub fn base(&self) -> (r: &str)
        ensures
            r@ == self.base_view(),
    {
        self.base.as_str()
    }

    /// The URL of `path` under the base.
    pub fn url(&self, path: &str) -> (r: String)
        ensures
            r@ == self.base_view() + path@,
    {
        concat2(self.base.as_str(), path)
    }

    /// A link the server advertised: a path (a leading `/`) is taken relative
    /// to the origin of the base, anything else as it is.
    pub fn resolve(&self, link: &str) -> (r: String)
        ensures
            link@.len() > 0 && link@[0] == '/' ==> r@ == origin_of(self.base_view()) + link@,
            !(link@.len() > 0 && link@[0] == '/') ==> r@ == link@,
    {
        let l = chars_of(link);
        if l.len() > 0 && l[0] == '/' {
            let b = chars_of(self.base.as_str());
            let start = authority_index(&b);
            let end = slash_index(&b, start);
            let mut o: Vec<char> = Vec::new();
            let mut i: usize = 0;
            while i < end
                invariant
                    i <= end <= b.len(),
                    o@ == b@.take(i as int),
                decreases end - i,
            {
                o.push(b[i]);
                assert(b@.take(i + 1) =~= b@.take(i as int).push(b@[i as int]));
                i = i + 1;
            }
            let mut s = string_of(&o);
            push_str(&mut s, link);
            s
        } else {
            link.to_owned()
        }
    }
}

fn authority_index(v: &Vec<char>) -> (r: usize)
    ensures
        r == authority_start(v@),
        r <= v@.len(),
{
    let n = v.len();
    let mut i: usize = 0;
    proof {
        assert(v@.skip(0) =~= v@);
    }
    while n >= 3 && i <= n - 3
        invariant
            i <= n == v.len(),
            authority_start(v@) == (if authority_start(v@.skip(i as int)) == 0 {
                0
            } else {
                authority_start(v@.skip(i as int)) + i
            }),
        decreases n - i,
    {
        let ghost s = v@.skip(i as int);
        assert(s.subrange(0, 3) =~= seq![v@[i as int], v@[i + 1], v@[i + 2]]);
        if v[i] == ':' && v[i + 1] == '/' && v[i + 2] == '/' {
            assert(authority_start(s) == 3);
            return i + 3;
        }
        proof {
            assert(s.subrange(0, 3) != seq![':', '/', '/']) by {
                if s.subrange(0, 3) == seq![':', '/', '/'] {
                    assert(s.subrange(0, 3)[0] == ':');
                    assert(s.subrange(0, 3)[1] == '/');
                    assert(s.subrange(0, 3)[2] == '/');
                }
            }
            assert(s.drop_first() =~= v@.skip(i + 1));
            assert(s.len() >= 3);
            assert(authority_start(s) == (if authority_start(s.drop_first()) == 0 {
                0
            } else {
                authority_start(s.drop_first()) + 1
            }));
        }
        i = i + 1;
    }
    proof {
        assert(v@.skip(i as int).len() < 3);
    }
    0
}

fn slash_index(v: &Vec<char>, from: usize) -> (r: usize)
    requires
        from <= v@.len(),
    ensures
        r == slash_from(v@, from as int),
        r <= v@.len(),
{
    let mut i = from;
    while i < v.len() && v[i] != '/'
        invariant
            from <= i <= v.len(),
            slash_from(v@, from as int) == slash_from(v@, i as int),
        decreases v.len() - i,
    {
        i = i + 1;
    }
    i
}

/// A request for the capabilities of an entity.
#[derive(Debug, Clone)]
pub struct CapabilitiesRequest {
    pub path: String,
    pub schema: bool,
}

impl CapabilitiesRequest {
    /// Asks for the schema or not.
    pub fn schema(self, wanted: bool) -> (r: Self)
        ensures
            r.path == self.path,
            r.schema == wanted,
    {
        CapabilitiesRequest { schema: wanted, ..self }
    }
}

/// A request for the data items of an entity.
#[derive(Debug, Clone)]
pub struct ListDataRequest {
    pub path: String,
    pub schema: bool,
}

impl ListDataRequest {
    /// Asks for the schema or not.
    pub fn schema(self, wanted: bool) -> (r: Self)
        ensures
            r.path == self.path,
            r.schema == wanted,
    {
        ListDataRequest { schema: wanted, ..self }
    }
}

/// A reference to one data item.
#[derive(Debug, Clone)]
pub struct DataRequest {
    pub path: String,
}

/// A request to read one data item.
#[derive(Debug, Clone)]
pub struct ReadDataRequest {
    pub path: String,
    pub schema: bool,
}

impl DataRequest {
    /// A request to read this item, without the schema.
    pub fn read(&self) -> (r: ReadDataRequest)
        ensures
            r.path@ == self.path@,
            !r.schema,
    {
        ReadDataRequest { path: self.path.clone(), schema: false }
    }
}

impl ReadDataRequest {
    /// Asks for the schema or not.
    pub fn schema(self, wanted: bool) -> (r: Self)
        ensures
            r.path == self.path,
            r.schema == wanted,
    {
        ReadDataRequest { schema: wanted, ..self }
    }
}

/// The links of an entity.
#[derive(Debug, Clone, Default)]
pub struct EntityCapabilities {
    pub id: String,
    pub name: String,
    pub data: Option<UriReference>,
    pub hosts: Option<UriReference>,
    pub contains: Option<UriReference>,
}

/// The view of an optional link.
pub open spec fn link_view(l: Option<UriReference>) -> Option<Seq<char>> {
    match l {
        Some(u) => Some(u.0@),
        None => None,
    }
}

/// The link the server advertised, resolved, or else the default.
pub fn merge_link(
    client: &Client,
    advertised: Option<&UriReference>,
    default: Option<UriReference>,
) -> (r: Option<UriReference>)
    ensures
        match advertised {
            Some(a) => r matches Some(u) && (a.0@.len() > 0 && a.0@[0] == '/' ==> u.0@ == origin_of(
                client.base_view(),
            ) + a.0@) && (!(a.0@.len() > 0 && a.0@[0] == '/') ==> u.0@ == a.0@),
            None => r == default,
        },
{
    match advertised {
        Some(link) => Some(UriReference(client.resolve(link.0.as_str()))),
        None => default,
    }
}

/// The text of a link, empty where there is none.
pub fn link(l: Option<&UriReference>) -> (r: &str)
    ensures
        match l {
            Some(u) => r@ == u.0@,
            None => r@ == Seq::<char>::empty(),
        },
{
    match l {
        Some(u) => u.0.as_str(),
        None => {
            proof {
                reveal_strlit("");
            }
            ""
        },
    }
}

/// A handle on one app.
#[derive(Debug, Clone)]
pub struct App {
    pub path: String,
    pub capabilities: EntityCapabilities,
}

impl App {
    /// The app `id`: its path under `/apps`, and its data link below it.
    pub fn new(client: &Client, id: &str) -> (r: App)
        ensures
            r.path@ == client.base_view() + "/apps/"@ + percent_encoded(id.spec_bytes()),
            r.capabilities.id@ == id@,
            link_view(r.capabilities.data) == Some(r.path@ + "/data"@),
            r.capabilities.hosts is None,
            r.capabilities.contains is None,
    {
        let e = encode(id);
        let rel = concat2("/apps/", e.as_str());
        let path = client.url(rel.as_str());
        let data = concat2(path.as_str(), "/data");
        let capabilities = EntityCapabilities {
            id: id.to_owned(),
            name: String::new(),
            data: Some(UriReference(data)),
            hosts: None,
            contains: None,
        };
        App { path, capabilities }
    }

    /// The links this handle navigates by.
    pub fn links(&self) -> (r: &EntityCapabilities)
        ensures
            r == &self.capabilities,
    {
        &self.capabilities
    }

    /// A request for the capabilities the server advertises for this app.
    pub fn query_capabilities(&self) -> (r: CapabilitiesRequest)
        ensures
            r.path@ == self.path@,
            !r.schema,
    {
        CapabilitiesRequest { path: self.path.clone(), schema: false }
    }

    /// Navigates by the links the server advertised, keeping the default
    /// data link where it has none.
    pub fn with_advertised(self, client: &Client, advertised: EntityCapabilities) -> (r: App)
        ensures
            r.path == self.path,
            r.capabilities.id == advertised.id,
            r.capabilities.name == advertised.name,
            r.capabilities.hosts == advertised.hosts,
            r.capabilities.contains == advertised.contains,
            advertised.data is None ==> r.capabilities.data == self.capabilities.data,
            advertised.data matches Some(a) ==> (r.capabilities.data matches Some(u) && (a.0@.len()
                > 0 && a.0@[0] == '/' ==> u.0@ == origin_of(client.base_view()) + a.0@) && (!(
            a.0@.len() > 0 && a.0@[0] == '/') ==> u.0@ == a.0@)),
    {
        let data = merge_link(client, advertised.data.as_ref(), self.capabilities.data);
        App { path: self.path, capabilities: EntityCapabilities { data, ..advertised } }
    }

    /// A request for the data items of this app, at its data link.
    pub fn list_data(&self) -> (r: ListDataRequest)
        ensures
            r.path@ == (match self.capabilities.data {
                Some(u) => u.0@,
                None => Seq::empty(),
            }),
            !r.schema,
    {
        ListDataRequest { path: link(self.capabilities.data.as_ref()).to_owned(), schema: false }
    }

    /// A reference to the data item `data_id` of this app.
    pub fn data(&self, data_id: &str) -> (r: DataRequest)
        ensures
            r.path@ == (match self.capabilities.data {
                Some(u) => u.0@,
                None => Seq::empty(),
            }) + "/"@ + percent_encoded(data_id.spec_bytes()),
    {
        let mut p = concat2(link(self.capabilities.data.as_ref()), "/");
        let e = encode(data_id);
        push_str(&mut p, e.as_str());
        DataRequest { path: p }
    }
}

/// A handle on one area.
#[derive(Debug, Clone)]
pub struct Area {
    pub path: String,
    pub capabilities: EntityCapabilities,
}

impl Area {
    /// The area `id`: its path under `/areas`, and its `contains` link below
    /// it.
    pub fn new(client: &Client, id: &str) -> (r: Area)
        ensures
            r.path@ == client.base_view() + "/areas/"@ + percent_encoded(id.spec_bytes()),
            r.capabilities.id@ == id@,
            link_view(r.capabilities.contains) == Some(r.path@ + "/contains"@),
            r.capabilities.data is None,
            r.capabilities.hosts is None,
    {
        let e = encode(id);
        let rel = concat2("/areas/", e.as_str());
        let path = client.url(rel.as_str());
        let contains = concat2(path.as_str(), "/contains");
        let capabilities = EntityCapabilities {
            id: id.to_owned(),
            name: String::new(),
            data: None,
            hosts: None,
            contains: Some(UriReference(contains)),
        };
        Area { path, capabilities }
    }

    /// The links this handle navigates by.
    pub fn links(&self) -> (r: &EntityCapabilities)
        ensures
            r == &self.capabilities,
    {
        &self.capabilities
    }

    /// A request for the capabilities the server advertises for this area.
    pub fn query_capabilities(&self) -> (r: CapabilitiesRequest)
        ensures
            r.path@ == self.path@,
            !r.schema,
    {
        CapabilitiesRequest { path: self.path.clone(), schema: false }
    }

    /// Navigates by the links the server advertised, keeping the default
    /// `contains` link where it has none.
    pub fn with_advertised(self, client: &Client, advertised: EntityCapabilities) -> (r: Area)
        ensures
            r.path == self.path,
            r.capabilities.id == advertised.id,
            r.capabilities.name == advertised.name,
            r.capabilities.data == advertised.data,
            r.capabilities.hosts == advertised.hosts,
            advertised.contains is None ==> r.capabilities.contains == self.capabilities.contains,
            advertised.contains matches Some(a) ==> (r.capabilities.contains matches Some(u) && (
            a.0@.len() > 0 && a.0@[0] == '/' ==> u.0@ == origin_of(client.base_view()) + a.0@) && (!(
            a.0@.len() > 0 && a.0@[0] == '/') ==> u.0@ == a.0@)),
    {
        let contains = merge_link(client, advertised.contains.as_ref(), self.capabilities.contains);
        Area { path: self.path, capabilities: EntityCapabilities { contains, ..advertised } }
    }

    /// Where the entities this area contains are listed.
    pub fn contains_path(&self) -> (r: &str)
        ensures
            r@ == (match self.capabilities.contains {
                Some(u) => u.0@,
                None => Seq::empty(),
            }),
    {
        link(self.capabilities.contains.as_ref())
    }
}

/// A handle on one component.
///
/// Its links start out derived from the id; [`Component::with_advertised`]
/// replaces them with the ones the server advertises.
#[derive(Debug, Clone)]
pub struct Component {
    pub path: String,
    pub capabilities: EntityCapabilities,
}

impl Component {
    /// The component `id`: its path under `/components`, and its data and
    /// hosts links below it.
    pub fn new(client: &Client, id: &str) -> (r: Component)
        ensures
            r.path@ == client.base_view() + "/components/"@ + percent_encoded(id.spec_bytes()),
            r.capabilities.id@ == id@,
            link_view(r.capabilities.data) == Some(r.path@ + "/data"@),
            link_view(r.capabilities.hosts) == Some(r.path@ + "/hosts"@),
            r.capabilities.contains is None,
    {
        let e = encode(id);
        let rel = concat2("/components/", e.as_str());
        let path = client.url(rel.as_str());
        let data = concat2(path.as_str(), "/data");
        let hosts = concat2(path.as_str(), "/hosts");
        let capabilities = EntityCapabilities {
            id: id.to_owned(),
            name: String::new(),
            data: Some(UriReference(data)),
            hosts: Some(UriReference(hosts)),
            contains: None,
        };
        Component { path, capabilities }
    }

    /// The links this handle navigates by.
    pub fn links(&self) -> (r: &EntityCapabilities)
        ensures
            r == &self.capabilities,
    {
        &self.capabilities
    }

    /// A request for the capabilities the server advertises for this
    /// component.
    pub fn query_capabilities(&self) -> (r: CapabilitiesRequest)
        ensures
            r.path@ == self.path@,
            !r.schema,
    {
        CapabilitiesRequest { path: self.path.clone(), schema: false }
    }

    /// Navigates by the links the server advertised, keeping the default
    /// data and hosts links where it has none.
    pub fn with_advertised(self, client: &Client, advertised: EntityCapabilities) -> (r: Component)
        ensures
            r.path == self.path,
            r.capabilities.id == advertised.id,
            r.capabilities.name == advertised.name,
            r.capabilities.contains == advertised.contains,
            advertised.data is None ==> r.capabilities.data == self.capabilities.data,
            advertised.data matches Some(a) ==> (r.capabilities.data matches Some(u) && (a.0@.len()
                > 0 && a.0@[0] == '/' ==> u.0@ == origin_of(client.base_view()) + a.0@) && (!(
            a.0@.len() > 0 && a.0@[0] == '/') ==> u.0@ == a.0@)),
            advertised.hosts is None ==> r.capabilities.hosts == self.capabilities.hosts,
            advertised.hosts matches Some(a) ==> (r.capabilities.hosts matches Some(u) && (a.0@.len()
                > 0 && a.0@[0] == '/' ==> u.0@ == origin_of(client.base_view()) + a.0@) && (!(
            a.0@.len() > 0 && a.0@[0] == '/') ==> u.0@ == a.0@)),
    {
        let data = merge_link(client, advertised.data.as_ref(), self.capabilities.data);
        let hosts = merge_link(client, advertised.hosts.as_ref(), self.capabilities.hosts);
        Component { path: self.path, capabilities: EntityCapabilities { data, hosts, ..advertised } }
    }

    /// A request for the data items of this component, at its data link.
    pub fn list_data(&self) -> (r: ListDataRequest)
        ensures
            r.path@ == (match self.capabilities.data {
                Some(u) => u.0@,
                None => Seq::empty(),
            }),
            !r.schema,
    {
        ListDataRequest { path: link(self.capabilities.data.as_ref()).to_owned(), schema: false }
    }

    /// A reference to the data item `data_id` of this component.
    pub fn data(&self, data_id: &str) -> (r: DataRequest)
        ensures
            r.path@ == (match self.capabilities.data {
                Some(u) => u.0@,
                None => Seq::empty(),
            }) + "/"@ + percent_encoded(data_id.spec_bytes()),
    {
        let mut p = concat2(link(self.capabilities.data.as_ref()), "/");
        let e = encode(data_id);
        push_str(&mut p, e.as_str());
        DataRequest { path: p }
    }

    /// Where the apps this component hosts are listed.
    pub fn hosts_path(&self) -> (r: &str)
        ensures
            r@ == (match self.capabilities.hosts {
                Some(u) => u.0@,
                None => Seq::empty(),
            }),
    {
        link(self.capabilities.hosts.as_ref())
    }
}

/// The model set the client speaks by default.
#[derive(Debug, Clone, Copy)]
pub struct DefaultModels;

/// When to retry a failed request, and how long to wait.
#[derive(Debug, Clone)]
pub struct RetryPolicy {
    pub max_retries: u32,
    /// The base wait, in milliseconds.
    pub backoff_ms: u64,
    /// The longest wait, in milliseconds.
    pub max_backoff_ms: u64,
}

/// `b` raised to `e`, or `None` past `u64::MAX`.
pub open spec fn pow_sat(b: nat, e: nat) -> nat
    decreases e,
{
    if e == 0 {
        1
    } else {
        let p = pow_sat(b, (e - 1) as nat) * b;
        if p > u64::MAX {
            u64::MAX as nat
        } else {
            p
        }
    }
}

/// The largest wait before attempt `attempt`: the base doubled per attempt
/// (saturating), capped by the longest wait.
pub open spec fn ceiling_of(backoff: u64, max_backoff: u64, attempt: u32) -> u64 {
    let factor = pow_sat(2, attempt as nat);
    let product: int = backoff * factor;
    let scaled: int = if product > u64::MAX {
        u64::MAX as int
    } else {
        product
    };
    if scaled < max_backoff {
        scaled as u64
    } else {
        max_backoff
    }
}

/// The factor never shrinks as attempts go on.
proof fn lemma_pow_sat_monotone(b: nat, e1: nat, e2: nat)
    requires
        b >= 1,
        e1 <= e2,
    ensures
        pow_sat(b, e1) <= pow_sat(b, e2),
        pow_sat(b, e2) >= 1,
    decreases e2,
{
    if e2 > 0 {
        if e1 < e2 {
            lemma_pow_sat_monotone(b, e1, (e2 - 1) as nat);
        }
        lemma_pow_sat_monotone(b, 0, (e2 - 1) as nat);
        let p = pow_sat(b, (e2 - 1) as nat);
        assert(p * b >= p) by (nonlinear_arith)
            requires
                b >= 1,
                p >= 1,
        ;
    }
}

/// Once the doubled factor saturates, it stays saturated.
proof fn lemma_pow_sat_stays_saturated(e1: nat, e2: nat)
    requires
        pow_sat(2, e1) == u64::MAX as nat,
        e1 <= e2,
    ensures
        pow_sat(2, e2) == u64::MAX as nat,
    decreases e2,
{
    if e2 > e1 {
        lemma_pow_sat_stays_saturated(e1, (e2 - 1) as nat);
    }
}

/// The wait before an attempt is never longer than the longest wait, and
/// never shorter than the wait before an earlier attempt.
pub proof fn lemma_ceiling_bounded_and_growing(backoff: u64, max_backoff: u64, a1: u32, a2: u32)
    requires
        a1 <= a2,
    ensures
        ceiling_of(backoff, max_backoff, a2) <= max_backoff,
        ceiling_of(backoff, max_backoff, a1) <= ceiling_of(backoff, max_backoff, a2),
{
    lemma_pow_sat_monotone(2, a1 as nat, a2 as nat);
    let f1 = pow_sat(2, a1 as nat);
    let f2 = pow_sat(2, a2 as nat);
    assert(backoff * f1 <= backoff * f2) by (nonlinear_arith)
        requires
            f1 <= f2,
    ;
}

/// The saturating power of two is the power of two, capped at `u64::MAX`.
proof fn lemma_pow_sat_is_capped_pow2(e: nat)
    ensures
        pow_sat(2, e) == if pow2(e) > u64::MAX {
            u64::MAX as nat
        } else {
            pow2(e)
        },
    decreases e,
{
    if e == 0 {
        assert(pow2(0) == 1) by {
            vstd::arithmetic::power2::lemma2_to64();
        }
    } else {
        lemma_pow_sat_is_capped_pow2((e - 1) as nat);
        vstd::arithmetic::power2::lemma_pow2_unfold(e);
    }
}

/// The ceiling before attempt `attempt` is the base doubled `attempt`
/// times, capped by the longest wait: `min(max_backoff, backoff * 2^attempt)`,
/// whatever the size of the product.
pub proof fn lemma_ceiling_is_capped_doubling(backoff: u64, max_backoff: u64, attempt: u32)
    ensures
        ceiling_of(backoff, max_backoff, attempt) == if backoff * pow2(attempt as nat) < max_backoff {
            backoff * pow2(attempt as nat)
        } else {
            max_backoff as int
        },
{
    let n = attempt as nat;
    lemma_pow_sat_is_capped_pow2(n);
    vstd::arithmetic::power2::lemma_pow2_pos(n);
    let p = pow2(n);
    if p > u64::MAX {
        if backoff >= 1 {
            assert(backoff * (u64::MAX as nat) >= u64::MAX) by (nonlinear_arith)
                requires
                    backoff >= 1,
            ;
            assert(backoff * p >= p) by (nonlinear_arith)
                requires
                    backoff >= 1,
                    p >= 1,
            ;
        }
    }
}

/// Before the cap is reached, each attempt doubles the ceiling of the one
/// before it.
pub proof fn lemma_ceiling_doubles(backoff: u64, max_backoff: u64, attempt: u32)
    requires
        attempt < u32::MAX,
    ensures
        ceiling_of(backoff, max_backoff, (attempt + 1) as u32) == if 2 * ceiling_of(
            backoff,
            max_backoff,
            attempt,
        ) < max_backoff {
            2 * ceiling_of(backoff, max_backoff, attempt)
        } else {
            max_backoff as int
        },
{
    let n = attempt as nat;
    lemma_ceiling_is_capped_doubling(backoff, max_backoff, attempt);
    lemma_ceiling_is_capped_doubling(backoff, max_backoff, (attempt + 1) as u32);
    vstd::arithmetic::power2::lemma_pow2_unfold(n + 1);
    let p = pow2(n);
    assert(backoff * (2 * p) == 2 * (backoff * p)) by (nonlinear_arith);
}

/// A number drawn uniformly from `0..bound` by the thread-local generator
/// (`rand::rng`, `RngExt::random_range`). It is below the bound; nothing
/// more is promised of it.
#[verifier::external_body]
fn random_below(bound: u64) -> (r: u64)
    requires
        bound > 0,
    ensures
        r < bound,
{
    rand::RngExt::random_range(&mut rand::rng(), 0..bound)
}

impl RetryPolicy {
    /// Retries up to `max_retries` times, waiting 100 ms at first and 30 s at
    /// most.
    pub fn new(max_retries: u32) -> (r: Self)
        ensures
            r.max_retries == max_retries,
            r.backoff_ms == 100,
            r.max_backoff_ms == 30_000,
    {
        RetryPolicy { max_retries, backoff_ms: 100, max_backoff_ms: 30_000 }
    }

    /// Sets the base wait, in milliseconds.
    pub fn backoff(self, millis: u64) -> (r: Self)
        ensures
            r.max_retries == self.max_retries,
            r.backoff_ms == millis,
            r.max_backoff_ms == self.max_backoff_ms,
    {
        RetryPolicy { backoff_ms: millis, ..self }
    }

    /// Sets the longest wait, in milliseconds.
    pub fn max_backoff(self, millis: u64) -> (r: Self)
        ensures
            r.max_retries == self.max_retries,
            r.backoff_ms == self.backoff_ms,
            r.max_backoff_ms == millis,
    {
        RetryPolicy { max_backoff_ms: millis, ..self }
    }

    /// The largest wait before attempt `attempt`.
    pub fn ceiling(&self, attempt: u32) -> (r: u64)
        ensures
            r == ceiling_of(self.backoff_ms, self.max_backoff_ms, attempt),
    {
        let mut factor: u64 = 1;
        let mut i: u32 = 0;
        while i < attempt && factor < u64::MAX
            invariant
                i <= attempt,
                factor == pow_sat(2, i as nat),
            decreases attempt - i,
        {
            factor = match factor.checked_mul(2) {
                Some(x) => x,
                None => u64::MAX,
            };
            i = i + 1;
        }
        proof {
            if i < attempt {
                lemma_pow_sat_stays_saturated(i as nat, attempt as nat);
            }
        }
        let scaled = match self.backoff_ms.checked_mul(factor) {
            Some(x) => x,
            None => u64::MAX,
        };
        if scaled < self.max_backoff_ms {
            scaled
        } else {
            self.max_backoff_ms
        }
    }

    /// The wait before attempt `attempt`, in milliseconds: drawn at random
    /// below the ceiling ("full jitter"), none where the ceiling is zero.
    pub fn delay(&self, attempt: u32) -> (r: u64)
        ensures
            ceiling_of(self.backoff_ms, self.max_backoff_ms, attempt) == 0 ==> r == 0,
            ceiling_of(self.backoff_ms, self.max_backoff_ms, attempt) > 0 ==> r < ceiling_of(
                self.backoff_ms,
                self.max_backoff_ms,
                attempt,
            ),
    {
        let ceiling = self.ceiling(attempt);
        if ceiling > 0 {
            random_below(ceiling)
        } else {
            0
        }
    }
}

/// A per-request timeout, or none.
#[derive(Debug, Clone, Copy)]
pub struct RequestTimeoutLayer {
    /// The timeout in milliseconds.
    pub timeout_ms: Option<u64>,
}

impl RequestTimeoutLayer {
    /// A layer that times requests out after `timeout_ms`, or never.
    pub fn new(timeout_ms: Option<u64>) -> (r: Self)
        ensures
            r.timeout_ms == timeout_ms,
    {
        RequestTimeoutLayer { timeout_ms }
    }
}

/// An SOVD instance a server advertises at `/version-info`.
#[derive(Debug, Clone)]
pub struct SovdInfo<V> {
    /// The SOVD version it implements.
    pub version: String,
    /// Where its API is.
    pub base_uri: String,
    /// What the vendor says of it.
    pub vendor_info: Option<V>,
}

/// Why discovery gave no client.
#[derive(Debug, Clone, PartialEq, Eq)]
pub enum DiscoveryError {
    /// No advertised instance matches.
    NoMatchingVersion,
    /// The base URI of the selected instance does not parse.
    InvalidUri(String),
}

/// The index of the first advertised instance that `pred` accepted, as the
/// calls of `pred` in order answered; none where it accepted none.
pub fn first_match<V, F: Fn(&SovdInfo<V>) -> bool>(advertised: &Vec<SovdInfo<V>>, pred: F) -> (r: Option<usize>)
    requires
        forall|i: int| 0 <= i < advertised@.len() ==> call_requires(pred, (&advertised@[i],)),
    ensures
        match r {
            Some(i) => i < advertised@.len() && call_ensures(pred, (&advertised@[i as int],), true)
                && forall|j: int| 0 <= j < i ==> call_ensures(pred, (&advertised@[j],), false),
            None => forall|j: int| 0 <= j < advertised@.len() ==> call_ensures(pred, (&advertised@[j],), false),
        },
{
    let mut i: usize = 0;
    while i < advertised.len()
        invariant
            i <= advertised@.len(),
            forall|k: int| 0 <= k < advertised@.len() ==> call_requires(pred, (&advertised@[k],)),
            forall|j: int| 0 <= j < i ==> call_ensures(pred, (&advertised@[j],), false),
        decreases advertised@.len() - i,
    {
        let accepted = pred(&advertised[i]);
        if accepted {
            return Some(i);
        }
        i = i + 1;
    }
    None
}

/// The client of the unversioned SOVD root, where `/version-info` lists the
/// instances a server offers.
#[derive(Debug, Clone)]
pub struct Discovery {
    inner: Client,
}

impl Discovery {
    /// The root URL.
    pub closed spec fn root_view(&self) -> Seq<char> {
        self.inner.base_view()
    }

    /// Discovery at the unversioned root `root`.
    pub fn new(root: &str) -> (r: Discovery)
        ensures
            r.root_view() == root@,
    {
        Discovery { inner: Client::new(root) }
    }

    /// Where the advertised instances are listed: `<root>/version-info`.
    pub fn version_info_url(&self) -> (r: String)
        ensures
            r@ == self.root_view() + "/version-info"@,
    {
        self.inner.url("/version-info")
    }

    /// A client of the first advertised instance that `pred` accepts, at
    /// its base URI. Fails with [`DiscoveryError::NoMatchingVersion`] where
    /// `pred` accepts none, and with [`DiscoveryError::InvalidUri`] where the
    /// chosen base URI does not parse.
    pub fn select<V, F: Fn(&SovdInfo<V>) -> bool>(&self, advertised: &Vec<SovdInfo<V>>, pred: F) -> (r: Result<
        Client,
        DiscoveryError,
    >)
        requires
            forall|i: int| 0 <= i < advertised@.len() ==> call_requires(pred, (&advertised@[i],)),
        ensures
            match r {
                Ok(c) => exists|i: int|
                    0 <= i < advertised@.len() && call_ensures(pred, (&advertised@[i],), true)
                        && (forall|j: int| 0 <= j < i ==> call_ensures(pred, (&advertised@[j],), false))
                        && uri_parts(advertised@[i].base_uri@) is Some
                        && c.base_view() == advertised@[i].base_uri@,
                Err(DiscoveryError::NoMatchingVersion) => forall|j: int|
                    0 <= j < advertised@.len() ==> call_ensures(pred, (&advertised@[j],), false),
                Err(DiscoveryError::InvalidUri(u)) => exists|i: int|
                    0 <= i < advertised@.len() && call_ensures(pred, (&advertised@[i],), true)
                        && (forall|j: int| 0 <= j < i ==> call_ensures(pred, (&advertised@[j],), false))
                        && uri_parts(advertised@[i].base_uri@) is None
                        && u@ == advertised@[i].base_uri@,
            },
    {
        match first_match(advertised, pred) {
            None => Err(DiscoveryError::NoMatchingVersion),
            Some(i) => {
                let base = advertised[i].base_uri.as_str();
                match parse_uri(base) {
                    Some(_) => Ok(Client::new(base)),
                    None => Err(DiscoveryError::InvalidUri(base.to_owned())),
                }
            },
        }
    }
}

} // verus!

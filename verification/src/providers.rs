//! Providers: values that data resources hand out, and the discovery of
//! other SOVD servers over mDNS.

use vstd::prelude::*;

use crate::mdns::{
    lemma_txt_keys_are_ascii, service_fullname, service_fullname_of, txt_fits_all,
    txt_keys_distinct, txt_property_fits, BuiltService, ServiceDescription, SERVICE_TYPE,
};
use crate::net::IpAddress;
use crate::text::{
    ascii_lower_seq, chars_of, concat2, string_of, strings_view, to_ascii_lowercase, trim_end_ch,
    trim_end_vec,
};

verus! {

/// A value a data resource reads or writes.
#[derive(Debug, Clone)]
pub struct Value<T> {
    /// The wrapped value.
    pub value: T,
}

impl<T> Value<T> {
    /// Wraps `value`.
    pub fn new(value: T) -> (r: Self)
        ensures
            r.value == value,
    {
        Value { value }
    }
}

/// The TXT key of the identification (e.g. the VIN).
pub const TXT_IDENTIFICATION: &'static str = "identification";

/// The TXT key of the URL a server is reached at.
pub const TXT_ACCESS_URL: &'static str = "accessurl";

/// What the discovery reported, as plain values.
#[derive(Debug, Clone)]
pub enum ServiceEventData {
    /// A service was resolved.
    Resolved {
        fullname: String,
        hostname: String,
        port: u16,
        /// The TXT properties, in order, with their values as text.
        properties: Vec<(String, String)>,
    },
    /// A service left.
    Removed { fullname: String },
    /// Anything else.
    Other,
}

/// A server found on the network, as a component.
#[derive(Debug, Clone)]
pub struct DiscoveredComponent {
    pub id: String,
    pub name: String,
    /// Public metadata: at most the identification.
    pub metadata: Vec<(String, String)>,
}

/// How the topology changes: components removed, by id, and added.
#[derive(Debug, Clone)]
pub struct DiscoveryDiff {
    pub removed: Vec<String>,
    pub added: Vec<DiscoveredComponent>,
}

/// The value of the first property whose key is `key` in any ASCII case.
pub open spec fn txt_lookup(props: Seq<(String, String)>, key: Seq<char>) -> Option<Seq<char>>
    decreases props.len(),
{
    if props.len() == 0 {
        None
    } else if ascii_lower_seq(props[0].0@) == key {
        Some(props[0].1@)
    } else {
        txt_lookup(props.drop_first(), key)
    }
}

/// What a discovery event changes: nothing for this process's own services
/// or other events; a resolved service becomes a component named by its
/// host, with the identification as its only metadata; a removed service
/// removes its component.
pub open spec fn diff_of(local: Seq<Seq<char>>, e: ServiceEventData, d: Option<DiscoveryDiff>) -> bool {
    match e {
        ServiceEventData::Resolved { fullname, hostname, port, properties } => if local.contains(
            fullname@,
        ) {
            d is None
        } else {
            d matches Some(diff) && diff.removed@.len() == 0 && diff.added@.len() == 1 && diff.added@[0].id@
                == fullname@ && diff.added@[0].name@ == trim_end_ch(hostname@, '.') && match txt_lookup(
                properties@,
                "identification"@,
            ) {
                Some(v) => diff.added@[0].metadata@.len() == 1 && diff.added@[0].metadata@[0].0@
                    == "identification"@ && diff.added@[0].metadata@[0].1@ == v,
                None => diff.added@[0].metadata@.len() == 0,
            }
        },
        ServiceEventData::Removed { fullname } => if local.contains(fullname@) {
            d is None
        } else {
            d matches Some(diff) && strings_view(diff.removed@) == seq![fullname@] && diff.added@.len()
                == 0
        },
        ServiceEventData::Other => d is None,
    }
}

fn contains_name(v: &Vec<String>, s: &str) -> (r: bool)
    ensures
        r == strings_view(v@).contains(s@),
{
    let mut i: usize = 0;
    while i < v.len()
        invariant
            0 <= i <= v.len(),
            forall|k: int| 0 <= k < i ==> v@[k]@ != s@,
        decreases v.len() - i,
    {
        if crate::keyed::compare_keys(v[i].as_str(), s) == 0 {
            assert(strings_view(v@)[i as int] == s@);
            return true;
        }
        i = i + 1;
    }
    proof {
        if strings_view(v@).contains(s@) {
            let k = choose|k: int| 0 <= k < strings_view(v@).len() && strings_view(v@)[k] == s@;
            assert(v@[k]@ == s@);
        }
    }
    false
}

fn lookup_txt(props: &Vec<(String, String)>, key: &str) -> (r: Option<String>)
    ensures
        match r {
            Some(v) => txt_lookup(props@, key@) == Some(v@),
            None => txt_lookup(props@, key@) is None,
        },
{
    let mut i: usize = 0;
    proof {
        assert(props@.skip(0) =~= props@);
    }
    while i < props.len()
        invariant
            0 <= i <= props.len(),
            txt_lookup(props@, key@) == txt_lookup(props@.skip(i as int), key@),
        decreases props.len() - i,
    {
        let k = to_ascii_lowercase(props[i].0.as_str());
        assert(props@.skip(i as int)[0] == props@[i as int]);
        if crate::keyed::compare_keys(k.as_str(), key) == 0 {
            return Some(props[i].1.clone());
        }
        assert(props@.skip(i as int).drop_first() =~= props@.skip(i + 1));
        i = i + 1;
    }
    None
}

/// What a discovery event changes, given the full names of this process's
/// own services.
pub fn convert_event(local: &Vec<String>, event: &ServiceEventData) -> (r: Option<DiscoveryDiff>)
    ensures
        diff_of(strings_view(local@), *event, r),
{
    match event {
        ServiceEventData::Resolved { fullname, hostname, port, properties } => {
            if contains_name(local, fullname.as_str()) {
                return None;
            }
            let h = chars_of(hostname.as_str());
            let name = string_of(&trim_end_vec(&h, '.'));
            let mut metadata: Vec<(String, String)> = Vec::new();
            match lookup_txt(properties, "identification") {
                Some(v) => {
                    metadata.push(("identification".to_owned(), v));
                },
                None => {},
            }
            let mut added: Vec<DiscoveredComponent> = Vec::new();
            added.push(DiscoveredComponent { id: fullname.clone(), name, metadata });
            Some(DiscoveryDiff { removed: Vec::new(), added })
        },
        ServiceEventData::Removed { fullname } => {
            if contains_name(local, fullname.as_str()) {
                return None;
            }
            let mut removed: Vec<String> = Vec::new();
            removed.push(fullname.clone());
            assert(strings_view(removed@) =~= seq![fullname@]);
            Some(DiscoveryDiff { removed, added: Vec::new() })
        },
        ServiceEventData::Other => None,
    }
}

/// Why a service could not be advertised.
#[derive(Debug)]
pub enum ProviderMdnsError {
    /// The responder failed.
    Daemon(mdns_sd::Error),
    /// The service description was refused; the responder's message.
    ServiceInfo(String),
}

/// The message of a responder error (`mdns_sd::Error` as `Display`).
#[verifier::external_body]
fn mdns_error_text(e: &mdns_sd::Error) -> String {
    e.to_string()
}

/// `d` describes the service a gateway advertises: the instance at
/// `<instance>.local.`, at `host_ip` and `port`, with the identification and
/// the access URL as TXT properties, on every interface, at that one address.
pub open spec fn registration_described(
    d: ServiceDescription,
    instance_name: Seq<char>,
    identification: Seq<char>,
    access_url: Seq<char>,
    host_ip: IpAddress,
    port: u16,
) -> bool {
    &&& d.service_type@ == SERVICE_TYPE@
    &&& d.instance@ == instance_name
    &&& d.host_name@ == instance_name + ".local."@
    &&& d.address == Some(host_ip)
    &&& d.port == port
    &&& d.properties@.len() == 2
    &&& d.properties@[0].0@ == "identification"@ && d.properties@[0].1@ == identification
    &&& d.properties@[1].0@ == "accessurl"@ && d.properties@[1].1@ == access_url
    &&& !d.follow_addresses
    &&& d.interfaces@.len() == 0
}

/// The description of the service a gateway advertises, see
/// [`registration_described`].
pub fn registration_description(
    instance_name: &str,
    identification: &str,
    access_url: &str,
    host_ip: IpAddress,
    port: u16,
) -> (r: ServiceDescription)
    ensures
        registration_described(r, instance_name@, identification@, access_url@, host_ip, port),
{
    let mut properties: Vec<(String, String)> = Vec::new();
    properties.push(("identification".to_owned(), identification.to_owned()));
    properties.push(("accessurl".to_owned(), access_url.to_owned()));
    ServiceDescription {
        service_type: SERVICE_TYPE.to_owned(),
        instance: instance_name.to_owned(),
        host_name: concat2(instance_name, ".local."),
        address: Some(host_ip),
        port,
        properties,
        follow_addresses: false,
        interfaces: Vec::new(),
    }
}

/// The service a gateway advertises: the description of
/// [`registration_description`], checked by the responder, with its full
/// name. It is refused where a TXT property does not fit.
pub fn registration_info(
    instance_name: &str,
    identification: &str,
    access_url: &str,
    host_ip: IpAddress,
    port: u16,
) -> (r: Result<BuiltService, ProviderMdnsError>)
    ensures
        r is Ok <==> (txt_property_fits("identification"@, identification@) && txt_property_fits(
            "accessurl"@,
            access_url@,
        )),
        r matches Ok(b) ==> registration_described(
            b.description,
            instance_name@,
            identification@,
            access_url@,
            host_ip,
            port,
        ) && b.fullname@ == service_fullname_of(instance_name@),
        r is Err ==> r matches Err(ProviderMdnsError::ServiceInfo(_)),
{
    let d = registration_description(instance_name, identification, access_url, host_ip, port);
    proof {
        let txt = d.properties@;
        lemma_txt_keys_are_ascii();
        assert(ascii_lower_seq(txt[0].0@).len() == 14);
        assert(ascii_lower_seq(txt[1].0@).len() == 9);
        assert(txt_keys_distinct(txt));
        assert(txt_fits_all(txt) == (txt_property_fits("identification"@, identification@)
            && txt_property_fits("accessurl"@, access_url@))) by {
            if txt_property_fits("identification"@, identification@) && txt_property_fits(
                "accessurl"@,
                access_url@,
            ) {
                assert forall|i: int| 0 <= i < txt.len() implies txt_property_fits(
                    (#[trigger] txt[i]).0@,
                    txt[i].1@,
                ) by {
                    if i == 0 {
                    } else {
                        assert(i == 1);
                    }
                }
            }
            if txt_fits_all(txt) {
                assert(txt_property_fits(txt[0].0@, txt[0].1@));
                assert(txt_property_fits(txt[1].0@, txt[1].1@));
            }
        }
    }
    match service_fullname(&d) {
        Ok(fullname) => Ok(BuiltService { description: d, fullname }),
        Err(e) => Err(ProviderMdnsError::ServiceInfo(mdns_error_text(&e))),
    }
}

} // verus!

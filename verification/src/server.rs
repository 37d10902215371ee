//! The decisions of the SOVD server's routes: header parsing, the place of a
//! stored upload, and the response each error is answered with.

use vstd::prelude::*;

use crate::bulkdata::{BulkDataError, CategoryFilter, CategoryInfo};
use crate::models::{
    AvailableBulkDataCategories, BulkDataCategory, BulkDataDescriptor, BulkDataDescriptorsQuery,
    BulkDataMetadata, DataErrorDetails, ErrorCode, ErrorDetails, GenericError, JsonPointer,
    SupportedTags,
};
use crate::text::{
    chars_of, concat2, has_prefix, opt_view, parse_u64, parsed_u64, pieces_view, push_str,
    split_on, split_vec, starts_with_at, string_of, strip_all_prefix, strip_all_prefix_vec,
    trim_ch, trim_vec, trim_white, trim_white_vec,
};

verus! {

/// A byte a header value may hold for it to be read as text: visible ASCII
/// or a tab.
pub open spec fn is_visible_ascii(b: u8) -> bool {
    (32 <= b && b < 127) || b == 9
}

/// The character of an ASCII byte.
pub fn ascii_char(b: u8) -> (c: char)
    requires
        b < 128,
    ensures
        c as int == b as int,
{
    b as char
}

/// The text of a header value, where every byte is visible ASCII or a tab
/// (`HeaderValue::to_str`).
pub fn header_text(bytes: &[u8]) -> (r: Option<Vec<char>>)
    ensures
        match r {
            Some(v) => (forall|i: int| 0 <= i < bytes@.len() ==> is_visible_ascii(#[trigger] bytes@[i]))
                && v@.len() == bytes@.len() && forall|i: int|
                0 <= i < v@.len() ==> (#[trigger] v@[i]) as int == bytes@[i] as int,
            None => exists|i: int| 0 <= i < bytes@.len() && !is_visible_ascii(#[trigger] bytes@[i]),
        },
{
    let mut v: Vec<char> = Vec::new();
    for i in 0..bytes.len()
        invariant
            v@.len() == i,
            forall|j: int| 0 <= j < i ==> is_visible_ascii(#[trigger] bytes@[j]),
            forall|j: int| 0 <= j < i ==> (#[trigger] v@[j]) as int == bytes@[j] as int,
    {
        let b = bytes[i];
        if !((32 <= b && b < 127) || b == 9) {
            return None;
        }
        v.push(ascii_char(b));
    }
    Some(v)
}

/// The value of the last parameter among `parts` that begins with `key`:
/// the rest of the trimmed part with every leading `key` and the
/// surrounding double quotes removed.
pub open spec fn param_value(parts: Seq<Seq<char>>, key: Seq<char>) -> Option<Seq<char>>
    decreases parts.len(),
{
    if parts.len() == 0 {
        None
    } else {
        let p = trim_white(parts.last());
        if has_prefix(p, key) {
            Some(trim_ch(strip_all_prefix(p, key), '"'))
        } else {
            param_value(parts.drop_last(), key)
        }
    }
}

/// The disposition type of a `Content-Disposition` header value.
pub open spec fn disposition_type_of(s: Seq<char>) -> Seq<char> {
    trim_white(split_on(s, ';')[0])
}

/// The `filename` parameter of a `Content-Disposition` header value.
pub open spec fn filename_of(s: Seq<char>) -> Option<Seq<char>> {
    let parts = split_on(s, ';');
    param_value(parts.subrange(1, parts.len() as int), "filename="@)
}

/// The `name` parameter of a `Content-Disposition` header value.
pub open spec fn name_of(s: Seq<char>) -> Option<Seq<char>> {
    let parts = split_on(s, ';');
    param_value(parts.subrange(1, parts.len() as int), "name="@)
}

/// The view of an optional character vector.
pub open spec fn opt_chars(o: Option<Vec<char>>) -> Option<Seq<char>> {
    match o {
        Some(v) => Some(v@),
        None => None,
    }
}

/// A header value that could not be read.
#[derive(Debug, Clone, Copy, PartialEq, Eq)]
pub struct InvalidHeader;

/// The parts of a `Content-Disposition` header that uploads use.
#[derive(Debug, Clone)]
pub struct ContentDisposition {
    pub disposition_type: String,
    pub filename: Option<String>,
    pub name: Option<String>,
}

fn opt_string(o: Option<Vec<char>>) -> (r: Option<String>)
    ensures
        opt_view(r) == opt_chars(o),
{
    match o {
        Some(v) => Some(string_of(&v)),
        None => None,
    }
}

impl ContentDisposition {
    /// Reads a header value given as text: parts are separated by `;`, the
    /// first names the disposition type and the others may set `filename=`
    /// or `name=`; the last setting of each wins.
    pub fn parse(text: &Vec<char>) -> (r: ContentDisposition)
        ensures
            r.disposition_type@ == disposition_type_of(text@),
            opt_view(r.filename) == filename_of(text@),
            opt_view(r.name) == name_of(text@),
    {
        let parts = split_vec(text, ';');
        let ghost pv = pieces_view(parts@);
        assert(pv[0] == parts@[0]@);
        let dtype = trim_white_vec(&parts[0]);
        let fkey = chars_of("filename=");
        let nkey = chars_of("name=");
        let mut filename: Option<Vec<char>> = None;
        let mut name: Option<Vec<char>> = None;
        proof {
            assert(pv.subrange(1, 1) =~= Seq::<Seq<char>>::empty());
        }
        for i in 1..parts.len()
            invariant
                pv == pieces_view(parts@),
                pv.len() == parts@.len(),
                fkey@ == "filename="@,
                nkey@ == "name="@,
                opt_chars(filename) == param_value(pv.subrange(1, i as int), fkey@),
                opt_chars(name) == param_value(pv.subrange(1, i as int), nkey@),
        {
            let p = trim_white_vec(&parts[i]);
            assert(pv.subrange(1, i + 1).drop_last() =~= pv.subrange(1, i as int));
            assert(pv.subrange(1, i + 1).last() == parts@[i as int]@);
            assert(p@.subrange(0, p@.len() as int) =~= p@);
            if starts_with_at(&p, 0, &fkey) {
                let stripped = strip_all_prefix_vec(&p, &fkey);
                filename = Some(trim_vec(&stripped, '"'));
                assert(!has_prefix(p@, nkey@)) by {
                    reveal_strlit("name=");
                    reveal_strlit("filename=");
                    assert(fkey@[0] == 'f');
                    assert(nkey@[0] == 'n');
                    assert(p@.subrange(0, fkey@.len() as int)[0] == p@[0]);
                    if has_prefix(p@, nkey@) {
                        assert(p@.subrange(0, nkey@.len() as int)[0] == p@[0]);
                    }
                }
            } else if starts_with_at(&p, 0, &nkey) {
                let stripped = strip_all_prefix_vec(&p, &nkey);
                name = Some(trim_vec(&stripped, '"'));
            }
        }
        proof {
            assert(pv.subrange(1, parts@.len() as int) == split_on(text@, ';').subrange(
                1,
                split_on(text@, ';').len() as int,
            ));
        }
        ContentDisposition {
            disposition_type: string_of(&dtype),
            filename: opt_string(filename),
            name: opt_string(name),
        }
    }

    /// Reads the first `Content-Disposition` header value, where there is
    /// one and it is text.
    pub fn decode(first: Option<&[u8]>) -> (r: Result<ContentDisposition, InvalidHeader>)
        ensures
            match first {
                None => r is Err,
                Some(bytes) => match r {
                    Ok(cd) => exists|v: Seq<char>|
                        {
                            &&& v.len() == bytes@.len()
                            &&& forall|i: int| 0 <= i < v.len() ==> (#[trigger] v[i]) as int == bytes@[i] as int
                            &&& cd.disposition_type@ == disposition_type_of(v)
                            &&& opt_view(cd.filename) == filename_of(v)
                            &&& opt_view(cd.name) == name_of(v)
                        },
                    Err(_) => exists|i: int| 0 <= i < bytes@.len() && !is_visible_ascii(#[trigger] bytes@[i]),
                },
            },
    {
        match first {
            None => Err(InvalidHeader),
            Some(bytes) => match header_text(bytes) {
                Some(v) => {
                    let cd = ContentDisposition::parse(&v);
                    Ok(cd)
                },
                None => Err(InvalidHeader),
            },
        }
    }
}

/// Why reading or writing a data resource failed.
#[derive(Debug, Clone)]
pub enum DataError {
    /// No data resource has this id.
    NotFound(String),
    /// The data resource cannot be written.
    ReadOnly,
    /// The value written does not fit the resource; `path` points into it.
    InvalidValue { path: String, message: String },
    /// The provider failed.
    Internal(String),
}

impl DataError {
    /// The message that describes the error.
    pub open spec fn text(&self) -> Seq<char> {
        match self {
            DataError::NotFound(id) => "data not found: "@ + id@,
            DataError::ReadOnly => "data is read-only"@,
            DataError::InvalidValue { path, message } => "invalid value at "@ + path@ + ": "@
                + message@,
            DataError::Internal(m) => "internal error: "@ + m@,
        }
    }

    /// The message that describes the error.
    pub fn message(&self) -> (r: String)
        ensures
            r@ == self.text(),
    {
        match self {
            DataError::NotFound(id) => concat2("data not found: ", id.as_str()),
            DataError::ReadOnly => "data is read-only".to_owned(),
            DataError::InvalidValue { path, message } => {
                let mut s = concat2("invalid value at ", path.as_str());
                push_str(&mut s, ": ");
                push_str(&mut s, message.as_str());
                s
            },
            DataError::Internal(m) => concat2("internal error: ", m.as_str()),
        }
    }
}

/// Why an entity of the topology could not be used.
#[derive(Debug, Clone)]
pub enum TopologyError {
    /// No entity is known by this reference.
    NotFound(String),
}

impl TopologyError {
    /// The message that describes the error.
    pub open spec fn text(&self) -> Seq<char> {
        match self {
            TopologyError::NotFound(entity) => "entity not found: "@ + entity@,
        }
    }

    /// The message that describes the error.
    pub fn message(&self) -> (r: String)
        ensures
            r@ == self.text(),
    {
        match self {
            TopologyError::NotFound(entity) => concat2("entity not found: ", entity.as_str()),
        }
    }
}

/// Why a JSON request body was refused.
#[derive(Debug, Clone)]
pub enum BodyRejection {
    /// The body is JSON of the wrong shape; `path` points at the element.
    JsonData { path: String, body_text: String },
    /// The body is not JSON.
    JsonSyntax { body_text: String },
    /// Any other refusal, with the status it carries.
    Other { status: u16, body_text: String },
}

/// A request handler's failure.
#[derive(Debug, Clone)]
pub enum RouteError {
    EntityNotFound(String),
    ProviderNotAvailable(String),
    Data(DataError),
    BulkData(BulkDataError),
    BadQuery,
    InvalidHeader,
    BadBody(BodyRejection),
    Topology(TopologyError),
}

impl From<DataError> for RouteError {
    fn from(e: DataError) -> (r: RouteError) {
        RouteError::Data(e)
    }
}

impl vstd::std_specs::convert::FromSpecImpl<DataError> for RouteError {
    open spec fn obeys_from_spec() -> bool {
        true
    }

    open spec fn from_spec(e: DataError) -> RouteError {
        RouteError::Data(e)
    }
}

impl From<BulkDataError> for RouteError {
    fn from(e: BulkDataError) -> (r: RouteError) {
        RouteError::BulkData(e)
    }
}

impl vstd::std_specs::convert::FromSpecImpl<BulkDataError> for RouteError {
    open spec fn obeys_from_spec() -> bool {
        true
    }

    open spec fn from_spec(e: BulkDataError) -> RouteError {
        RouteError::BulkData(e)
    }
}

impl From<TopologyError> for RouteError {
    fn from(e: TopologyError) -> (r: RouteError) {
        RouteError::Topology(e)
    }
}

impl vstd::std_specs::convert::FromSpecImpl<TopologyError> for RouteError {
    open spec fn obeys_from_spec() -> bool {
        true
    }

    open spec fn from_spec(e: TopologyError) -> RouteError {
        RouteError::Topology(e)
    }
}

impl From<BodyRejection> for RouteError {
    fn from(e: BodyRejection) -> (r: RouteError) {
        RouteError::BadBody(e)
    }
}

impl vstd::std_specs::convert::FromSpecImpl<BodyRejection> for RouteError {
    open spec fn obeys_from_spec() -> bool {
        true
    }

    open spec fn from_spec(e: BodyRejection) -> RouteError {
        RouteError::BadBody(e)
    }
}

/// The HTTP response an error is answered with.
#[derive(Debug, Clone)]
pub struct ErrorReply {
    pub status: u16,
    /// The value of an `Allow` header, where the response carries one.
    pub allow: Option<String>,
    pub details: ErrorDetails,
}

/// The message returned in place of an internal failure's own.
pub open spec fn internal_text() -> Seq<char> {
    "An internal error occurred"@
}

/// `d` is a generic error of code `code`, without vendor code, saying `msg`.
pub open spec fn is_generic(d: ErrorDetails, code: ErrorCode, msg: Seq<char>) -> bool {
    d matches ErrorDetails::Generic(g) && g.error_code == code && g.vendor_code is None && g.message@
        == msg
}

/// `d` is a vendor-specific error with vendor code `vendor`, saying `msg`.
pub open spec fn is_vendor(d: ErrorDetails, vendor: Seq<char>, msg: Seq<char>) -> bool {
    d matches ErrorDetails::Generic(g) && g.error_code == ErrorCode::VendorSpecific && (g.vendor_code matches Some(v)
        && v@ == vendor) && g.message@ == msg
}

/// `d` names `path` of the request body as incomplete, saying `msg`.
pub open spec fn is_data_error(d: ErrorDetails, path: Seq<char>, msg: Seq<char>) -> bool {
    d matches ErrorDetails::Data(dd) && dd.path.0@ == path && (dd.error matches Some(g)
        && g.error_code == ErrorCode::IncompleteRequest && g.vendor_code is None && g.message@ == msg)
}

/// The status of a failed bulk-data request.
pub open spec fn bulk_status(e: BulkDataError) -> u16 {
    match e {
        BulkDataError::Internal(_) => 500,
        BulkDataError::DeletionFailed(_) => 409,
        BulkDataError::InvalidRequest(_) => 400,
        BulkDataError::NotFound(_) => 404,
    }
}

/// `r` is the response to `e`. Internal failures are answered without their
/// own message.
pub open spec fn answers(e: RouteError, r: ErrorReply) -> bool {
    match e {
        RouteError::EntityNotFound(id) => r.status == 404 && r.allow is None && is_vendor(
            r.details,
            "entity-not-found"@,
            "Entity not found: "@ + id@,
        ),
        RouteError::ProviderNotAvailable(p) => r.status == 404 && r.allow is None && is_vendor(
            r.details,
            "provider-not-available"@,
            "Component has no "@ + p@,
        ),
        RouteError::Data(de) => match de {
            DataError::NotFound(_) => r.status == 404 && r.allow is None && is_generic(
                r.details,
                ErrorCode::ErrorResponse,
                de.text(),
            ),
            DataError::ReadOnly => r.status == 405 && (r.allow matches Some(a) && a@ == "GET"@)
                && is_vendor(r.details, "read-only"@, de.text()),
            DataError::InvalidValue { path, message } => r.status == 400 && r.allow is None
                && is_data_error(r.details, "/data"@ + path@, message@),
            DataError::Internal(_) => r.status == 500 && r.allow is None && is_generic(
                r.details,
                ErrorCode::ErrorResponse,
                internal_text(),
            ),
        },
        RouteError::BulkData(be) => r.status == bulk_status(be) && r.allow is None && is_generic(
            r.details,
            ErrorCode::ErrorResponse,
            if be is Internal {
                internal_text()
            } else {
                be.text()
            },
        ),
        RouteError::BadQuery => r.status == 400 && r.allow is None && is_generic(
            r.details,
            ErrorCode::IncompleteRequest,
            "Bad request"@,
        ),
        RouteError::InvalidHeader => r.status == 400 && r.allow is None && is_generic(
            r.details,
            ErrorCode::IncompleteRequest,
            "Bad request headers"@,
        ),
        RouteError::BadBody(rej) => match rej {
            BodyRejection::JsonData { path, body_text } => r.status == 400 && r.allow is None
                && is_data_error(r.details, path@, body_text@),
            BodyRejection::JsonSyntax { body_text } => r.status == 400 && r.allow is None
                && is_data_error(r.details, Seq::empty(), body_text@),
            BodyRejection::Other { status, body_text } => r.status == status && r.allow is None
                && is_generic(r.details, ErrorCode::IncompleteRequest, body_text@),
        },
        RouteError::Topology(te) => r.status == 404 && r.allow is None && is_generic(
            r.details,
            ErrorCode::ErrorResponse,
            te.text(),
        ),
    }
}

/// An error that names the element of the request body at `path`.
pub fn data_error(path: String, message: String) -> (r: ErrorDetails)
    ensures
        is_data_error(r, path@, message@),
{
    ErrorDetails::Data(
        DataErrorDetails {
            path: JsonPointer(path),
            error: Some(GenericError::new(ErrorCode::IncompleteRequest, message)),
        },
    )
}

fn generic_reply(status: u16, code: ErrorCode, message: String) -> (r: ErrorReply)
    ensures
        r.status == status,
        r.allow is None,
        is_generic(r.details, code, message@),
{
    ErrorReply {
        status,
        allow: None,
        details: ErrorDetails::Generic(GenericError::new(code, message)),
    }
}

fn vendor_reply(status: u16, vendor: &str, message: String) -> (r: ErrorReply)
    ensures
        r.status == status,
        r.allow is None,
        is_vendor(r.details, vendor@, message@),
{
    ErrorReply {
        status,
        allow: None,
        details: ErrorDetails::Generic(GenericError::with_vendor_code(vendor, message)),
    }
}

impl RouteError {
    /// The response this error is answered with.
    pub fn reply(&self) -> (r: ErrorReply)
        ensures
            answers(*self, r),
    {
        match self {
            RouteError::EntityNotFound(id) => vendor_reply(
                404,
                "entity-not-found",
                concat2("Entity not found: ", id.as_str()),
            ),
            RouteError::ProviderNotAvailable(p) => vendor_reply(
                404,
                "provider-not-available",
                concat2("Component has no ", p.as_str()),
            ),
            RouteError::Data(de) => match de {
                DataError::NotFound(_) => generic_reply(404, ErrorCode::ErrorResponse, de.message()),
                DataError::ReadOnly => {
                    let r = vendor_reply(405, "read-only", de.message());
                    ErrorReply { status: r.status, allow: Some("GET".to_owned()), details: r.details }
                },
                DataError::InvalidValue { path, message } => ErrorReply {
                    status: 400,
                    allow: None,
                    details: data_error(concat2("/data", path.as_str()), message.clone()),
                },
                DataError::Internal(_) => generic_reply(
                    500,
                    ErrorCode::ErrorResponse,
                    "An internal error occurred".to_owned(),
                ),
            },
            RouteError::BulkData(be) => {
                let status: u16 = match be {
                    BulkDataError::Internal(_) => 500,
                    BulkDataError::DeletionFailed(_) => 409,
                    BulkDataError::InvalidRequest(_) => 400,
                    BulkDataError::NotFound(_) => 404,
                };
                let message = match be {
                    BulkDataError::Internal(_) => "An internal error occurred".to_owned(),
                    _ => be.message(),
                };
                generic_reply(status, ErrorCode::ErrorResponse, message)
            },
            RouteError::BadQuery => generic_reply(400, ErrorCode::IncompleteRequest, "Bad request".to_owned()),
            RouteError::InvalidHeader => generic_reply(
                400,
                ErrorCode::IncompleteRequest,
                "Bad request headers".to_owned(),
            ),
            RouteError::BadBody(rej) => match rej {
                BodyRejection::JsonData { path, body_text } => ErrorReply {
                    status: 400,
                    allow: None,
                    details: data_error(path.clone(), body_text.clone()),
                },
                BodyRejection::JsonSyntax { body_text } => ErrorReply {
                    status: 400,
                    allow: None,
                    details: data_error(String::new(), body_text.clone()),
                },
                BodyRejection::Other { status, body_text } => generic_reply(
                    *status,
                    ErrorCode::IncompleteRequest,
                    body_text.clone(),
                ),
            },
            RouteError::Topology(te) => generic_reply(404, ErrorCode::ErrorResponse, te.message()),
        }
    }
}

/// The largest upload accepted, in bytes (1 GiB).
pub const MAX_BULKDATA_BODY_BYTES: u64 = 1073741824;

/// The scheme and mount path the server advertises.
#[derive(Debug, Clone)]
pub struct BaseUri {
    pub scheme: String,
    /// The mount path: a leading `/`, or empty at the root.
    pub path: String,
}

impl Default for BaseUri {
    fn default() -> (r: Self)
        ensures
            r.scheme@ == "http"@,
            r.path@ == Seq::<char>::empty(),
    {
        BaseUri { scheme: "http".to_owned(), path: String::new() }
    }
}

/// The text a `Host` header value gives, `localhost` where there is none or
/// it is not text.
pub open spec fn host_or_default(host: Option<Seq<u8>>) -> Seq<char> {
    match host {
        Some(b) => if forall|i: int| 0 <= i < b.len() ==> is_visible_ascii(#[trigger] b[i]) {
            Seq::new(b.len(), |i: int| b[i] as char)
        } else {
            "localhost"@
        },
        None => "localhost"@,
    }
}

/// The URI the server is reached at: `{scheme}://{host}{path}`, the scheme
/// `http` and the path empty where no base is configured.
pub open spec fn base_uri_of(base: Option<&BaseUri>, host: Option<&[u8]>) -> Seq<char> {
    (match base {
        Some(b) => b.scheme@,
        None => "http"@,
    }) + "://"@ + host_or_default(
        match host {
            Some(h) => Some(h@),
            None => None,
        },
    ) + (match base {
        Some(b) => b.path@,
        None => Seq::empty(),
    })
}

/// The URI the server is reached at.
pub fn base_uri(base: Option<&BaseUri>, host: Option<&[u8]>) -> (r: String)
    ensures
        r@ == base_uri_of(base, host),
{
    let mut s = match base {
        Some(b) => b.scheme.clone(),
        None => "http".to_owned(),
    };
    push_str(&mut s, "://");
    let ghost before = s@;
    match host {
        Some(h) => match header_text(h) {
            Some(v) => {
                let t = string_of(&v);
                push_str(&mut s, t.as_str());
                assert(t@ =~= Seq::new(h@.len(), |i: int| h@[i] as char));
            },
            None => {
                push_str(&mut s, "localhost");
            },
        },
        None => {
            push_str(&mut s, "localhost");
        },
    }
    match base {
        Some(b) => push_str(&mut s, b.path.as_str()),
        None => {},
    }
    s
}

/// The URI of the versioned API: the base URI followed by `/v1`.
pub fn versioned_uri(base: Option<&BaseUri>, host: Option<&[u8]>) -> (r: String)
    ensures
        r@ == base_uri_of(base, host) + "/v1"@,
{
    let b = base_uri(base, host);
    concat2(b.as_str(), "/v1")
}

/// The message of an upload that is too large.
pub open spec fn too_large_text() -> Seq<char> {
    "Content-Length exceeds maximum allowed size of 1073741824 bytes"@
}

/// Refuses an upload larger than [`MAX_BULKDATA_BODY_BYTES`].
pub fn check_upload_size(content_length: u64) -> (r: Result<(), BulkDataError>)
    ensures
        content_length <= MAX_BULKDATA_BODY_BYTES <==> r is Ok,
        r matches Err(e) ==> (e matches BulkDataError::InvalidRequest(m) && m@ == too_large_text()),
{
    if content_length > MAX_BULKDATA_BODY_BYTES {
        Err(
            BulkDataError::InvalidRequest(
                "Content-Length exceeds maximum allowed size of 1073741824 bytes".to_owned(),
            ),
        )
    } else {
        Ok(())
    }
}

/// A lower-case hexadecimal digit.
pub open spec fn is_lower_hex(c: char) -> bool {
    ('0' <= c && c <= '9') || ('a' <= c && c <= 'f')
}

/// The hyphenated lower-case text of a random (version 4, RFC 4122 variant)
/// UUID: 8-4-4-4-12 hexadecimal digits, the version digit `4`, and the
/// variant digit one of `8`, `9`, `a`, `b`.
pub open spec fn is_uuid_v4_text(t: Seq<char>) -> bool {
    &&& t.len() == 36
    &&& forall|i: int|
        0 <= i < 36 ==> if i == 8 || i == 13 || i == 18 || i == 23 {
            t[i] == '-'
        } else {
            is_lower_hex(#[trigger] t[i])
        }
    &&& t[14] == '4'
    &&& (t[19] == '8' || t[19] == '9' || t[19] == 'a' || t[19] == 'b')
}

/// A fresh random version-4 UUID in its hyphenated text
/// (`uuid::Uuid::new_v4`, then `to_string`). The digits come from a random
/// number generator; only the shape of the text is promised.
#[verifier::external_body]
fn fresh_uuid() -> (r: String)
    ensures
        is_uuid_v4_text(r@),
{
    uuid::Uuid::new_v4().to_string()
}

/// The id an upload is stored under: the `filename` parameter, else the
/// `name` parameter, else a fresh random UUID.
pub fn upload_filename(cd: &ContentDisposition) -> (r: String)
    ensures
        cd.filename matches Some(f) ==> r@ == f@,
        cd.filename is None ==> (cd.name matches Some(n) ==> r@ == n@),
        cd.filename is None && cd.name is None ==> is_uuid_v4_text(r@),
{
    match &cd.filename {
        Some(f) => f.clone(),
        None => match &cd.name {
            Some(n) => n.clone(),
            None => fresh_uuid(),
        },
    }
}

/// The size bound of one part of a multipart upload: its own
/// `Content-Length` where that is visible ASCII and a number, else the
/// request's.
pub open spec fn field_length_of(header: Option<Seq<u8>>, fallback: u64) -> u64 {
    match header {
        Some(h) => if forall|i: int| 0 <= i < h.len() ==> is_visible_ascii(#[trigger] h[i]) {
            match parsed_u64(Seq::new(h.len(), |i: int| h[i] as char)) {
                Some(n) => n,
                None => fallback,
            }
        } else {
            fallback
        },
        None => fallback,
    }
}

/// The bytes of an optional header value.
pub open spec fn opt_bytes(h: Option<&[u8]>) -> Option<Seq<u8>> {
    match h {
        Some(b) => Some(b@),
        None => None,
    }
}

/// The size bound of one part of a multipart upload: its own
/// `Content-Length` where that is a number, else the request's.
pub fn field_upload_length(header: Option<&[u8]>, fallback: u64) -> (r: u64)
    ensures
        r == field_length_of(opt_bytes(header), fallback),
{
    match header {
        Some(h) => match header_text(h) {
            Some(v) => {
                assert(v@ =~= Seq::new(h@.len(), |i: int| h@[i] as char));
                match parse_u64(&v) {
                    Some(n) => n,
                    None => fallback,
                }
            },
            None => fallback,
        },
        None => fallback,
    }
}

/// What a part of a multipart upload holds, by its content type.
#[derive(Debug, Clone, Copy, PartialEq, Eq)]
pub enum FieldKind {
    /// JSON that may carry the signature.
    Signature,
    /// The content to store.
    Content,
    /// Anything else, which is refused.
    Unexpected,
}

/// The kind of a multipart part, by its content type.
pub fn field_kind(content_type: Option<&str>) -> (r: FieldKind)
    ensures
        r == (match content_type {
            Some(t) => if t@ == "application/json"@ {
                FieldKind::Signature
            } else if t@ == "application/octet-stream"@ {
                FieldKind::Content
            } else {
                FieldKind::Unexpected
            },
            None => FieldKind::Unexpected,
        }),
{
    match content_type {
        Some(t) => {
            if crate::keyed::compare_keys(t, "application/json") == 0 {
                FieldKind::Signature
            } else if crate::keyed::compare_keys(t, "application/octet-stream") == 0 {
                FieldKind::Content
            } else {
                FieldKind::Unexpected
            }
        },
        None => FieldKind::Unexpected,
    }
}

/// The message of a part of unexpected content type.
pub open spec fn unexpected_part_text() -> Seq<char> {
    "unexpected content type"@
}

/// The message of a multipart upload without content.
pub open spec fn no_content_text() -> Seq<char> {
    "no file content received"@
}

/// The refusal of a part of unexpected content type.
pub fn unexpected_part() -> (r: BulkDataError)
    ensures
        r matches BulkDataError::InvalidRequest(m) && m@ == unexpected_part_text(),
{
    BulkDataError::InvalidRequest("unexpected content type".to_owned())
}

/// The refusal of a multipart upload that carried no content part.
pub fn no_content() -> (r: BulkDataError)
    ensures
        r matches BulkDataError::InvalidRequest(m) && m@ == no_content_text(),
{
    BulkDataError::InvalidRequest("no file content received".to_owned())
}

/// What JSON text gives as its member `key`: the text of that member where
/// the text is a JSON object holding it as a string, nothing otherwise; or
/// the message of the error where the text is not JSON.
pub uninterp spec fn json_string_member(text: Seq<char>, key: Seq<char>) -> Result<Option<Seq<char>>, Seq<char>>;

/// What a JSON part of an upload gives as its signature: its `signature`
/// member, see [`json_string_member`].
pub open spec fn json_signature(text: Seq<char>) -> Result<Option<Seq<char>>, Seq<char>> {
    json_string_member(text, "signature"@)
}

/// Parses JSON text and takes its member `key` where it is a string
/// (`serde_json::from_str`, `Value::get`, `Value::as_str`; the error's message
/// by `to_string`).
#[verifier::external_body]
fn read_json_member(text: &str, key: &str) -> (r: Result<Option<String>, String>)
    ensures
        match r {
            Ok(Some(s)) => json_string_member(text@, key@) == Result::<Option<Seq<char>>, Seq<char>>::Ok(Some(s@)),
            Ok(None) => json_string_member(text@, key@) == Result::<Option<Seq<char>>, Seq<char>>::Ok(None),
            Err(m) => json_string_member(text@, key@) == Result::<Option<Seq<char>>, Seq<char>>::Err(m@),
        },
{
    match serde_json::from_str::<serde_json::Value>(text) {
        Ok(json) => Ok(json.get(key).and_then(|s| s.as_str()).map(|s| s.to_string())),
        Err(e) => Err(e.to_string()),
    }
}

/// The signature a JSON part of an upload carries; a part that is not JSON
/// is an invalid request.
pub fn signature_part(text: &str) -> (r: Result<Option<String>, BulkDataError>)
    ensures
        match json_signature(text@) {
            Ok(Some(s)) => r matches Ok(Some(t)) && t@ == s,
            Ok(None) => r matches Ok(None),
            Err(m) => r matches Err(BulkDataError::InvalidRequest(t)) && t@ == m,
        },
{
    match read_json_member(text, "signature") {
        Ok(sig) => Ok(sig),
        Err(m) => Err(BulkDataError::InvalidRequest(m)),
    }
}

/// What the upload handler reads next from a multipart body.
#[derive(Debug, Clone)]
pub enum MultipartEvent {
    /// A JSON part, with its text.
    Json(String),
    /// A content part, with its own `Content-Length` header where it has one.
    Content(Option<Vec<u8>>),
    /// A part of another content type.
    Other,
    /// The body has no more parts.
    End,
}

/// What the upload handler does next.
#[derive(Debug, Clone)]
pub enum MultipartAction {
    /// Read the next part.
    Next,
    /// Store the content part, at most `length` bytes, with the signature
    /// gathered so far; the upload then ends.
    Upload { length: u64, signature: Option<String> },
    /// Refuse the upload.
    Fail(BulkDataError),
}

/// The header bytes a content part carries.
pub open spec fn opt_vec_bytes(h: Option<Vec<u8>>) -> Option<Seq<u8>> {
    match h {
        Some(b) => Some(b@),
        None => None,
    }
}

/// The handler's decision on a part of a multipart upload, given the
/// signature gathered so far and the request's `Content-Length`.
pub open spec fn multipart_decision(
    sig: Option<Seq<char>>,
    e: MultipartEvent,
    request_length: u64,
    r: (Option<String>, MultipartAction),
) -> bool {
    match e {
        MultipartEvent::Json(t) => match json_signature(t@) {
            Ok(Some(s)) => opt_view(r.0) == Some(s) && r.1 is Next,
            Ok(None) => opt_view(r.0) == sig && r.1 is Next,
            Err(m) => opt_view(r.0) == sig && (r.1 matches MultipartAction::Fail(
                BulkDataError::InvalidRequest(t),
            ) && t@ == m),
        },
        MultipartEvent::Content(h) => opt_view(r.0) == sig && (r.1 matches MultipartAction::Upload {
            length,
            signature,
        } && length == field_length_of(opt_vec_bytes(h), request_length) && opt_view(signature)
            == sig),
        MultipartEvent::Other => opt_view(r.0) == sig && (r.1 matches MultipartAction::Fail(
            BulkDataError::InvalidRequest(t),
        ) && t@ == unexpected_part_text()),
        MultipartEvent::End => opt_view(r.0) == sig && (r.1 matches MultipartAction::Fail(
            BulkDataError::InvalidRequest(t),
        ) && t@ == no_content_text()),
    }
}

/// Decides on one part of a multipart upload: a JSON part may set the
/// signature, the first content part is stored with the signature gathered
/// before it, a part of another type is refused, and a body that ends
/// before any content part is refused.
pub fn multipart_step(sig: Option<String>, e: MultipartEvent, request_length: u64) -> (r: (
    Option<String>,
    MultipartAction,
))
    ensures
        multipart_decision(opt_view(sig), e, request_length, r),
{
    match e {
        MultipartEvent::Json(t) => match signature_part(t.as_str()) {
            Ok(Some(s)) => (Some(s), MultipartAction::Next),
            Ok(None) => (sig, MultipartAction::Next),
            Err(err) => (sig, MultipartAction::Fail(err)),
        },
        MultipartEvent::Content(h) => {
            let length = match &h {
                Some(b) => field_upload_length(Some(b.as_slice()), request_length),
                None => field_upload_length(None, request_length),
            };
            let signature = sig.clone();
            (sig, MultipartAction::Upload { length, signature })
        },
        MultipartEvent::Other => (sig, MultipartAction::Fail(unexpected_part())),
        MultipartEvent::End => (sig, MultipartAction::Fail(no_content())),
    }
}

/// Where a stored upload can be fetched:
/// `{base}/{collection}/{entity}/bulk-data/{category}/{filename}`.
pub fn upload_location(
    base: &str,
    collection: &str,
    entity: &str,
    category: &str,
    filename: &str,
) -> (r: String)
    ensures
        r@ == base@ + "/"@ + collection@ + "/"@ + entity@ + "/bulk-data/"@ + category@ + "/"@
            + filename@,
{
    let mut s = concat2(base, "/");
    push_str(&mut s, collection);
    push_str(&mut s, "/");
    push_str(&mut s, entity);
    push_str(&mut s, "/bulk-data/");
    push_str(&mut s, category);
    push_str(&mut s, "/");
    push_str(&mut s, filename);
    s
}

/// The `Content-Disposition` of a download: `attachment; filename="{id}"`.
pub fn attachment_disposition(id: &str) -> (r: String)
    ensures
        r@ == "attachment; filename=\""@ + id@ + "\""@,
{
    let mut s = concat2("attachment; filename=\"", id);
    push_str(&mut s, "\"");
    s
}

/// The filter a listing query asks for.
pub fn category_filter(query: &BulkDataDescriptorsQuery) -> (r: CategoryFilter)
    ensures
        r.created_before == query.created_before,
        r.created_after == query.created_after,
        r.tags is Some <==> query.tags is Some,
        r.tags matches Some(t) ==> t@.len() == query.tags->0@.len() && forall|i: int|
            0 <= i < t@.len() ==> (#[trigger] t@[i])@ == query.tags->0@[i]@,
{
    let tags = match &query.tags {
        Some(t) => {
            let mut c: Vec<String> = Vec::new();
            for i in 0..t.len()
                invariant
                    c@.len() == i,
                    forall|j: int| 0 <= j < i ==> (#[trigger] c@[j])@ == t@[j]@,
            {
                c.push(t[i].clone());
            }
            Some(c)
        },
        None => None,
    };
    CategoryFilter {
        created_before: query.created_before,
        created_after: query.created_after,
        tags,
    }
}

/// The categories a provider lists, as the response names them.
pub fn category_items(cats: &Vec<CategoryInfo>) -> (r: AvailableBulkDataCategories)
    ensures
        r.items@.len() == cats@.len(),
        forall|i: int| 0 <= i < cats@.len() ==> (#[trigger] r.items@[i]).0@ == cats@[i].category@,
{
    let mut items: Vec<BulkDataCategory> = Vec::new();
    for i in 0..cats.len()
        invariant
            items@.len() == i,
            forall|j: int| 0 <= j < i ==> (#[trigger] items@[j]).0@ == cats@[j].category@,
    {
        items.push(BulkDataCategory(cats[i].category.clone()));
    }
    AvailableBulkDataCategories { items }
}

/// The views of an optional list of strings.
pub open spec fn opt_strings(o: Option<Vec<String>>) -> Option<Seq<Seq<char>>> {
    match o {
        Some(v) => Some(v@.map_values(|s: String| s@)),
        None => None,
    }
}

/// The views of optional tags.
pub open spec fn opt_tags(o: Option<SupportedTags>) -> Option<Seq<Seq<char>>> {
    match o {
        Some(t) => Some(t.0@.map_values(|s: String| s@)),
        None => None,
    }
}

/// A descriptor tells what the provider's metadata of the item tells.
pub open spec fn describes_item(d: BulkDataDescriptor, m: crate::bulkdata::BulkDataMetadata) -> bool {
    &&& d.id@ == m.id@
    &&& d.mimetype@ == m.mimetype@
    &&& opt_view(d.name) == opt_view(m.name)
    &&& opt_view(d.translation_id) == opt_view(m.translation_id)
    &&& d.size == m.size
    &&& d.creation_date == m.creation_date
    &&& d.last_modified == m.last_modified
    &&& opt_view(d.hash) == opt_view(m.hash)
    &&& opt_view(d.hash_algorithm) == opt_view(m.hash_algorithm)
    &&& opt_tags(d.tags) == opt_strings(m.tags)
}

fn copy_opt(o: &Option<String>) -> (r: Option<String>)
    ensures
        opt_view(r) == opt_view(*o),
{
    match o {
        Some(s) => Some(s.clone()),
        None => None,
    }
}

fn copy_strings(v: &Vec<String>) -> (r: Vec<String>)
    ensures
        r@.map_values(|s: String| s@) == v@.map_values(|s: String| s@),
{
    let mut r: Vec<String> = Vec::new();
    for i in 0..v.len()
        invariant
            r@.len() == i,
            forall|j: int| 0 <= j < i ==> (#[trigger] r@[j])@ == v@[j]@,
    {
        r.push(v[i].clone());
    }
    assert(r@.map_values(|s: String| s@) =~= v@.map_values(|s: String| s@));
    r
}

/// The descriptors of the items a provider lists, in its order.
pub fn descriptor_items(metas: &Vec<crate::bulkdata::BulkDataMetadata>) -> (r: BulkDataMetadata)
    ensures
        r.items@.len() == metas@.len(),
        forall|i: int| 0 <= i < metas@.len() ==> describes_item(#[trigger] r.items@[i], metas@[i]),
{
    let mut items: Vec<BulkDataDescriptor> = Vec::new();
    for i in 0..metas.len()
        invariant
            items@.len() == i,
            forall|j: int| 0 <= j < i ==> describes_item(#[trigger] items@[j], metas@[j]),
    {
        let m = &metas[i];
        let tags = match &m.tags {
            Some(t) => Some(SupportedTags(copy_strings(t))),
            None => None,
        };
        items.push(
            BulkDataDescriptor {
                id: m.id.clone(),
                mimetype: m.mimetype.clone(),
                name: copy_opt(&m.name),
                translation_id: copy_opt(&m.translation_id),
                size: m.size,
                creation_date: m.creation_date,
                last_modified: m.last_modified,
                hash: copy_opt(&m.hash),
                hash_algorithm: copy_opt(&m.hash_algorithm),
                tags,
            },
        );
    }
    BulkDataMetadata { items }
}

/// The entity collections that hold bulk data.
#[derive(Debug, Clone, Copy, PartialEq, Eq)]
pub enum EntityCollection {
    Components,
    Apps,
}

/// The collection a path names; any other is an unknown entity.
pub fn entity_collection(collection: &str) -> (r: Result<EntityCollection, RouteError>)
    ensures
        collection@ == "components"@ ==> r == Ok::<EntityCollection, RouteError>(EntityCollection::Components),
        collection@ == "apps"@ ==> r == Ok::<EntityCollection, RouteError>(EntityCollection::Apps),
        collection@ != "components"@ && collection@ != "apps"@ ==> (r matches Err(RouteError::EntityNotFound(c))
            && c@ == collection@),
{
    proof {
        reveal_strlit("apps");
        reveal_strlit("components");
        assert("apps"@.len() != "components"@.len());
    }
    if crate::keyed::compare_keys(collection, "components") == 0 {
        Ok(EntityCollection::Components)
    } else if crate::keyed::compare_keys(collection, "apps") == 0 {
        Ok(EntityCollection::Apps)
    } else {
        Err(RouteError::EntityNotFound(collection.to_owned()))
    }
}

} // verus!

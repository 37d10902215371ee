//! Wire types of the SOVD API: references, JSON pointers, errors and the
//! bulk-data bodies.

use vstd::prelude::*;

use crate::bulkdata::UtcTime;
use crate::text::{chars_of, decimal, find_char, has_prefix, push_char, push_decimal, starts_with_at};

verus! {

/// A URI reference, absolute or relative.
#[derive(Debug, Clone, PartialEq, Eq)]
pub struct UriReference(pub String);

impl From<String> for UriReference {
    fn from(s: String) -> (r: Self) {
        UriReference(s)
    }
}

impl vstd::std_specs::convert::FromSpecImpl<String> for UriReference {
    open spec fn obeys_from_spec() -> bool {
        true
    }

    open spec fn from_spec(v: String) -> Self {
        UriReference(v)
    }
}

/// A JSON pointer (RFC 6901) into a request or response body.
#[derive(Debug, Clone, PartialEq, Eq)]
pub struct JsonPointer(pub String);

impl From<String> for JsonPointer {
    fn from(s: String) -> (r: Self) {
        JsonPointer(s)
    }
}

impl vstd::std_specs::convert::FromSpecImpl<String> for JsonPointer {
    open spec fn obeys_from_spec() -> bool {
        true
    }

    open spec fn from_spec(v: String) -> Self {
        JsonPointer(v)
    }
}

/// The tags of a resource.
#[derive(Debug, Clone, PartialEq, Eq)]
pub struct SupportedTags(pub Vec<String>);

impl From<Vec<String>> for SupportedTags {
    fn from(v: Vec<String>) -> (r: Self) {
        SupportedTags(v)
    }
}

impl vstd::std_specs::convert::FromSpecImpl<Vec<String>> for SupportedTags {
    open spec fn obeys_from_spec() -> bool {
        true
    }

    open spec fn from_spec(v: Vec<String>) -> Self {
        SupportedTags(v)
    }
}

/// One step of the path at which deserialization failed.
#[derive(Debug, Clone, PartialEq, Eq)]
pub enum PathSegment {
    /// An element of a sequence.
    Index { index: usize },
    /// A field of a map or struct.
    Field { key: String },
    /// A variant of an enum.
    Variant { variant: String },
    /// A step that cannot be named.
    Unknown,
}

/// A reference token escaped for a JSON pointer: `~` as `~0`, `/` as `~1`.
pub open spec fn escape_token(t: Seq<char>) -> Seq<char>
    decreases t.len(),
{
    if t.len() == 0 {
        Seq::empty()
    } else {
        let c = t.last();
        escape_token(t.drop_last()) + (if c == '~' {
            seq!['~', '0']
        } else if c == '/' {
            seq!['~', '1']
        } else {
            seq![c]
        })
    }
}

/// An escaped reference token holds no `/`, so a pointer's `/` always
/// separates tokens.
pub proof fn lemma_escaped_has_no_slash(t: Seq<char>)
    ensures
        !escape_token(t).contains('/'),
    decreases t.len(),
{
    if t.len() > 0 {
        lemma_escaped_has_no_slash(t.drop_last());
        let c = t.last();
        let tail: Seq<char> = if c == '~' {
            seq!['~', '0']
        } else if c == '/' {
            seq!['~', '1']
        } else {
            seq![c]
        };
        let e = escape_token(t.drop_last());
        assert forall|i: int| 0 <= i < (e + tail).len() implies (e + tail)[i] != '/' by {
            if i < e.len() {
                assert((e + tail)[i] == e[i]);
            } else {
                assert((e + tail)[i] == tail[i - e.len()]);
            }
        }
    }
}

/// The reference token a step contributes, if any.
pub open spec fn segment_token(s: PathSegment) -> Option<Seq<char>> {
    match s {
        PathSegment::Index { index } => Some(decimal(index as nat)),
        PathSegment::Field { key } => Some(key@),
        PathSegment::Variant { variant } => Some(variant@),
        PathSegment::Unknown => None,
    }
}

/// The pointer that walks the given steps.
pub open spec fn pointer_of(segs: Seq<PathSegment>) -> Seq<char>
    decreases segs.len(),
{
    if segs.len() == 0 {
        Seq::empty()
    } else {
        pointer_of(segs.drop_last()) + match segment_token(segs.last()) {
            Some(t) => seq!['/'] + escape_token(t),
            None => Seq::empty(),
        }
    }
}

/// The field a "missing field" message names: the text between the opening
/// backtick and the next one (or the end).
pub open spec fn missing_field(msg: Seq<char>) -> Option<Seq<char>> {
    let p = "missing field `"@;
    if has_prefix(msg, p) {
        let rest = msg.skip(p.len() as int);
        Some(rest.take(first_index_of(rest, '`')))
    } else {
        None
    }
}

/// The index of the first `c` in `s`, or its length where there is none.
pub open spec fn first_index_of(s: Seq<char>, c: char) -> int
    decreases s.len(),
{
    if s.len() == 0 {
        0
    } else if s[0] == c {
        0
    } else {
        1 + first_index_of(s.drop_first(), c)
    }
}

proof fn lemma_first_index_of(s: Seq<char>, c: char, i: int)
    requires
        0 <= i <= s.len(),
        forall|j: int| 0 <= j < i ==> s[j] != c,
        i < s.len() ==> s[i] == c,
    ensures
        first_index_of(s, c) == i,
    decreases s.len(),
{
    if s.len() > 0 && i > 0 {
        assert forall|j: int| 0 <= j < i - 1 implies s.drop_first()[j] != c by {
            assert(s.drop_first()[j] == s[j + 1]);
        }
        lemma_first_index_of(s.drop_first(), c, i - 1);
    }
}

/// Appends the escaped form of `t` to `s`.
fn push_escaped(s: &mut String, t: &Vec<char>)
    ensures
        final(s)@ == old(s)@ + escape_token(t@),
{
    let ghost start = s@;
    for i in 0..t.len()
        invariant
            s@ == start + escape_token(t@.take(i as int)),
    {
        let c = t[i];
        assert(t@.take(i + 1).drop_last() =~= t@.take(i as int));
        if c == '~' {
            push_char(s, '~');
            push_char(s, '0');
        } else if c == '/' {
            push_char(s, '~');
            push_char(s, '1');
        } else {
            push_char(s, c);
        }
        assert(s@ =~= start + escape_token(t@.take(i + 1)));
    }
    assert(t@.take(t.len() as int) =~= t@);
}

impl JsonPointer {
    /// Points at the element where deserialization failed, given the steps
    /// that led there and the failure's message; a missing field is pointed
    /// at itself.
    pub fn from_segments(segments: &Vec<PathSegment>, message: &str) -> (r: JsonPointer)
        ensures
            r.0@ == pointer_of(segments@) + match missing_field(message@) {
                Some(f) => seq!['/'] + escape_token(f),
                None => Seq::empty(),
            },
    {
        let mut pointer = String::new();
        for i in 0..segments.len()
            invariant
                pointer@ == pointer_of(segments@.take(i as int)),
        {
            assert(segments@.take(i + 1).drop_last() =~= segments@.take(i as int));
            match &segments[i] {
                PathSegment::Index { index } => {
                    push_char(&mut pointer, '/');
                    let mut digits = String::new();
                    push_decimal(&mut digits, *index as u64);
                    let d = chars_of(digits.as_str());
                    push_escaped(&mut pointer, &d);
                },
                PathSegment::Field { key } => {
                    push_char(&mut pointer, '/');
                    let k = chars_of(key.as_str());
                    push_escaped(&mut pointer, &k);
                },
                PathSegment::Variant { variant } => {
                    push_char(&mut pointer, '/');
                    let k = chars_of(variant.as_str());
                    push_escaped(&mut pointer, &k);
                },
                PathSegment::Unknown => {},
            }
            assert(pointer@ =~= pointer_of(segments@.take(i + 1)));
        }
        assert(segments@.take(segments.len() as int) =~= segments@);
        let ghost walked = pointer@;
        let m = chars_of(message);
        let prefix = chars_of("missing field `");
        if starts_with_at(&m, 0, &prefix) {
            let lo = prefix.len();
            let mut rest: Vec<char> = Vec::new();
            let mut i = lo;
            while i < m.len()
                invariant
                    lo <= i <= m.len(),
                    rest@ == m@.subrange(lo as int, i as int),
                decreases m.len() - i,
            {
                rest.push(m[i]);
                assert(m@.subrange(lo as int, i + 1) =~= m@.subrange(lo as int, i as int).push(m@[i as int]));
                i = i + 1;
            }
            let end = find_char(&rest, '`');
            let mut field: Vec<char> = Vec::new();
            let mut j: usize = 0;
            while j < end
                invariant
                    j <= end <= rest.len(),
                    field@ == rest@.take(j as int),
                decreases end - j,
            {
                field.push(rest[j]);
                assert(rest@.take(j + 1) =~= rest@.take(j as int).push(rest@[j as int]));
                j = j + 1;
            }
            proof {
                assert(m@.subrange(0, m@.len() as int) =~= m@);
                assert(rest@ =~= message@.skip(prefix@.len() as int));
                lemma_first_index_of(rest@, '`', end as int);
            }
            push_char(&mut pointer, '/');
            push_escaped(&mut pointer, &field);
            assert(pointer@ =~= walked + seq!['/'] + escape_token(field@));
        } else {
            proof {
                assert(m@.subrange(0, m@.len() as int) =~= m@);
            }
            assert(pointer@ =~= walked + Seq::<char>::empty());
        }
        JsonPointer(pointer)
    }
}

/// The machine-readable kind of an error.
#[derive(Debug, Clone, Copy, PartialEq, Eq)]
pub enum ErrorCode {
    /// The request failed on the server's side.
    ErrorResponse,
    /// The request lacked something or held something malformed.
    IncompleteRequest,
    /// A code the vendor defines, named in `vendor_code`.
    VendorSpecific,
}

impl ErrorCode {
    /// The name of the code on the wire.
    pub open spec fn wire(self) -> Seq<char> {
        match self {
            ErrorCode::ErrorResponse => "error-response"@,
            ErrorCode::IncompleteRequest => "incomplete-request"@,
            ErrorCode::VendorSpecific => "vendor-specific"@,
        }
    }

    /// The name of the code on the wire.
    pub fn as_str(&self) -> (r: &'static str)
        ensures
            r@ == self.wire(),
    {
        match self {
            ErrorCode::ErrorResponse => "error-response",
            ErrorCode::IncompleteRequest => "incomplete-request",
            ErrorCode::VendorSpecific => "vendor-specific",
        }
    }
}

/// An error body.
#[derive(Debug, Clone)]
pub struct GenericError {
    pub error_code: ErrorCode,
    pub vendor_code: Option<String>,
    pub message: String,
}

impl GenericError {
    /// An error of the given kind.
    pub fn new(error_code: ErrorCode, message: String) -> (r: Self)
        ensures
            r.error_code == error_code,
            r.vendor_code is None,
            r.message@ == message@,
    {
        GenericError { error_code, vendor_code: None, message }
    }

    /// A vendor-specific error.
    pub fn with_vendor_code(vendor_code: &str, message: String) -> (r: Self)
        ensures
            r.error_code == ErrorCode::VendorSpecific,
            r.vendor_code matches Some(v) && v@ == vendor_code@,
            r.message@ == message@,
    {
        GenericError {
            error_code: ErrorCode::VendorSpecific,
            vendor_code: Some(vendor_code.to_owned()),
            message,
        }
    }
}

/// An error that names the element of the request body it concerns.
#[derive(Debug, Clone)]
pub struct DataErrorDetails {
    pub path: JsonPointer,
    pub error: Option<GenericError>,
}

/// The body of an error response.
#[derive(Debug, Clone)]
pub enum ErrorDetails {
    Generic(GenericError),
    Data(DataErrorDetails),
}

/// Query of the bulk-data categories.
#[derive(Debug, Clone, Default)]
pub struct BulkDataCategoriesQuery {
    pub include_schema: bool,
}

/// Query of the items of a bulk-data category.
#[derive(Debug, Clone, Default)]
pub struct BulkDataDescriptorsQuery {
    pub include_schema: bool,
    pub created_before: Option<UtcTime>,
    pub created_after: Option<UtcTime>,
    pub tags: Option<Vec<String>>,
}

/// The name of a bulk-data category.
#[derive(Debug, Clone, PartialEq, Eq)]
pub struct BulkDataCategory(pub String);

/// One stored item of a bulk-data category, as the response describes it.
#[derive(Debug, Clone)]
pub struct BulkDataDescriptor {
    pub id: String,
    pub mimetype: String,
    pub name: Option<String>,
    pub translation_id: Option<String>,
    pub size: Option<u64>,
    pub creation_date: Option<UtcTime>,
    pub last_modified: Option<UtcTime>,
    pub hash: Option<String>,
    pub hash_algorithm: Option<String>,
    pub tags: Option<SupportedTags>,
}

/// The items of a bulk-data category.
#[derive(Debug, Clone)]
pub struct BulkDataMetadata {
    pub items: Vec<BulkDataDescriptor>,
}

/// The bulk-data categories of an entity.
#[derive(Debug, Clone)]
pub struct AvailableBulkDataCategories {
    pub items: Vec<BulkDataCategory>,
}

/// The content of a downloaded item with its signature.
#[derive(Debug, Clone)]
pub struct BulkDataDownload {
    pub signature: String,
    pub data: Vec<u8>,
}

/// The id under which an upload was stored.
#[derive(Debug, Clone)]
pub struct BulkDataUpload {
    pub id: String,
}

/// Why one item could not be deleted.
#[derive(Debug, Clone)]
pub struct DeleteBulkDataError {
    pub id: String,
    pub error: GenericError,
}

/// What a deletion of many items did.
#[derive(Debug, Clone)]
pub struct DeleteBulkDataResult {
    pub deleted_ids: Vec<String>,
    pub errors: Vec<DeleteBulkDataError>,
}

} // verus!

//! Bulk data: the provider's types and an in-memory provider.
//!
//! The in-memory provider keeps `category → (data id → bytes)` and a set of
//! protected `(category, data id)` entries that can never be deleted.

use vstd::prelude::*;

use crate::keyed::{
    compare_keys, key_index, kv_find, kv_insert_at, kv_map, kv_remove, kv_set, lemma_kv_map_at,
    lemma_kv_map_push, seq_lt, sorted_keys,
};
use crate::text::{chars_of, push_str};

verus! {

/// A point in time, in UTC: seconds since the Unix epoch and the nanoseconds
/// past that second.
#[derive(Debug, Clone, Copy, PartialEq, Eq)]
pub struct UtcTime {
    pub seconds: i64,
    pub nanos: u32,
}

/// Why a bulk-data request failed.
#[derive(Debug, Clone)]
pub enum BulkDataError {
    InvalidRequest(String),
    DeletionFailed(String),
    Internal(String),
    NotFound(String),
}

impl BulkDataError {
    /// The message that describes the error.
    pub open spec fn text(&self) -> Seq<char> {
        match self {
            BulkDataError::InvalidRequest(m) => "invalid request: "@ + m@,
            BulkDataError::DeletionFailed(m) => "bulk data deletion failed: "@ + m@,
            BulkDataError::Internal(m) => m@,
            BulkDataError::NotFound(m) => "bulk data not found: "@ + m@,
        }
    }

    /// The message that describes the error.
    pub fn message(&self) -> (r: String)
        ensures
            r@ == self.text(),
    {
        match self {
            BulkDataError::InvalidRequest(m) => {
                let mut s = "invalid request: ".to_owned();
                push_str(&mut s, m.as_str());
                s
            },
            BulkDataError::DeletionFailed(m) => {
                let mut s = "bulk data deletion failed: ".to_owned();
                push_str(&mut s, m.as_str());
                s
            },
            BulkDataError::Internal(m) => m.clone(),
            BulkDataError::NotFound(m) => {
                let mut s = "bulk data not found: ".to_owned();
                push_str(&mut s, m.as_str());
                s
            },
        }
    }
}

/// A category of bulk data, with the key of its display name.
#[derive(Debug, Clone)]
pub struct CategoryInfo {
    pub category: String,
    pub translation_id: Option<String>,
}

/// Which items of a category a listing asks for.
#[derive(Debug, Clone)]
pub struct CategoryFilter {
    pub created_before: Option<UtcTime>,
    pub created_after: Option<UtcTime>,
    pub tags: Option<Vec<String>>,
}

/// What a provider tells of one stored item.
#[derive(Debug, Clone)]
pub struct BulkDataMetadata {
    pub id: String,
    pub mimetype: String,
    pub name: Option<String>,
    pub translation_id: Option<String>,
    pub size: Option<u64>,
    pub creation_date: Option<UtcTime>,
    pub last_modified: Option<UtcTime>,
    pub hash: Option<String>,
    pub hash_algorithm: Option<String>,
    pub tags: Option<Vec<String>>,
}

/// The content of a stored item, with its signature where it has one.
#[derive(Debug, Clone)]
pub struct BulkData {
    pub signature: Option<String>,
    pub data: Vec<u8>,
}

/// The outcome of deleting one item of a category.
#[derive(Debug)]
pub struct DeletedBulkDataItem {
    pub id: String,
    pub error: Option<BulkDataError>,
}

/// The stored content: category → (data id → bytes).
pub type BulkStore = Map<Seq<char>, Map<Seq<char>, Seq<u8>>>;

/// The items of a category as a map.
pub open spec fn entries_view(e: Seq<(String, Vec<u8>)>) -> Map<Seq<char>, Seq<u8>> {
    kv_map(e).map_values(|d: Vec<u8>| d@)
}

/// The whole store as a map.
pub open spec fn store_view(s: Seq<(String, Vec<(String, Vec<u8>)>)>) -> BulkStore {
    kv_map(s).map_values(|e: Vec<(String, Vec<u8>)>| entries_view(e@))
}

/// Categories and, within each, data ids ascend without repetition.
pub open spec fn store_wf(s: Seq<(String, Vec<(String, Vec<u8>)>)>) -> bool {
    &&& sorted_keys(s)
    &&& forall|i: int| 0 <= i < s.len() ==> sorted_keys(#[trigger] s[i].1@)
}

/// The items of category `c`, none where it does not exist.
pub open spec fn category_of(m: BulkStore, c: Seq<char>) -> Map<Seq<char>, Seq<u8>> {
    if m.contains_key(c) {
        m[c]
    } else {
        Map::empty()
    }
}

/// What is stored under `c` and `d`.
pub open spec fn stored(m: BulkStore, c: Seq<char>, d: Seq<char>) -> Option<Seq<u8>> {
    if m.contains_key(c) && m[c].contains_key(d) {
        Some(m[c][d])
    } else {
        None
    }
}

/// The store after `bytes` is put under `c` and `d`.
pub open spec fn put(m: BulkStore, c: Seq<char>, d: Seq<char>, bytes: Seq<u8>) -> BulkStore {
    m.insert(c, category_of(m, c).insert(d, bytes))
}

/// `c` followed by a slash and `d`.
pub open spec fn entry_path(c: Seq<char>, d: Seq<char>) -> Seq<char> {
    c + "/"@ + d
}

/// The message of a missing item.
pub open spec fn missing_entry_text(c: Seq<char>, d: Seq<char>) -> Seq<char> {
    "not found: "@ + entry_path(c, d)
}

/// The message of a missing category.
pub open spec fn missing_category_text(c: Seq<char>) -> Seq<char> {
    "not found: "@ + c
}

/// The message of a protected item.
pub open spec fn protected_text(c: Seq<char>, d: Seq<char>) -> Seq<char> {
    "entry is protected: "@ + entry_path(c, d)
}

/// `ids` lists the keys of `m`, each once, in ascending order.
pub open spec fn lists_keys<V>(ids: Seq<Seq<char>>, m: Map<Seq<char>, V>) -> bool {
    &&& forall|a: int, b: int| 0 <= a < b < ids.len() ==> seq_lt(#[trigger] ids[a], #[trigger] ids[b])
    &&& forall|k: Seq<char>| m.contains_key(k) <==> ids.contains(k)
}

fn missing_entry(c: &str, d: &str) -> (r: String)
    ensures
        r@ == missing_entry_text(c@, d@),
{
    let mut s = "not found: ".to_owned();
    push_str(&mut s, c);
    push_str(&mut s, "/");
    push_str(&mut s, d);
    proof {
        assert(s@ =~= missing_entry_text(c@, d@));
    }
    s
}

fn missing_category(c: &str) -> (r: String)
    ensures
        r@ == missing_category_text(c@),
{
    let mut s = "not found: ".to_owned();
    push_str(&mut s, c);
    s
}

fn protected_entry(c: &str, d: &str) -> (r: String)
    ensures
        r@ == protected_text(c@, d@),
{
    let mut s = "entry is protected: ".to_owned();
    push_str(&mut s, c);
    push_str(&mut s, "/");
    push_str(&mut s, d);
    proof {
        assert(s@ =~= protected_text(c@, d@));
    }
    s
}

/// The filter asks for tags, which no stored item carries.
pub open spec fn asks_for_tags(f: CategoryFilter) -> bool {
    f.tags matches Some(t) && t.len() > 0
}

/// `md` describes the item `id` that holds `bytes`.
pub open spec fn describes(md: BulkDataMetadata, id: Seq<char>, bytes: Seq<u8>) -> bool {
    &&& md.id@ == id
    &&& md.mimetype@ == "application/octet-stream"@
    &&& md.name matches Some(n) && n@ == id
    &&& md.translation_id is None
    &&& md.size == Some(bytes.len() as u64)
    &&& md.creation_date is None
    &&& md.last_modified is None
    &&& md.hash is None
    &&& md.hash_algorithm is None
    &&& md.tags is None
}

/// The items of category `c` that are protected.
pub open spec fn protected_items(
    m: BulkStore,
    c: Seq<char>,
    prot: Set<(Seq<char>, Seq<char>)>,
) -> Map<Seq<char>, Seq<u8>> {
    category_of(m, c).restrict(Set::new(|d: Seq<char>| prot.contains((c, d))))
}

/// The store after category `c` is cleared of what is not protected; a
/// category left with nothing is removed.
pub open spec fn clear_category(m: BulkStore, c: Seq<char>, prot: Set<(Seq<char>, Seq<char>)>) -> BulkStore {
    if protected_items(m, c, prot) == Map::<Seq<char>, Seq<u8>>::empty() {
        m.remove(c)
    } else {
        m.insert(c, protected_items(m, c, prot))
    }
}

/// What deleting item `item.id` of category `c` gives: a refusal where the
/// item is protected, success otherwise.
pub open spec fn deletion_outcome(
    item: DeletedBulkDataItem,
    c: Seq<char>,
    prot: Set<(Seq<char>, Seq<char>)>,
) -> bool {
    if prot.contains((c, item.id@)) {
        item.error matches Some(BulkDataError::DeletionFailed(m)) && m@ == protected_text(c, item.id@)
    } else {
        item.error is None
    }
}

/// `a` is the same instant as `b` or an earlier one.
pub open spec fn time_le(a: UtcTime, b: UtcTime) -> bool {
    a.seconds < b.seconds || (a.seconds == b.seconds && a.nanos <= b.nanos)
}

fn time_at_or_before(a: UtcTime, b: UtcTime) -> (r: bool)
    ensures
        r == time_le(a, b),
{
    a.seconds < b.seconds || (a.seconds == b.seconds && a.nanos <= b.nanos)
}

/// An item passes the filter: no tags are asked for, it was created before
/// `created_before` and after `created_after` where those are set, and an
/// item whose creation is unknown passes the dates.
pub open spec fn passes_filter(md: BulkDataMetadata, filter: CategoryFilter) -> bool {
    &&& !asks_for_tags(filter)
    &&& match (filter.created_before, md.creation_date) {
        (Some(b), Some(c)) => !time_le(b, c),
        _ => true,
    }
    &&& match (filter.created_after, md.creation_date) {
        (Some(a), Some(c)) => !time_le(c, a),
        _ => true,
    }
}

/// Whether a listing with `filter` shows the item `md`.
pub fn include_metadata(md: &BulkDataMetadata, filter: &CategoryFilter) -> (r: bool)
    ensures
        r == passes_filter(*md, *filter),
{
    match &filter.tags {
        Some(t) => {
            if t.len() > 0 {
                return false;
            }
        },
        None => {},
    }
    if let Some(c) = md.creation_date {
        if let Some(b) = filter.created_before {
            if time_at_or_before(b, c) {
                return false;
            }
        }
        if let Some(a) = filter.created_after {
            if time_at_or_before(c, a) {
                return false;
            }
        }
    }
    true
}

/// A path segment names one entry of a directory: it is not empty, `.` or
/// `..`, and holds no `/` or `\\`.
pub open spec fn is_plain_segment(v: Seq<char>) -> bool {
    &&& v.len() > 0
    &&& v != "."@
    &&& v != ".."@
    &&& !v.contains('/')
    &&& !v.contains('\\')
}

/// Refuses a category or data id that is not a plain path segment.
pub fn validate_segment(kind: &str, value: &str) -> (r: Result<(), BulkDataError>)
    ensures
        r is Ok <==> is_plain_segment(value@),
        r matches Err(e) ==> (e matches BulkDataError::InvalidRequest(m) && m@ == "invalid "@ + kind@
            + ": "@ + value@),
{
    let v = chars_of(value);
    let slash = crate::text::find_char(&v, '/');
    let backslash = crate::text::find_char(&v, '\\');
    proof {
        if slash < v.len() {
            assert(v@[slash as int] == '/');
        }
        if backslash < v.len() {
            assert(v@[backslash as int] == '\\');
        }
    }
    let bad = v.len() == 0 || compare_keys(value, ".") == 0 || compare_keys(value, "..") == 0
        || slash < v.len() || backslash < v.len();
    if bad {
        let mut m = "invalid ".to_owned();
        push_str(&mut m, kind);
        push_str(&mut m, ": ");
        push_str(&mut m, value);
        Err(BulkDataError::InvalidRequest(m))
    } else {
        Ok(())
    }
}

/// A bulk-data provider that keeps everything in memory.
#[derive(Debug)]
pub struct InMemoryBulkDataProvider {
    store: Vec<(String, Vec<(String, Vec<u8>)>)>,
    permanent: Vec<(String, String)>,
}

/// Puts `bytes` under `d` in the items of one category.
fn put_item(e: &mut Vec<(String, Vec<u8>)>, d: &str, bytes: Vec<u8>)
    requires
        sorted_keys(old(e)@),
    ensures
        sorted_keys(final(e)@),
        entries_view(final(e)@) == entries_view(old(e)@).insert(d@, bytes@),
{
    let ghost s = e@;
    let ghost b = bytes@;
    match kv_find(e, d) {
        Ok(i) => {
            let _ = kv_set(e, i, bytes);
        },
        Err(p) => {
            kv_insert_at(e, p, d.to_owned(), bytes);
        },
    }
    assert(entries_view(e@) =~= entries_view(s).insert(d@, b));
}

/// The items of a fresh category that holds one item.
proof fn lemma_single_entry(x: (String, Vec<u8>))
    ensures
        sorted_keys(seq![x]),
        entries_view(seq![x]) == Map::<Seq<char>, Seq<u8>>::empty().insert(x.0@, x.1@),
{
    let e = Seq::<(String, Vec<u8>)>::empty();
    assert(kv_map(e) =~= Map::empty());
    lemma_kv_map_push(e, x);
    assert(e.push(x) =~= seq![x]);
    assert(entries_view(seq![x]) =~= Map::<Seq<char>, Seq<u8>>::empty().insert(x.0@, x.1@));
}

impl InMemoryBulkDataProvider {
    /// The provider's internal order holds.
    #[verifier::type_invariant]
    pub closed spec fn wf(&self) -> bool {
        store_wf(self.store@)
    }

    /// What the provider stores.
    pub closed spec fn contents(&self) -> BulkStore {
        store_view(self.store@)
    }

    /// The entries that can never be deleted.
    pub closed spec fn protected(&self) -> Set<(Seq<char>, Seq<char>)> {
        Set::new(
            |p: (Seq<char>, Seq<char>)|
                exists|i: int|
                    0 <= i < self.permanent@.len() && #[trigger] self.permanent@[i].0@ == p.0
                        && self.permanent@[i].1@ == p.1,
        )
    }

    /// An empty provider.
    pub fn new() -> (r: Self)
        ensures
            r.contents() == BulkStore::empty(),
            r.protected() == Set::<(Seq<char>, Seq<char>)>::empty(),
    {
        let r = InMemoryBulkDataProvider { store: Vec::new(), permanent: Vec::new() };
        assert(r.contents() =~= BulkStore::empty());
        assert(r.protected() =~= Set::<(Seq<char>, Seq<char>)>::empty());
        r
    }

    /// Puts `bytes` under `category_id` and `data_id`, creating the category
    /// where it does not exist.
    fn put_entry(&mut self, category_id: &str, data_id: &str, bytes: Vec<u8>)
        ensures
            final(self).contents() == put(old(self).contents(), category_id@, data_id@, bytes@),
            final(self).permanent@ == old(self).permanent@,
    {
        proof {
            use_type_invariant(&*self);
        }
        let mut store: Vec<(String, Vec<(String, Vec<u8>)>)> = Vec::new();
        core::mem::swap(&mut store, &mut self.store);
        let ghost s0 = store@;
        let ghost b = bytes@;
        match kv_find(&store, category_id) {
            Ok(ci) => {
                let mut inner = kv_set(&mut store, ci, Vec::new());
                let ghost s1 = store@;
                let ghost e0 = inner@;
                put_item(&mut inner, data_id, bytes);
                let _ = kv_set(&mut store, ci, inner);
                proof {
                    let s2 = store@;
                    lemma_kv_map_at(s0, ci as int);
                    assert(store_view(s0)[category_id@] == entries_view(e0));
                    assert forall|i: int| 0 <= i < s2.len() implies sorted_keys(#[trigger] s2[i].1@) by {
                        if i != ci {
                            assert(s2[i] == s0[i]);
                        }
                    }
                    assert(store_view(s2) =~= put(store_view(s0), category_id@, data_id@, b));
                }
            },
            Err(p) => {
                let mut inner: Vec<(String, Vec<u8>)> = Vec::new();
                let x = (data_id.to_owned(), bytes);
                proof {
                    lemma_single_entry(x);
                }
                inner.push(x);
                assert(inner@ =~= seq![x]);
                kv_insert_at(&mut store, p, category_id.to_owned(), inner);
                proof {
                    let s2 = store@;
                    assert forall|i: int| 0 <= i < s2.len() implies sorted_keys(#[trigger] s2[i].1@) by {
                        if i < p {
                            assert(s2[i] == s0[i]);
                        } else if i > p {
                            assert(s2[i] == s0[i - 1]);
                        }
                    }
                    assert(!store_view(s0).contains_key(category_id@));
                    assert(store_view(s2) =~= put(store_view(s0), category_id@, data_id@, b));
                }
            },
        }
        self.store = store;
    }

    /// Adds an entry that is always present, empty, and can never be deleted.
    pub fn with_permanent_entry(self, category_id: &str, data_id: &str) -> (r: Self)
        ensures
            r.contents() == put(self.contents(), category_id@, data_id@, Seq::empty()),
            r.protected() == self.protected().insert((category_id@, data_id@)),
    {
        let mut r = self;
        r.put_entry(category_id, data_id, Vec::new());
        proof {
            use_type_invariant(&r);
        }
        let mut permanent: Vec<(String, String)> = Vec::new();
        core::mem::swap(&mut permanent, &mut r.permanent);
        let ghost before = permanent@;
        permanent.push((category_id.to_owned(), data_id.to_owned()));
        r.permanent = permanent;
        proof {
            let n = before.len() as int;
            assert(r.permanent@[n].0@ == category_id@);
            assert forall|q: (Seq<char>, Seq<char>)| #[trigger] r.protected().contains(q) == self.protected().insert(
                (category_id@, data_id@),
            ).contains(q) by {
                if self.protected().contains(q) {
                    let i = choose|i: int|
                        0 <= i < before.len() && #[trigger] before[i].0@ == q.0 && before[i].1@
                            == q.1;
                    assert(r.permanent@[i] == before[i]);
                }
                if r.protected().contains(q) {
                    let i = choose|i: int|
                        0 <= i < r.permanent@.len() && #[trigger] r.permanent@[i].0@ == q.0
                            && r.permanent@[i].1@ == q.1;
                    if i < n {
                        assert(r.permanent@[i] == before[i]);
                    }
                }
            }
            assert(r.protected() =~= self.protected().insert((category_id@, data_id@)));
        }
        r
    }

    /// Stores `data` under `category_id` and `data_id`, replacing what was
    /// there. The size bound and the signature are not kept.
    pub fn upload(
        &mut self,
        category_id: &str,
        data_id: &str,
        _size_upper_bound: u64,
        data: Vec<u8>,
        _signature: Option<&String>,
    ) -> (r: Result<(), BulkDataError>)
        ensures
            r is Ok,
            final(self).contents() == put(old(self).contents(), category_id@, data_id@, data@),
            final(self).protected() == old(self).protected(),
    {
        self.put_entry(category_id, data_id, data);
        proof {
            assert(self.protected() =~= old(self).protected());
        }
        Ok(())
    }

    /// The bytes stored under `category_id` and `data_id`.
    pub fn download(&self, category_id: &str, data_id: &str) -> (r: Result<BulkData, BulkDataError>)
        ensures
            match r {
                Ok(b) => stored(self.contents(), category_id@, data_id@) == Some(b.data@)
                    && b.signature is None,
                Err(e) => stored(self.contents(), category_id@, data_id@) is None && (e matches BulkDataError::NotFound(m)
                    && m@ == missing_entry_text(category_id@, data_id@)),
            },
    {
        proof {
            use_type_invariant(self);
        }
        match kv_find(&self.store, category_id) {
            Ok(ci) => {
                proof {
                    lemma_kv_map_at(self.store@, ci as int);
                }
                let entries = &self.store[ci].1;
                assert(sorted_keys(entries@));
                match kv_find(entries, data_id) {
                    Ok(ii) => {
                        proof {
                            lemma_kv_map_at(entries@, ii as int);
                        }
                        let data = entries[ii].1.clone();
                        assert(data@ =~= entries@[ii as int].1@);
                        Ok(BulkData { signature: None, data })
                    },
                    Err(_) => Err(BulkDataError::NotFound(missing_entry(category_id, data_id))),
                }
            },
            Err(_) => Err(BulkDataError::NotFound(missing_entry(category_id, data_id))),
        }
    }

    /// Removes one item, unless it is protected.
    pub fn delete(&mut self, category_id: &str, data_id: &str) -> (r: Result<(), BulkDataError>)
        ensures
            final(self).protected() == old(self).protected(),
            old(self).protected().contains((category_id@, data_id@)) ==> (r matches Err(
                BulkDataError::DeletionFailed(m),
            ) && m@ == protected_text(category_id@, data_id@) && final(self).contents() == old(
                self,
            ).contents()),
            !old(self).protected().contains((category_id@, data_id@)) && stored(
                old(self).contents(),
                category_id@,
                data_id@,
            ) is Some ==> (r is Ok && final(self).contents() == old(self).contents().insert(
                category_id@,
                old(self).contents()[category_id@].remove(data_id@),
            )),
            !old(self).protected().contains((category_id@, data_id@)) && stored(
                old(self).contents(),
                category_id@,
                data_id@,
            ) is None ==> (r matches Err(BulkDataError::NotFound(m)) && m@ == missing_entry_text(
                category_id@,
                data_id@,
            ) && final(self).contents() == old(self).contents()),
    {
        proof {
            use_type_invariant(&*self);
        }
        if self.is_permanent(category_id, data_id) {
            return Err(BulkDataError::DeletionFailed(protected_entry(category_id, data_id)));
        }
        let ghost s0 = self.store@;
        match kv_find(&self.store, category_id) {
            Ok(ci) => {
                proof {
                    lemma_kv_map_at(s0, ci as int);
                }
                match kv_find(&self.store[ci].1, data_id) {
                    Ok(ii) => {
                        let mut store: Vec<(String, Vec<(String, Vec<u8>)>)> = Vec::new();
                        core::mem::swap(&mut store, &mut self.store);
                        let mut inner = kv_set(&mut store, ci, Vec::new());
                        let ghost e0 = inner@;
                        let _ = kv_remove(&mut inner, ii);
                        let _ = kv_set(&mut store, ci, inner);
                        proof {
                            let s2 = store@;
                            assert(entries_view(inner@) =~= entries_view(e0).remove(data_id@));
                            assert forall|i: int| 0 <= i < s2.len() implies sorted_keys(
                                #[trigger] s2[i].1@,
                            ) by {
                                if i != ci {
                                    assert(s2[i] == s0[i]);
                                }
                            }
                            assert(store_view(s2) =~= store_view(s0).insert(
                                category_id@,
                                store_view(s0)[category_id@].remove(data_id@),
                            ));
                        }
                        self.store = store;
                        proof {
                            assert(self.protected() =~= old(self).protected());
                        }
                        Ok(())
                    },
                    Err(_) => Err(BulkDataError::NotFound(missing_entry(category_id, data_id))),
                }
            },
            Err(_) => Err(BulkDataError::NotFound(missing_entry(category_id, data_id))),
        }
    }

    /// The categories, in ascending order.
    pub fn categories(&self) -> (r: Result<Vec<CategoryInfo>, BulkDataError>)
        ensures
            r matches Ok(v) && lists_keys(
                v@.map_values(|ci: CategoryInfo| ci.category@),
                self.contents(),
            ) && forall|i: int| 0 <= i < v@.len() ==> (#[trigger] v@[i]).translation_id is None,
    {
        proof {
            use_type_invariant(self);
        }
        let mut v: Vec<CategoryInfo> = Vec::new();
        let ghost s = self.store@;
        for i in 0..self.store.len()
            invariant
                s == self.store@,
                v@.len() == i,
                forall|j: int| 0 <= j < i ==> (#[trigger] v@[j]).category@ == s[j].0@ && v@[j].translation_id is None,
        {
            v.push(CategoryInfo { category: self.store[i].0.clone(), translation_id: None });
        }
        proof {
            let names = v@.map_values(|ci: CategoryInfo| ci.category@);
            assert forall|k: Seq<char>| self.contents().contains_key(k) <==> names.contains(k) by {
                if self.contents().contains_key(k) {
                    let a = key_index(s, k);
                    assert(names[a] == k);
                }
                if names.contains(k) {
                    let a = choose|a: int| 0 <= a < names.len() && names[a] == k;
                    assert(s[a].0@ == k);
                }
            }
        }
        Ok(v)
    }

    /// The items of a category, in ascending order of their ids; none where
    /// the category does not exist or the filter asks for tags.
    pub fn list(&self, category_id: &str, filter: CategoryFilter) -> (r: Result<Vec<BulkDataMetadata>, BulkDataError>)
        ensures
            r matches Ok(v) && (if asks_for_tags(filter) || !self.contents().contains_key(category_id@) {
                v@.len() == 0
            } else {
                &&& lists_keys(v@.map_values(|md: BulkDataMetadata| md.id@), self.contents()[category_id@])
                &&& forall|i: int| 0 <= i < v@.len() ==> describes(#[trigger] v@[i], v@[i].id@, self.contents()[category_id@][v@[i].id@])
            }),
    {
        proof {
            use_type_invariant(self);
        }
        let mut v: Vec<BulkDataMetadata> = Vec::new();
        let wants_tags = match &filter.tags {
            Some(t) => t.len() > 0,
            None => false,
        };
        if wants_tags {
            return Ok(v);
        }
        let ci = match kv_find(&self.store, category_id) {
            Ok(ci) => ci,
            Err(_) => {
                return Ok(v);
            },
        };
        proof {
            lemma_kv_map_at(self.store@, ci as int);
        }
        let entries = &self.store[ci].1;
        let ghost e = entries@;
        assert(sorted_keys(e));
        for i in 0..entries.len()
            invariant
                e == entries@,
                v@.len() == i,
                forall|j: int| 0 <= j < i ==> describes(#[trigger] v@[j], e[j].0@, e[j].1@),
        {
            let id = entries[i].0.clone();
            let name = entries[i].0.clone();
            let size = entries[i].1.len() as u64;
            v.push(BulkDataMetadata {
                id,
                mimetype: "application/octet-stream".to_owned(),
                name: Some(name),
                translation_id: None,
                size: Some(size),
                creation_date: None,
                last_modified: None,
                hash: None,
                hash_algorithm: None,
                tags: None,
            });
        }
        proof {
            let ids = v@.map_values(|md: BulkDataMetadata| md.id@);
            let m = self.contents()[category_id@];
            assert(m == entries_view(e));
            assert forall|k: Seq<char>| m.contains_key(k) <==> ids.contains(k) by {
                if m.contains_key(k) {
                    let a = key_index(e, k);
                    assert(ids[a] == k);
                }
                if ids.contains(k) {
                    let a = choose|a: int| 0 <= a < ids.len() && ids[a] == k;
                    assert(e[a].0@ == k);
                }
            }
            assert forall|i: int| 0 <= i < v@.len() implies describes(#[trigger] v@[i], v@[i].id@, m[v@[i].id@]) by {
                lemma_kv_map_at(e, i);
            }
        }
        Ok(v)
    }

    /// Deletes every item of a category that is not protected, and the
    /// category itself where nothing is left in it. Tells, for each item in
    /// ascending order of ids, whether it was deleted.
    pub fn delete_category(&mut self, category_id: &str) -> (r: Result<
        Vec<DeletedBulkDataItem>,
        BulkDataError,
    >)
        ensures
            final(self).protected() == old(self).protected(),
            match r {
                Ok(items) => {
                    &&& old(self).contents().contains_key(category_id@)
                    &&& lists_keys(
                        items@.map_values(|it: DeletedBulkDataItem| it.id@),
                        old(self).contents()[category_id@],
                    )
                    &&& forall|i: int|
                        0 <= i < items@.len() ==> deletion_outcome(
                            #[trigger] items@[i],
                            category_id@,
                            old(self).protected(),
                        )
                    &&& final(self).contents() == clear_category(
                        old(self).contents(),
                        category_id@,
                        old(self).protected(),
                    )
                },
                Err(e) => {
                    &&& !old(self).contents().contains_key(category_id@)
                    &&& e matches BulkDataError::NotFound(m) && m@ == missing_category_text(category_id@)
                    &&& final(self).contents() == old(self).contents()
                },
            },
    {
        proof {
            use_type_invariant(&*self);
        }
        let ghost s0 = self.store@;
        let ghost prot = self.protected();
        let ghost perm0 = self.permanent@;
        let ghost c = category_id@;
        let ci = match kv_find(&self.store, category_id) {
            Ok(ci) => ci,
            Err(_) => {
                return Err(BulkDataError::NotFound(missing_category(category_id)));
            },
        };
        proof {
            lemma_kv_map_at(s0, ci as int);
        }
        let mut store: Vec<(String, Vec<(String, Vec<u8>)>)> = Vec::new();
        core::mem::swap(&mut store, &mut self.store);
        let mut entries = kv_set(&mut store, ci, Vec::new());
        let ghost s1 = store@;
        let ghost orig = entries@;
        let ghost keep = Set::new(|d: Seq<char>| prot.contains((c, d)));
        let n = entries.len();
        let mut kept: Vec<(String, Vec<u8>)> = Vec::new();
        let mut deleted: Vec<DeletedBulkDataItem> = Vec::new();
        let mut i: usize = 0;
        proof {
            assert(orig.subrange(0, n as int) =~= orig);
            assert(orig.take(0) =~= Seq::<(String, Vec<u8>)>::empty());
            assert(kv_map(orig.take(0)) =~= Map::empty());
            assert(entries_view(kept@) =~= entries_view(orig.take(0)).restrict(keep));
        }
        while i < n
            invariant
                0 <= i <= n,
                n == orig.len(),
                sorted_keys(orig),
                entries@ == orig.subrange(i as int, n as int),
                self.permanent@ == perm0,
                store@ == s1,
                prot == self.protected(),
                c == category_id@,
                keep == Set::new(|d: Seq<char>| prot.contains((c, d))),
                sorted_keys(kept@),
                forall|j: int, m: int|
                    0 <= j < kept@.len() && i <= m < n ==> seq_lt(
                        #[trigger] kept@[j].0@,
                        #[trigger] orig[m].0@,
                    ),
                entries_view(kept@) == entries_view(orig.take(i as int)).restrict(keep),
                deleted@.len() == i,
                forall|j: int|
                    0 <= j < i ==> (#[trigger] deleted@[j]).id@ == orig[j].0@ && deletion_outcome(
                        deleted@[j],
                        c,
                        prot,
                    ),
            decreases n - i,
        {
            let (id, data) = entries.remove(0);
            let ghost x = orig[i as int];
            assert(id@ == x.0@ && data@ == x.1@);
            proof {
                assert(entries@ =~= orig.subrange(i + 1, n as int));
                assert(orig.take(i + 1) =~= orig.take(i as int).push(x));
                assert(sorted_keys(orig.take(i as int))) by {
                    assert forall|a: int, b: int| 0 <= a < b < i implies seq_lt(
                        #[trigger] orig.take(i as int)[a].0@,
                        #[trigger] orig.take(i as int)[b].0@,
                    ) by {
                        assert(orig.take(i as int)[a] == orig[a]);
                        assert(orig.take(i as int)[b] == orig[b]);
                    }
                }
                assert forall|j: int| 0 <= j < i implies seq_lt(
                    #[trigger] orig.take(i as int)[j].0@,
                    x.0@,
                ) by {
                    assert(orig.take(i as int)[j] == orig[j]);
                }
                lemma_kv_map_push(orig.take(i as int), x);
                assert(entries_view(orig.take(i + 1)) =~= entries_view(orig.take(i as int)).insert(
                    x.0@,
                    x.1@,
                ));
            }
            if self.is_permanent(category_id, id.as_str()) {
                let msg = protected_entry(category_id, id.as_str());
                let ghost before = kept@;
                let idc = id.clone();
                proof {
                    assert forall|j: int| 0 <= j < before.len() implies seq_lt(
                        #[trigger] before[j].0@,
                        idc@,
                    ) by {
                        assert(seq_lt(before[j].0@, orig[i as int].0@));
                    }
                    lemma_kv_map_push(before, (idc, data));
                }
                kept.push((idc, data));
                proof {
                    assert(keep.contains(x.0@));
                    let prev = entries_view(orig.take(i as int));
                    assert(entries_view(kept@) =~= entries_view(before).insert(x.0@, x.1@));
                    assert(prev.insert(x.0@, x.1@).restrict(keep) =~= prev.restrict(keep).insert(
                        x.0@,
                        x.1@,
                    ));
                    assert(entries_view(kept@) =~= entries_view(orig.take(i + 1)).restrict(keep));
                    assert forall|j: int, m: int|
                        0 <= j < kept@.len() && i + 1 <= m < n implies seq_lt(
                            #[trigger] kept@[j].0@,
                            #[trigger] orig[m].0@,
                        ) by {
                        if j < before.len() {
                            assert(kept@[j] == before[j]);
                        } else {
                            assert(seq_lt(orig[i as int].0@, orig[m].0@));
                        }
                    }
                }
                deleted.push(DeletedBulkDataItem {
                    id,
                    error: Some(BulkDataError::DeletionFailed(msg)),
                });
            } else {
                proof {
                    assert(!prot.contains((c, x.0@)));
                    assert(!keep.contains(x.0@));
                    let prev = entries_view(orig.take(i as int));
                    assert(prev.insert(x.0@, x.1@).restrict(keep) =~= prev.restrict(keep));
                    assert(entries_view(kept@) =~= entries_view(orig.take(i + 1)).restrict(keep));
                }
                deleted.push(DeletedBulkDataItem { id, error: None });
            }
            i = i + 1;
        }
        proof {
            assert(orig.take(n as int) =~= orig);
            assert(entries_view(orig) == store_view(s0)[c]);
            assert(entries_view(kept@) == protected_items(store_view(s0), c, prot));
        }
        if kept.len() == 0 {
            proof {
                assert(kept@ =~= Seq::<(String, Vec<u8>)>::empty());
                assert(kv_map(kept@) =~= Map::empty());
                assert(entries_view(kept@) =~= Map::empty());
            }
            let _ = kv_remove(&mut store, ci);
            proof {
                let s2 = store@;
                assert forall|j: int| 0 <= j < s2.len() implies sorted_keys(#[trigger] s2[j].1@) by {
                    if j < ci {
                        assert(s2[j] == s0[j]);
                    } else {
                        assert(s2[j] == s0[j + 1]);
                    }
                }
                assert(store_view(s2) =~= store_view(s0).remove(c));
            }
        } else {
            proof {
                lemma_kv_map_at(kept@, 0);
                assert(entries_view(kept@).contains_key(kept@[0].0@));
            }
            let _ = kv_set(&mut store, ci, kept);
            proof {
                let s2 = store@;
                assert forall|j: int| 0 <= j < s2.len() implies sorted_keys(#[trigger] s2[j].1@) by {
                    if j != ci {
                        assert(s2[j] == s0[j]);
                    }
                }
                assert(store_view(s2) =~= store_view(s0).insert(c, protected_items(store_view(s0), c, prot)));
            }
        }
        self.store = store;
        proof {
            let ids = deleted@.map_values(|it: DeletedBulkDataItem| it.id@);
            let m = store_view(s0)[c];
            assert forall|k: Seq<char>| m.contains_key(k) <==> ids.contains(k) by {
                if m.contains_key(k) {
                    let a = key_index(orig, k);
                    assert(ids[a] == k);
                }
                if ids.contains(k) {
                    let a = choose|a: int| 0 <= a < ids.len() && ids[a] == k;
                    assert(orig[a].0@ == k);
                }
            }
            assert forall|a: int, b: int| 0 <= a < b < ids.len() implies seq_lt(#[trigger] ids[a], #[trigger] ids[b]) by {
                assert(ids[a] == orig[a].0@);
                assert(ids[b] == orig[b].0@);
            }
            assert(self.protected() =~= prot);
        }
        Ok(deleted)
    }

    /// Whether `(category_id, data_id)` is protected from deletion.
    pub fn is_permanent(&self, category_id: &str, data_id: &str) -> (r: bool)
        ensures
            r == self.protected().contains((category_id@, data_id@)),
    {
        let mut i: usize = 0;
        while i < self.permanent.len()
            invariant
                0 <= i <= self.permanent@.len(),
                forall|j: int|
                    0 <= j < i ==> !(#[trigger] self.permanent@[j].0@ == category_id@
                        && self.permanent@[j].1@ == data_id@),
            decreases self.permanent@.len() - i,
        {
            if compare_keys(self.permanent[i].0.as_str(), category_id) == 0 && compare_keys(
                self.permanent[i].1.as_str(),
                data_id,
            ) == 0 {
                assert(self.protected().contains((category_id@, data_id@)));
                return true;
            }
            i = i + 1;
        }
        assert(!self.protected().contains((category_id@, data_id@)));
        false
    }
}

/// A download after an upload gives back the uploaded bytes.
pub proof fn lemma_download_after_upload(m: BulkStore, c: Seq<char>, d: Seq<char>, bytes: Seq<u8>)
    ensures
        stored(put(m, c, d, bytes), c, d) == Some(bytes),
{
}

/// An upload changes what is stored under its own category and id only.
pub proof fn lemma_upload_leaves_others(
    m: BulkStore,
    c: Seq<char>,
    d: Seq<char>,
    bytes: Seq<u8>,
    c2: Seq<char>,
    d2: Seq<char>,
)
    requires
        c2 != c || d2 != d,
    ensures
        stored(put(m, c, d, bytes), c2, d2) == stored(m, c2, d2),
{
}

/// After an item is deleted, nothing is stored under it.
pub proof fn lemma_deleted_item_is_gone(m: BulkStore, c: Seq<char>, d: Seq<char>)
    requires
        m.contains_key(c),
    ensures
        stored(m.insert(c, m[c].remove(d)), c, d) is None,
{
}

/// Clearing a category keeps exactly its protected items, with their bytes,
/// and leaves the other categories alone.
pub proof fn lemma_clear_keeps_protected(
    m: BulkStore,
    c: Seq<char>,
    prot: Set<(Seq<char>, Seq<char>)>,
    c2: Seq<char>,
    d: Seq<char>,
)
    ensures
        c2 == c && prot.contains((c, d)) ==> stored(clear_category(m, c, prot), c2, d) == stored(m, c2, d),
        c2 == c && !prot.contains((c, d)) ==> stored(clear_category(m, c, prot), c2, d) is None,
        c2 != c ==> stored(clear_category(m, c, prot), c2, d) == stored(m, c2, d),
{
    let kept = protected_items(m, c, prot);
    if c2 == c && prot.contains((c, d)) && stored(m, c, d) is Some {
        assert(kept.contains_key(d));
    }
}

} // verus!

//! The schema references of an OpenAPI document: every reference that
//! [`crate::docs::build_openapi_doc`] leaves into `#/components/schemas/`
//! names a schema of the document, where every name the path item refers to
//! is defined in one of its `$defs`.

use vstd::prelude::*;

use crate::docs::{
    add_absent, collected, collected_all, collected_members, components_prefix, defs_prefix, doc_of,
    hoisted, hoisted_all, hoisted_members, lemma_add_absent_keeps_and_gathers, mv, own_defs,
    rewritten, rewritten_all, rewritten_member, rewritten_members, schema_members, schemas_view,
    view_of, Json, JsonView, MemberView,
};
use crate::keyed::{lemma_kv_map_at, sorted_keys};
use crate::text::has_prefix;

verus! {

/// The value holds a `$ref` to `p` followed by `x`.
pub open spec fn refers(j: JsonView, p: Seq<char>, x: Seq<char>) -> bool
    decreases j, 0nat,
{
    match j {
        JsonView::Array(s) => refers_all(s, p, x),
        JsonView::Object(m) => refers_members(m, p, x),
        _ => false,
    }
}

/// One of the values holds a `$ref` to `p` followed by `x`.
pub open spec fn refers_all(s: Seq<JsonView>, p: Seq<char>, x: Seq<char>) -> bool
    decreases s, 0nat,
{
    if s.len() == 0 {
        false
    } else {
        proof {
            assert(decreases_to!(s => s[s.len() - 1]));
            assert(decreases_to!(s => s.subrange(0, s.len() - 1)));
        }
        refers_all(s.subrange(0, s.len() - 1), p, x) || refers(s[s.len() - 1], p, x)
    }
}

/// The member is a `$ref` to `p` followed by `x`, or its value holds one.
pub open spec fn member_refers(key: Seq<char>, value: JsonView, p: Seq<char>, x: Seq<char>) -> bool
    decreases value, 1nat,
{
    (key == "$ref"@ && value == JsonView::Str(p + x)) || refers(value, p, x)
}

/// One of the members is a `$ref` to `p` followed by `x`, or holds one.
pub open spec fn refers_members(m: Seq<MemberView>, p: Seq<char>, x: Seq<char>) -> bool
    decreases m, 0nat,
{
    if m.len() == 0 {
        false
    } else {
        proof {
            assert(decreases_to!(m => m[m.len() - 1]));
            assert(decreases_to!(m => m.subrange(0, m.len() - 1)));
            assert(decreases_to!(m[m.len() - 1] => m[m.len() - 1].value));
        }
        let last = m[m.len() - 1];
        refers_members(m.subrange(0, m.len() - 1), p, x) || member_refers(last.key, last.value, p, x)
    }
}

/// Every name the value refers to, through `#/$defs/` or
/// `#/components/schemas/`, is defined in one of the `$defs` that hoisting
/// gathers.
pub open spec fn refs_defined(j: JsonView) -> bool {
    forall|x: Seq<char>|
        refers(j, defs_prefix(), x) || refers(j, components_prefix(), x) ==> exists|i: int|
            0 <= i < collected(j).len() && #[trigger] collected(j)[i].key == x
}

/// A sequence holds a reference exactly where one of its values does.
proof fn lemma_refers_all_iff(s: Seq<JsonView>, p: Seq<char>, x: Seq<char>)
    ensures
        refers_all(s, p, x) <==> exists|k: int| 0 <= k < s.len() && refers(#[trigger] s[k], p, x),
    decreases s.len(),
{
    if s.len() > 0 {
        let front = s.subrange(0, s.len() - 1);
        lemma_refers_all_iff(front, p, x);
        if refers_all(front, p, x) {
            let k = choose|k: int| 0 <= k < front.len() && refers(#[trigger] front[k], p, x);
            assert(s[k] == front[k]);
        }
        if exists|k: int| 0 <= k < s.len() && refers(#[trigger] s[k], p, x) {
            let k = choose|k: int| 0 <= k < s.len() && refers(#[trigger] s[k], p, x);
            if k < s.len() - 1 {
                assert(front[k] == s[k]);
            }
        }
    }
}

/// Members hold a reference exactly where one of them does.
proof fn lemma_refers_members_iff(m: Seq<MemberView>, p: Seq<char>, x: Seq<char>)
    ensures
        refers_members(m, p, x) <==> exists|k: int|
            0 <= k < m.len() && member_refers(#[trigger] m[k].key, m[k].value, p, x),
    decreases m.len(),
{
    if m.len() > 0 {
        let front = m.subrange(0, m.len() - 1);
        lemma_refers_members_iff(front, p, x);
        if refers_members(front, p, x) {
            let k = choose|k: int| 0 <= k < front.len() && member_refers(#[trigger] front[k].key, front[k].value, p, x);
            assert(m[k] == front[k]);
        }
        if exists|k: int| 0 <= k < m.len() && member_refers(#[trigger] m[k].key, m[k].value, p, x) {
            let k = choose|k: int| 0 <= k < m.len() && member_refers(#[trigger] m[k].key, m[k].value, p, x);
            if k < m.len() - 1 {
                assert(front[k] == m[k]);
            }
        }
    }
}

/// What follows a prefix is what is left once the prefix is taken off.
proof fn lemma_after_prefix(p: Seq<char>, x: Seq<char>, y: Seq<char>)
    requires
        p + x == p + y,
    ensures
        x == y,
{
    assert(x =~= (p + x).skip(p.len() as int));
    assert(y =~= (p + y).skip(p.len() as int));
}

/// A reference into `#/components/schemas/` after rewriting was one there,
/// or one into `#/$defs/`, before.
pub proof fn lemma_rewritten_refers(j: JsonView, x: Seq<char>)
    ensures
        refers(rewritten(j), components_prefix(), x) ==> refers(j, components_prefix(), x) || refers(
            j,
            defs_prefix(),
            x,
        ),
    decreases j, 0nat,
{
    match j {
        JsonView::Array(s) => lemma_rewritten_all_refers(s, x),
        JsonView::Object(m) => lemma_rewritten_members_refers(m, x),
        _ => {},
    }
}

proof fn lemma_rewritten_all_refers(s: Seq<JsonView>, x: Seq<char>)
    ensures
        refers_all(rewritten_all(s), components_prefix(), x) ==> refers_all(s, components_prefix(), x)
            || refers_all(s, defs_prefix(), x),
    decreases s, 0nat,
{
    if s.len() > 0 {
        assert(decreases_to!(s => s[s.len() - 1]));
        assert(decreases_to!(s => s.subrange(0, s.len() - 1)));
        let front = s.subrange(0, s.len() - 1);
        lemma_rewritten_all_refers(front, x);
        lemma_rewritten_refers(s[s.len() - 1], x);
        let r = rewritten_all(s);
        assert(r.subrange(0, r.len() - 1) =~= rewritten_all(front));
    }
}

proof fn lemma_rewritten_members_refers(m: Seq<MemberView>, x: Seq<char>)
    ensures
        refers_members(rewritten_members(m), components_prefix(), x) ==> refers_members(
            m,
            components_prefix(),
            x,
        ) || refers_members(m, defs_prefix(), x),
    decreases m, 0nat,
{
    if m.len() > 0 {
        assert(decreases_to!(m => m[m.len() - 1]));
        assert(decreases_to!(m => m.subrange(0, m.len() - 1)));
        assert(decreases_to!(m[m.len() - 1] => m[m.len() - 1].value));
        let front = m.subrange(0, m.len() - 1);
        let last = m[m.len() - 1];
        lemma_rewritten_members_refers(front, x);
        lemma_rewritten_refers(last.value, x);
        let nv = rewritten_member(last.key, last.value);
        let r = rewritten_members(m);
        assert(r == rewritten_members(front).push(MemberView { key: last.key, value: nv }));
        assert(r.subrange(0, r.len() - 1) =~= rewritten_members(front));
        assert(r[r.len() - 1] == MemberView { key: last.key, value: nv });
        assert(refers_members(r, components_prefix(), x) == (refers_members(
            rewritten_members(front),
            components_prefix(),
            x,
        ) || member_refers(last.key, nv, components_prefix(), x)));
        assert(refers_members(m, defs_prefix(), x) == (refers_members(front, defs_prefix(), x)
            || member_refers(last.key, last.value, defs_prefix(), x)));
        assert(refers_members(m, components_prefix(), x) == (refers_members(front, components_prefix(), x)
            || member_refers(last.key, last.value, components_prefix(), x)));
        if member_refers(last.key, nv, components_prefix(), x) {
            if last.key == "$ref"@ && last.value is Str && has_prefix(last.value->Str_0, defs_prefix()) {
                let t = last.value->Str_0;
                let rest = t.skip(defs_prefix().len() as int);
                assert(nv == JsonView::Str(components_prefix() + rest));
                lemma_after_prefix(components_prefix(), x, rest);
                assert(t =~= defs_prefix() + rest);
                assert(member_refers(last.key, last.value, defs_prefix(), x));
            } else {
                assert(nv == rewritten(last.value));
                if last.value is Str {
                    assert(rewritten(last.value) == last.value);
                } else {
                    assert(!(rewritten(last.value) is Str));
                }
            }
        }
    }
}

/// Removing the `$defs` members adds no reference.
pub proof fn lemma_hoisted_refers(j: JsonView, p: Seq<char>, x: Seq<char>)
    ensures
        refers(hoisted(j), p, x) ==> refers(j, p, x),
    decreases j, 0nat,
{
    match j {
        JsonView::Array(s) => lemma_hoisted_all_refers(s, p, x),
        JsonView::Object(m) => lemma_hoisted_members_refers(m, p, x),
        _ => {},
    }
}

proof fn lemma_hoisted_all_refers(s: Seq<JsonView>, p: Seq<char>, x: Seq<char>)
    ensures
        refers_all(hoisted_all(s), p, x) ==> refers_all(s, p, x),
    decreases s, 0nat,
{
    if s.len() > 0 {
        assert(decreases_to!(s => s[s.len() - 1]));
        assert(decreases_to!(s => s.subrange(0, s.len() - 1)));
        let front = s.subrange(0, s.len() - 1);
        lemma_hoisted_all_refers(front, p, x);
        lemma_hoisted_refers(s[s.len() - 1], p, x);
        let r = hoisted_all(s);
        assert(r.subrange(0, r.len() - 1) =~= hoisted_all(front));
    }
}

proof fn lemma_hoisted_members_refers(m: Seq<MemberView>, p: Seq<char>, x: Seq<char>)
    ensures
        refers_members(hoisted_members(m), p, x) ==> refers_members(m, p, x),
    decreases m, 0nat,
{
    if m.len() > 0 {
        assert(decreases_to!(m => m[m.len() - 1]));
        assert(decreases_to!(m => m.subrange(0, m.len() - 1)));
        assert(decreases_to!(m[m.len() - 1] => m[m.len() - 1].value));
        let front = m.subrange(0, m.len() - 1);
        let last = m[m.len() - 1];
        lemma_hoisted_members_refers(front, p, x);
        lemma_hoisted_refers(last.value, p, x);
        assert(refers_members(m, p, x) == (refers_members(front, p, x) || member_refers(
            last.key,
            last.value,
            p,
            x,
        )));
        if last.key != "$defs"@ {
            let nv = hoisted(last.value);
            let r = hoisted_members(m);
            assert(r == hoisted_members(front).push(MemberView { key: last.key, value: nv }));
            assert(r.subrange(0, r.len() - 1) =~= hoisted_members(front));
            assert(r[r.len() - 1] == MemberView { key: last.key, value: nv });
            assert(refers_members(r, p, x) == (refers_members(hoisted_members(front), p, x)
                || member_refers(last.key, nv, p, x)));
            if last.value is Str {
                assert(nv == last.value);
            } else {
                assert(!(nv is Str));
            }
        }
    }
}

/// A member's reference is a reference of the members it stands among.
proof fn lemma_member_refers_in(m: Seq<MemberView>, k: int, p: Seq<char>, x: Seq<char>)
    requires
        0 <= k < m.len(),
        member_refers(m[k].key, m[k].value, p, x),
    ensures
        refers_members(m, p, x),
{
    lemma_refers_members_iff(m, p, x);
}

/// A definition that hoisting gathers refers to nothing the value it was
/// gathered from does not.
pub proof fn lemma_collected_refers(j: JsonView, p: Seq<char>, x: Seq<char>, i: int)
    requires
        0 <= i < collected(j).len(),
        member_refers(collected(j)[i].key, collected(j)[i].value, p, x),
    ensures
        refers(j, p, x),
    decreases j, 0nat,
{
    match j {
        JsonView::Array(s) => lemma_collected_all_refers(s, p, x, i),
        JsonView::Object(m) => {
            let own = own_defs(m);
            if i < own.len() {
                lemma_own_defs_refers(m, p, x, i);
            } else {
                assert(collected(j)[i] == collected_members(m)[i - own.len()]);
                lemma_collected_members_refers(m, p, x, i - own.len());
            }
        },
        _ => {},
    }
}

proof fn lemma_own_defs_refers(m: Seq<MemberView>, p: Seq<char>, x: Seq<char>, i: int)
    requires
        0 <= i < own_defs(m).len(),
        member_refers(own_defs(m)[i].key, own_defs(m)[i].value, p, x),
    ensures
        refers_members(m, p, x),
    decreases m.len(),
{
    let front = m.subrange(0, m.len() - 1);
    let last = m[m.len() - 1];
    let before = own_defs(front);
    assert(refers_members(m, p, x) == (refers_members(front, p, x) || member_refers(
        last.key,
        last.value,
        p,
        x,
    )));
    if i < before.len() {
        assert(own_defs(m)[i] == before[i]);
        lemma_own_defs_refers(front, p, x, i);
    } else {
        assert(last.key == "$defs"@ && last.value is Object);
        let defs = last.value->Object_0;
        let k = i - before.len();
        assert(own_defs(m)[i] == defs[k]);
        lemma_member_refers_in(defs, k, p, x);
        assert(refers(last.value, p, x));
    }
}

proof fn lemma_collected_all_refers(s: Seq<JsonView>, p: Seq<char>, x: Seq<char>, i: int)
    requires
        0 <= i < collected_all(s).len(),
        member_refers(collected_all(s)[i].key, collected_all(s)[i].value, p, x),
    ensures
        refers_all(s, p, x),
    decreases s, 0nat,
{
    assert(decreases_to!(s => s[s.len() - 1]));
    assert(decreases_to!(s => s.subrange(0, s.len() - 1)));
    let front = s.subrange(0, s.len() - 1);
    let last = s[s.len() - 1];
    let before = collected_all(front);
    if i < before.len() {
        assert(collected_all(s)[i] == before[i]);
        lemma_collected_all_refers(front, p, x, i);
    } else {
        assert(collected_all(s)[i] == collected(last)[i - before.len()]);
        lemma_collected_refers(last, p, x, i - before.len());
    }
}

proof fn lemma_collected_members_refers(m: Seq<MemberView>, p: Seq<char>, x: Seq<char>, i: int)
    requires
        0 <= i < collected_members(m).len(),
        member_refers(collected_members(m)[i].key, collected_members(m)[i].value, p, x),
    ensures
        refers_members(m, p, x),
    decreases m, 0nat,
{
    assert(decreases_to!(m => m[m.len() - 1]));
    assert(decreases_to!(m => m.subrange(0, m.len() - 1)));
    assert(decreases_to!(m[m.len() - 1] => m[m.len() - 1].value));
    let front = m.subrange(0, m.len() - 1);
    let last = m[m.len() - 1];
    let before = collected_members(front);
    assert(refers_members(m, p, x) == (refers_members(front, p, x) || member_refers(
        last.key,
        last.value,
        p,
        x,
    )));
    if i < before.len() {
        assert(collected_members(m)[i] == before[i]);
        lemma_collected_members_refers(front, p, x, i);
    } else {
        assert(last.key != "$defs"@);
        assert(collected_members(m)[i] == collected(last.value)[i - before.len()]);
        lemma_collected_refers(last.value, p, x, i - before.len());
    }
}

/// Each schema gathered into an empty map is a definition met, name and
/// value.
proof fn lemma_add_absent_from(defs: Seq<MemberView>, k: Seq<char>)
    requires
        add_absent(Map::empty(), defs).contains_key(k),
    ensures
        exists|i: int|
            0 <= i < defs.len() && #[trigger] defs[i].key == k && defs[i].value == add_absent(
                Map::empty(),
                defs,
            )[k],
    decreases defs.len(),
{
    let front = defs.subrange(0, defs.len() - 1);
    let last = defs[defs.len() - 1];
    let before = add_absent(Map::empty(), front);
    if before.contains_key(k) {
        lemma_add_absent_from(front, k);
        let i = choose|i: int|
            0 <= i < front.len() && #[trigger] front[i].key == k && front[i].value == before[k];
        assert(defs[i] == front[i]);
        if !before.contains_key(last.key) {
            assert(last.key != k);
        }
    } else {
        assert(defs[defs.len() - 1].key == k);
    }
}

/// Keys of another length, or that do not begin with `$`, are not `$ref`.
proof fn lemma_not_ref_key(s: Seq<char>)
    requires
        s.len() != 4 || s[0] != '$',
    ensures
        s != "$ref"@,
{
    reveal_strlit("$ref");
}

/// No member is a reference and no value holds one.
proof fn lemma_no_refs_members(m: Seq<MemberView>, p: Seq<char>, x: Seq<char>)
    requires
        forall|k: int| 0 <= k < m.len() ==> #[trigger] m[k].key != "$ref"@ && !refers(m[k].value, p, x),
    ensures
        !refers_members(m, p, x),
{
    lemma_refers_members_iff(m, p, x);
}

/// A reference of the document is one of its path item, or one of a schema
/// it gathers.
proof fn lemma_doc_refers(
    title: Seq<char>,
    path: Seq<char>,
    item: JsonView,
    server_url: Seq<char>,
    schemas: Seq<MemberView>,
    p: Seq<char>,
    x: Seq<char>,
)
    requires
        path != "$ref"@,
        refers(doc_of(title, path, item, server_url, schemas), p, x),
    ensures
        refers(item, p, x) || exists|i: int|
            0 <= i < schemas.len() && member_refers(#[trigger] schemas[i].key, schemas[i].value, p, x),
{
    reveal_strlit("$ref");
    reveal_strlit("components");
    reveal_strlit("schemas");
    reveal_strlit("info");
    reveal_strlit("title");
    reveal_strlit("version");
    reveal_strlit("openapi");
    reveal_strlit("paths");
    reveal_strlit("servers");
    reveal_strlit("url");
    lemma_not_ref_key("title"@);
    lemma_not_ref_key("version"@);
    lemma_not_ref_key("url"@);
    lemma_not_ref_key("schemas"@);
    lemma_not_ref_key("components"@);
    lemma_not_ref_key("info"@);
    lemma_not_ref_key("openapi"@);
    lemma_not_ref_key("paths"@);
    lemma_not_ref_key("servers"@);
    let im = seq![mv("title"@, JsonView::Str(title)), mv("version"@, JsonView::Str("1.0.0"@))];
    let info = JsonView::Object(im);
    assert(im[0].key == "title"@ && im[1].key == "version"@);
    lemma_no_refs_members(im, p, x);
    assert(!refers(info, p, x));
    let um = seq![mv("url"@, JsonView::Str(server_url))];
    let server = JsonView::Object(um);
    assert(um[0].key == "url"@);
    lemma_no_refs_members(um, p, x);
    assert(!refers(server, p, x));
    let servers = seq![server];
    lemma_refers_all_iff(servers, p, x);
    assert(!refers(JsonView::Array(servers), p, x));
    let paths = seq![mv(path, item)];
    lemma_refers_members_iff(paths, p, x);
    let rest = seq![
        mv("info"@, info),
        mv("openapi"@, JsonView::Str("3.1.0"@)),
        mv("paths"@, JsonView::Object(paths)),
        mv("servers"@, JsonView::Array(servers)),
    ];
    let comp = seq![mv("schemas"@, JsonView::Object(schemas))];
    lemma_refers_members_iff(comp, p, x);
    lemma_refers_members_iff(schemas, p, x);
    let components = if schemas.len() > 0 {
        seq![mv("components"@, JsonView::Object(comp))]
    } else {
        Seq::empty()
    };
    let all = components + rest;
    assert(doc_of(title, path, item, server_url, schemas) == JsonView::Object(all));
    lemma_refers_members_iff(all, p, x);
    let k = choose|k: int| 0 <= k < all.len() && member_refers(#[trigger] all[k].key, all[k].value, p, x);
    if schemas.len() > 0 && k == 0 {
        assert(all[k] == mv("components"@, JsonView::Object(comp)));
        assert(refers(JsonView::Object(comp), p, x));
        assert(comp[0] == mv("schemas"@, JsonView::Object(schemas)));
        assert(member_refers(comp[0].key, comp[0].value, p, x));
        assert(refers(JsonView::Object(schemas), p, x));
    } else {
        let r = k - components.len();
        assert(all[k] == rest[r]);
        if r == 0 {
            assert(rest[0] == mv("info"@, info));
        } else if r == 1 {
            assert(rest[1] == mv("openapi"@, JsonView::Str("3.1.0"@)));
        } else if r == 2 {
            assert(rest[2] == mv("paths"@, JsonView::Object(paths)));
            assert(refers(JsonView::Object(paths), p, x));
            assert(paths[0] == mv(path, item));
            assert(member_refers(path, item, p, x));
        } else {
            assert(rest[3] == mv("servers"@, JsonView::Array(servers)));
        }
    }
}

/// Where the path item holds a reference, through `#/$defs/` or
/// `#/components/schemas/`, the document refers to it as well: a schema of
/// the document holds nothing the path item does not.
proof fn lemma_doc_refers_item(
    title: Seq<char>,
    path: Seq<char>,
    item: JsonView,
    server_url: Seq<char>,
    acc: Seq<(String, Json)>,
    p: Seq<char>,
    x: Seq<char>,
)
    requires
        sorted_keys(acc),
        schemas_view(acc) == add_absent(Map::empty(), collected(item)),
        path != "$ref"@,
        refers(doc_of(title, path, hoisted(item), server_url, schema_members(acc)), p, x),
    ensures
        refers(item, p, x),
{
    let schemas = schema_members(acc);
    lemma_doc_refers(title, path, hoisted(item), server_url, schemas, p, x);
    if refers(hoisted(item), p, x) {
        lemma_hoisted_refers(item, p, x);
    } else {
        let i = choose|i: int|
            0 <= i < schemas.len() && member_refers(#[trigger] schemas[i].key, schemas[i].value, p, x);
        assert(schemas[i] == mv(acc[i].0@, view_of(acc[i].1)));
        lemma_kv_map_at(acc, i);
        let key = acc[i].0@;
        assert(schemas_view(acc).contains_key(key));
        assert(schemas_view(acc)[key] == view_of(acc[i].1));
        lemma_add_absent_from(collected(item), key);
        let j = choose|j: int|
            0 <= j < collected(item).len() && #[trigger] collected(item)[j].key == key
                && collected(item)[j].value == add_absent(Map::empty(), collected(item))[key];
        lemma_collected_refers(item, p, x, j);
    }
}

/// Every reference into `#/components/schemas/` of the document that
/// [`crate::docs::build_openapi_doc`] builds from `item` with the schemas
/// `acc` names one of those schemas, where every name the path item refers
/// to is defined in one of its `$defs` and the path is not `$ref`.
pub proof fn lemma_openapi_refs_resolve(
    title: Seq<char>,
    path: Seq<char>,
    item: JsonView,
    server_url: Seq<char>,
    acc: Seq<(String, Json)>,
)
    requires
        sorted_keys(acc),
        schemas_view(acc) == add_absent(Map::empty(), collected(item)),
        refs_defined(item),
        path != "$ref"@,
    ensures
        forall|x: Seq<char>|
            #[trigger] refers(
                rewritten(doc_of(title, path, hoisted(item), server_url, schema_members(acc))),
                components_prefix(),
                x,
            ) ==> schemas_view(acc).contains_key(x),
{
    let doc = doc_of(title, path, hoisted(item), server_url, schema_members(acc));
    assert forall|x: Seq<char>| #[trigger] refers(rewritten(doc), components_prefix(), x) implies schemas_view(
        acc,
    ).contains_key(x) by {
        lemma_rewritten_refers(doc, x);
        if refers(doc, components_prefix(), x) {
            lemma_doc_refers_item(title, path, item, server_url, acc, components_prefix(), x);
        } else {
            lemma_doc_refers_item(title, path, item, server_url, acc, defs_prefix(), x);
        }
        let j = choose|j: int| 0 <= j < collected(item).len() && #[trigger] collected(item)[j].key == x;
        lemma_add_absent_keeps_and_gathers(Map::empty(), collected(item));
    }
}

} // verus!

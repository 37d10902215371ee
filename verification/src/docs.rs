//! Online capability descriptions: self-contained OpenAPI documents for one
//! endpoint, with the JSON Schema definitions they embed hoisted to the
//! document's components.

use vstd::prelude::*;

use crate::keyed::{kv_find, kv_insert_at, kv_map, sorted_keys};
use crate::text::{chars_of, concat2, has_prefix, push_all, starts_with_at, sub_vec};

verus! {

/// A JSON value. The members of an object are kept in the order the
/// document holds them.
#[derive(Debug)]
pub enum Json {
    Null,
    Bool(bool),
    /// A number, by its text.
    Number(String),
    Str(String),
    Array(Vec<Json>),
    Object(Vec<Member>),
}

/// A member of a JSON object.
#[derive(Debug)]
pub struct Member {
    pub key: String,
    pub value: Json,
}

/// A JSON value as a mathematical object.
pub enum JsonView {
    Null,
    Bool(bool),
    Number(Seq<char>),
    Str(Seq<char>),
    Array(Seq<JsonView>),
    Object(Seq<MemberView>),
}

/// A member of a JSON object as a mathematical object.
pub struct MemberView {
    pub key: Seq<char>,
    pub value: JsonView,
}

/// The view of a JSON value.
pub open spec fn view_of(j: Json) -> JsonView
    decreases j,
{
    match j {
        Json::Null => JsonView::Null,
        Json::Bool(b) => JsonView::Bool(b),
        Json::Number(n) => JsonView::Number(n@),
        Json::Str(s) => JsonView::Str(s@),
        Json::Array(v) => {
            proof {
                assert(decreases_to!(v => v@));
            }
            JsonView::Array(views_of(v@))
        },
        Json::Object(m) => {
            proof {
                assert(decreases_to!(m => m@));
            }
            JsonView::Object(members_of(m@))
        },
    }
}

/// The views of a sequence of JSON values.
pub open spec fn views_of(s: Seq<Json>) -> Seq<JsonView>
    decreases s,
{
    if s.len() == 0 {
        Seq::empty()
    } else {
        proof {
            assert(decreases_to!(s => s[s.len() - 1]));
            assert(decreases_to!(s => s.subrange(0, s.len() - 1)));
        }
        views_of(s.subrange(0, s.len() - 1)).push(view_of(s[s.len() - 1]))
    }
}

/// The views of the members of an object.
pub open spec fn members_of(s: Seq<Member>) -> Seq<MemberView>
    decreases s,
{
    if s.len() == 0 {
        Seq::empty()
    } else {
        proof {
            assert(decreases_to!(s => s[s.len() - 1]));
            assert(decreases_to!(s => s.subrange(0, s.len() - 1)));
        }
        members_of(s.subrange(0, s.len() - 1)).push(
            MemberView { key: s[s.len() - 1].key@, value: view_of(s[s.len() - 1].value) },
        )
    }
}

/// Where JSON Schema keeps the definitions it refers to.
pub open spec fn defs_prefix() -> Seq<char> {
    "#/$defs/"@
}

/// Where an OpenAPI document keeps its reusable schemas.
pub open spec fn components_prefix() -> Seq<char> {
    "#/components/schemas/"@
}

/// The value of a member once a JSON Schema reference is rewritten: a
/// `$ref` to `#/$defs/<name>` becomes a `$ref` to
/// `#/components/schemas/<name>`.
pub open spec fn rewritten_member(key: Seq<char>, value: JsonView) -> JsonView
    decreases value, 1nat,
{
    if key == "$ref"@ && value is Str && has_prefix(value->Str_0, defs_prefix()) {
        JsonView::Str(components_prefix() + value->Str_0.skip(defs_prefix().len() as int))
    } else {
        rewritten(value)
    }
}

/// A JSON value with every reference into `#/$defs/` rewritten.
pub open spec fn rewritten(j: JsonView) -> JsonView
    decreases j, 0nat,
{
    match j {
        JsonView::Array(s) => JsonView::Array(rewritten_all(s)),
        JsonView::Object(m) => JsonView::Object(rewritten_members(m)),
        _ => j,
    }
}

/// The values of a sequence, rewritten.
pub open spec fn rewritten_all(s: Seq<JsonView>) -> Seq<JsonView>
    decreases s, 0nat,
{
    if s.len() == 0 {
        Seq::empty()
    } else {
        proof {
            assert(decreases_to!(s => s[s.len() - 1]));
            assert(decreases_to!(s => s.subrange(0, s.len() - 1)));
        }
        rewritten_all(s.subrange(0, s.len() - 1)).push(rewritten(s[s.len() - 1]))
    }
}

/// The members of an object, rewritten.
pub open spec fn rewritten_members(m: Seq<MemberView>) -> Seq<MemberView>
    decreases m, 0nat,
{
    if m.len() == 0 {
        Seq::empty()
    } else {
        proof {
            assert(decreases_to!(m => m[m.len() - 1]));
            assert(decreases_to!(m => m.subrange(0, m.len() - 1)));
        }
        let last = m[m.len() - 1];
        rewritten_members(m.subrange(0, m.len() - 1)).push(
            MemberView { key: last.key, value: rewritten_member(last.key, last.value) },
        )
    }
}

proof fn lemma_views_push(s: Seq<Json>, x: Json)
    ensures
        views_of(s.push(x)) == views_of(s).push(view_of(x)),
{
    assert(s.push(x).subrange(0, s.len() as int) =~= s);
}

proof fn lemma_members_push(s: Seq<Member>, x: Member)
    ensures
        members_of(s.push(x)) == members_of(s).push(MemberView { key: x.key@, value: view_of(x.value) }),
{
    assert(s.push(x).subrange(0, s.len() as int) =~= s);
}

proof fn lemma_rewritten_all_push(s: Seq<JsonView>, x: JsonView)
    ensures
        rewritten_all(s.push(x)) == rewritten_all(s).push(rewritten(x)),
{
    assert(s.push(x).subrange(0, s.len() as int) =~= s);
}

proof fn lemma_rewritten_members_push(s: Seq<MemberView>, x: MemberView)
    ensures
        rewritten_members(s.push(x)) == rewritten_members(s).push(
            MemberView { key: x.key, value: rewritten_member(x.key, x.value) },
        ),
{
    assert(s.push(x).subrange(0, s.len() as int) =~= s);
}

fn is_ref_key(key: &String) -> (r: bool)
    ensures
        r == (key@ == "$ref"@),
{
    crate::keyed::compare_keys(key.as_str(), "$ref") == 0
}

/// Rewrites every reference into `#/$defs/` to one into
/// `#/components/schemas/`.
#[verifier::loop_isolation(false)]
pub fn rewrite_defs_refs(j: Json) -> (r: Json)
    ensures
        view_of(r) == rewritten(view_of(j)),
    decreases j,
{
    let ghost j0 = j;
    match j {
        Json::Array(v) => {
            let ghost vv = v;
            let ghost orig = v@;
            let mut rest = v;
            let mut out: Vec<Json> = Vec::new();
            let ghost mut i: int = 0;
            proof {
                assert(orig.take(0) =~= Seq::<Json>::empty());
                assert(views_of(out@) =~= rewritten_all(views_of(orig.take(0))));
                assert(orig.skip(0) =~= orig);
            }
            while rest.len() > 0
                invariant
                    j0 == Json::Array(vv),
                    orig == vv@,
                    0 <= i <= orig.len(),
                    rest@ == orig.skip(i),
                    views_of(out@) == rewritten_all(views_of(orig.take(i))),
                decreases rest.len(),
            {
                let x = rest.remove(0);
                proof {
                    assert(x == orig[i]);
                    assert(decreases_to!(vv => vv@));
                    assert(decreases_to!(vv@ => vv@[i]));
                    assert(decreases_to!(j0 => j0->Array_0));
                    assert(decreases_to!(j0 => vv@[i]));
                }
                let y = rewrite_defs_refs(x);
                let ghost before = out@;
                out.push(y);
                proof {
                    assert(orig.take(i + 1) =~= orig.take(i).push(orig[i]));
                    lemma_views_push(orig.take(i), orig[i]);
                    lemma_views_push(before, y);
                    lemma_rewritten_all_push(views_of(orig.take(i)), view_of(orig[i]));
                    assert(rest@ =~= orig.skip(i + 1));
                    i = i + 1;
                }
            }
            proof {
                assert(orig.take(i) =~= orig);
            }
            Json::Array(out)
        },
        Json::Object(m) => {
            let ghost mm = m;
            let ghost orig = m@;
            let mut rest = m;
            let mut out: Vec<Member> = Vec::new();
            let ghost mut i: int = 0;
            proof {
                assert(orig.take(0) =~= Seq::<Member>::empty());
                assert(members_of(out@) =~= rewritten_members(members_of(orig.take(0))));
                assert(orig.skip(0) =~= orig);
            }
            while rest.len() > 0
                invariant
                    j0 == Json::Object(mm),
                    orig == mm@,
                    0 <= i <= orig.len(),
                    rest@ == orig.skip(i),
                    members_of(out@) == rewritten_members(members_of(orig.take(i))),
                decreases rest.len(),
            {
                let x = rest.remove(0);
                let Member { key, value } = x;
                proof {
                    assert(x == orig[i]);
                    assert(decreases_to!(mm => mm@));
                    assert(decreases_to!(mm@ => mm@[i]));
                    assert(decreases_to!(mm@[i] => mm@[i].value));
                    assert(decreases_to!(j0 => j0->Object_0));
                    assert(decreases_to!(j0 => mm@[i].value));
                }
                let ghost vv = view_of(value);
                let new_value = if is_ref_key(&key) {
                    match value {
                        Json::Str(t) => {
                            let tv = chars_of(t.as_str());
                            let p = chars_of("#/$defs/");
                            if starts_with_at(&tv, 0, &p) {
                                proof {
                                    assert(tv@.subrange(0, tv@.len() as int) =~= tv@);
                                }
                                let rest_name = sub_vec(&tv, p.len(), tv.len());
                                let mut n = "#/components/schemas/".to_owned();
                                push_all(&mut n, &rest_name);
                                assert(rest_name@ =~= t@.skip(defs_prefix().len() as int));
                                Json::Str(n)
                            } else {
                                proof {
                                    assert(tv@.subrange(0, tv@.len() as int) =~= tv@);
                                }
                                Json::Str(t)
                            }
                        },
                        other => rewrite_defs_refs(other),
                    }
                } else {
                    rewrite_defs_refs(value)
                };
                assert(view_of(new_value) == rewritten_member(key@, vv));
                let ghost before = out@;
                let nm = Member { key, value: new_value };
                out.push(nm);
                proof {
                    assert(orig.take(i + 1) =~= orig.take(i).push(orig[i]));
                    lemma_members_push(orig.take(i), orig[i]);
                    lemma_members_push(before, nm);
                    lemma_rewritten_members_push(
                        members_of(orig.take(i)),
                        MemberView { key: orig[i].key@, value: view_of(orig[i].value) },
                    );
                    assert(rest@ =~= orig.skip(i + 1));
                    i = i + 1;
                }
            }
            proof {
                assert(orig.take(i) =~= orig);
            }
            Json::Object(out)
        },
        other => other,
    }
}

/// No `$ref` in the value points into `#/$defs/`.
pub open spec fn no_defs_refs(j: JsonView) -> bool
    decreases j, 0nat,
{
    match j {
        JsonView::Array(s) => no_defs_refs_all(s),
        JsonView::Object(m) => no_defs_refs_members(m),
        _ => true,
    }
}

/// No `$ref` in the values points into `#/$defs/`.
pub open spec fn no_defs_refs_all(s: Seq<JsonView>) -> bool
    decreases s, 0nat,
{
    if s.len() == 0 {
        true
    } else {
        proof {
            assert(decreases_to!(s => s[s.len() - 1]));
            assert(decreases_to!(s => s.subrange(0, s.len() - 1)));
        }
        no_defs_refs_all(s.subrange(0, s.len() - 1)) && no_defs_refs(s[s.len() - 1])
    }
}

/// No `$ref` among the members, or in their values, points into `#/$defs/`.
pub open spec fn no_defs_refs_members(m: Seq<MemberView>) -> bool
    decreases m, 0nat,
{
    if m.len() == 0 {
        true
    } else {
        proof {
            assert(decreases_to!(m => m[m.len() - 1]));
            assert(decreases_to!(m => m.subrange(0, m.len() - 1)));
        }
        let last = m[m.len() - 1];
        &&& no_defs_refs_members(m.subrange(0, m.len() - 1))
        &&& !(last.key == "$ref"@ && last.value is Str && has_prefix(last.value->Str_0, defs_prefix()))
        &&& no_defs_refs(last.value)
    }
}

proof fn lemma_components_not_defs(x: Seq<char>)
    ensures
        !has_prefix(components_prefix() + x, defs_prefix()),
{
    reveal_strlit("#/components/schemas/");
    reveal_strlit("#/$defs/");
    let t = components_prefix() + x;
    assert(t[2] == 'c');
    assert(defs_prefix()[2] == '$');
    if has_prefix(t, defs_prefix()) {
        assert(t.subrange(0, defs_prefix().len() as int)[2] == t[2]);
    }
}

/// Once rewritten, no reference points into `#/$defs/`.
pub proof fn lemma_rewritten_has_no_defs_refs(j: JsonView)
    ensures
        no_defs_refs(rewritten(j)),
    decreases j, 0nat,
{
    match j {
        JsonView::Array(s) => lemma_rewritten_all_has_no_defs_refs(s),
        JsonView::Object(m) => lemma_rewritten_members_have_no_defs_refs(m),
        _ => {},
    }
}

proof fn lemma_rewritten_all_has_no_defs_refs(s: Seq<JsonView>)
    ensures
        no_defs_refs_all(rewritten_all(s)),
    decreases s, 0nat,
{
    if s.len() > 0 {
        assert(decreases_to!(s => s[s.len() - 1]));
        assert(decreases_to!(s => s.subrange(0, s.len() - 1)));
        let front = s.subrange(0, s.len() - 1);
        lemma_rewritten_all_has_no_defs_refs(front);
        lemma_rewritten_has_no_defs_refs(s[s.len() - 1]);
        let r = rewritten_all(s);
        assert(r.subrange(0, r.len() - 1) =~= rewritten_all(front));
    }
}

proof fn lemma_rewritten_members_have_no_defs_refs(m: Seq<MemberView>)
    ensures
        no_defs_refs_members(rewritten_members(m)),
    decreases m, 0nat,
{
    if m.len() > 0 {
        assert(decreases_to!(m => m[m.len() - 1]));
        assert(decreases_to!(m => m.subrange(0, m.len() - 1)));
        assert(decreases_to!(m[m.len() - 1] => m[m.len() - 1].value));
        let front = m.subrange(0, m.len() - 1);
        let last = m[m.len() - 1];
        lemma_rewritten_members_have_no_defs_refs(front);
        lemma_rewritten_has_no_defs_refs(last.value);
        if last.key == "$ref"@ && last.value is Str && has_prefix(last.value->Str_0, defs_prefix()) {
            lemma_components_not_defs(last.value->Str_0.skip(defs_prefix().len() as int));
        } else if last.value is Str {
            assert(rewritten(last.value) == last.value);
        } else {
            assert(!(rewritten(last.value) is Str));
        }
        let r = rewritten_members(m);
        let nv = rewritten_member(last.key, last.value);
        assert(r == rewritten_members(front).push(MemberView { key: last.key, value: nv }));
        assert(no_defs_refs(nv));
        assert(!(last.key == "$ref"@ && nv is Str && has_prefix(nv->Str_0, defs_prefix())));
        assert(r.subrange(0, r.len() - 1) =~= rewritten_members(front));
        assert(r[r.len() - 1] == MemberView { key: last.key, value: nv });
    }
}

/// A JSON value with every `$defs` member of its objects removed; the
/// values of removed members are not looked into.
pub open spec fn hoisted(j: JsonView) -> JsonView
    decreases j, 0nat,
{
    match j {
        JsonView::Array(s) => JsonView::Array(hoisted_all(s)),
        JsonView::Object(m) => JsonView::Object(hoisted_members(m)),
        _ => j,
    }
}

/// The values of a sequence, with their `$defs` removed.
pub open spec fn hoisted_all(s: Seq<JsonView>) -> Seq<JsonView>
    decreases s, 0nat,
{
    if s.len() == 0 {
        Seq::empty()
    } else {
        proof {
            assert(decreases_to!(s => s[s.len() - 1]));
            assert(decreases_to!(s => s.subrange(0, s.len() - 1)));
        }
        hoisted_all(s.subrange(0, s.len() - 1)).push(hoisted(s[s.len() - 1]))
    }
}

/// The members of an object without `$defs`, their values with their
/// `$defs` removed.
pub open spec fn hoisted_members(m: Seq<MemberView>) -> Seq<MemberView>
    decreases m, 0nat,
{
    if m.len() == 0 {
        Seq::empty()
    } else {
        proof {
            assert(decreases_to!(m => m[m.len() - 1]));
            assert(decreases_to!(m => m.subrange(0, m.len() - 1)));
        }
        let last = m[m.len() - 1];
        if last.key == "$defs"@ {
            hoisted_members(m.subrange(0, m.len() - 1))
        } else {
            hoisted_members(m.subrange(0, m.len() - 1)).push(
                MemberView { key: last.key, value: hoisted(last.value) },
            )
        }
    }
}

/// The definitions an object's own `$defs` members hold, in order.
pub open spec fn own_defs(m: Seq<MemberView>) -> Seq<MemberView>
    decreases m.len(),
{
    if m.len() == 0 {
        Seq::empty()
    } else {
        let last = m[m.len() - 1];
        own_defs(m.subrange(0, m.len() - 1)) + if last.key == "$defs"@ && last.value is Object {
            last.value->Object_0
        } else {
            Seq::empty()
        }
    }
}

/// Every definition found, in the order they are met: an object's own
/// first, then those of its other members' values.
pub open spec fn collected(j: JsonView) -> Seq<MemberView>
    decreases j, 0nat,
{
    match j {
        JsonView::Array(s) => collected_all(s),
        JsonView::Object(m) => own_defs(m) + collected_members(m),
        _ => Seq::empty(),
    }
}

/// The definitions found in a sequence of values.
pub open spec fn collected_all(s: Seq<JsonView>) -> Seq<MemberView>
    decreases s, 0nat,
{
    if s.len() == 0 {
        Seq::empty()
    } else {
        proof {
            assert(decreases_to!(s => s[s.len() - 1]));
            assert(decreases_to!(s => s.subrange(0, s.len() - 1)));
        }
        collected_all(s.subrange(0, s.len() - 1)) + collected(s[s.len() - 1])
    }
}

/// The definitions found in the values of the members other than `$defs`.
pub open spec fn collected_members(m: Seq<MemberView>) -> Seq<MemberView>
    decreases m, 0nat,
{
    if m.len() == 0 {
        Seq::empty()
    } else {
        proof {
            assert(decreases_to!(m => m[m.len() - 1]));
            assert(decreases_to!(m => m.subrange(0, m.len() - 1)));
        }
        let last = m[m.len() - 1];
        collected_members(m.subrange(0, m.len() - 1)) + if last.key == "$defs"@ {
            Seq::empty()
        } else {
            collected(last.value)
        }
    }
}

/// `acc` with each definition of `defs` added where its name is not yet
/// there: the first definition of a name wins.
pub open spec fn add_absent(acc: Map<Seq<char>, JsonView>, defs: Seq<MemberView>) -> Map<
    Seq<char>,
    JsonView,
>
    decreases defs.len(),
{
    if defs.len() == 0 {
        acc
    } else {
        let before = add_absent(acc, defs.subrange(0, defs.len() - 1));
        let last = defs[defs.len() - 1];
        if before.contains_key(last.key) {
            before
        } else {
            before.insert(last.key, last.value)
        }
    }
}

/// Adding two runs of definitions is adding the first, then the second.
pub proof fn lemma_add_absent_concat(acc: Map<Seq<char>, JsonView>, a: Seq<MemberView>, b: Seq<MemberView>)
    ensures
        add_absent(acc, a + b) == add_absent(add_absent(acc, a), b),
    decreases b.len(),
{
    if b.len() == 0 {
        assert(a + b =~= a);
    } else {
        let b1 = b.subrange(0, b.len() - 1);
        lemma_add_absent_concat(acc, a, b1);
        assert((a + b).subrange(0, (a + b).len() - 1) =~= a + b1);
        assert((a + b)[(a + b).len() - 1] == b[b.len() - 1]);
    }
}

/// The schemas gathered so far, as a map of views.
pub open spec fn schemas_view(acc: Seq<(String, Json)>) -> Map<Seq<char>, JsonView> {
    kv_map(acc).map_values(|j: Json| view_of(j))
}

/// The members other than `$defs`, in order.
pub open spec fn without_defs(m: Seq<MemberView>) -> Seq<MemberView>
    decreases m.len(),
{
    if m.len() == 0 {
        Seq::empty()
    } else {
        let last = m[m.len() - 1];
        if last.key == "$defs"@ {
            without_defs(m.subrange(0, m.len() - 1))
        } else {
            without_defs(m.subrange(0, m.len() - 1)).push(last)
        }
    }
}

proof fn lemma_without_defs_same(m: Seq<MemberView>)
    ensures
        hoisted_members(without_defs(m)) == hoisted_members(m),
        collected_members(without_defs(m)) == collected_members(m),
    decreases m.len(),
{
    if m.len() > 0 {
        let front = m.subrange(0, m.len() - 1);
        let last = m[m.len() - 1];
        lemma_without_defs_same(front);
        if last.key != "$defs"@ {
            let w = without_defs(front).push(last);
            assert(w.subrange(0, w.len() - 1) =~= without_defs(front));
        }
    }
}

proof fn lemma_hoisted_all_push(s: Seq<JsonView>, x: JsonView)
    ensures
        hoisted_all(s.push(x)) == hoisted_all(s).push(hoisted(x)),
        collected_all(s.push(x)) == collected_all(s) + collected(x),
{
    assert(s.push(x).subrange(0, s.len() as int) =~= s);
}

proof fn lemma_members_step(s: Seq<MemberView>, x: MemberView)
    ensures
        hoisted_members(s.push(x)) == (if x.key == "$defs"@ {
            hoisted_members(s)
        } else {
            hoisted_members(s).push(MemberView { key: x.key, value: hoisted(x.value) })
        }),
        collected_members(s.push(x)) == collected_members(s) + (if x.key == "$defs"@ {
            Seq::empty()
        } else {
            collected(x.value)
        }),
        own_defs(s.push(x)) == own_defs(s) + (if x.key == "$defs"@ && x.value is Object {
            x.value->Object_0
        } else {
            Seq::empty()
        }),
        without_defs(s.push(x)) == (if x.key == "$defs"@ {
            without_defs(s)
        } else {
            without_defs(s).push(x)
        }),
{
    assert(s.push(x).subrange(0, s.len() as int) =~= s);
}

fn is_defs_key(key: &String) -> (r: bool)
    ensures
        r == (key@ == "$defs"@),
{
    crate::keyed::compare_keys(key.as_str(), "$defs") == 0
}

/// Adds each definition whose name is not yet among the schemas.
fn add_defs(acc: &mut Vec<(String, Json)>, defs: Vec<Member>)
    requires
        sorted_keys(old(acc)@),
    ensures
        sorted_keys(final(acc)@),
        schemas_view(final(acc)@) == add_absent(schemas_view(old(acc)@), members_of(defs@)),
{
    let ghost acc0 = schemas_view(acc@);
    let ghost orig = defs@;
    let mut rest = defs;
    let ghost mut i: int = 0;
    proof {
        assert(orig.take(0) =~= Seq::<Member>::empty());
        assert(orig.skip(0) =~= orig);
        assert(members_of(orig.take(0)) =~= Seq::<MemberView>::empty());
    }
    while rest.len() > 0
        invariant
            0 <= i <= orig.len(),
            rest@ == orig.skip(i),
            sorted_keys(acc@),
            schemas_view(acc@) == add_absent(acc0, members_of(orig.take(i))),
        decreases rest.len(),
    {
        let x = rest.remove(0);
        proof {
            assert(x == orig[i]);
            assert(orig.take(i + 1) =~= orig.take(i).push(orig[i]));
            lemma_members_push(orig.take(i), orig[i]);
            let ms = members_of(orig.take(i)).push(MemberView { key: x.key@, value: view_of(x.value) });
            assert(ms.subrange(0, ms.len() - 1) =~= members_of(orig.take(i)));
        }
        let Member { key, value } = x;
        let ghost kv = key@;
        let ghost vv = view_of(value);
        match kv_find(acc, key.as_str()) {
            Ok(_) => {
                proof {
                    assert(kv_map(acc@).contains_key(kv)) by {
                        let j = choose|j: int| 0 <= j < acc@.len() && #[trigger] acc@[j].0@ == kv;
                        assert(crate::keyed::has_key(acc@, kv));
                    }
                }
            },
            Err(p) => {
                let ghost before = acc@;
                kv_insert_at(acc, p, key, value);
                proof {
                    assert(schemas_view(acc@) =~= schemas_view(before).insert(kv, vv));
                }
            },
        }
        proof {
            assert(rest@ =~= orig.skip(i + 1));
            i = i + 1;
        }
    }
    proof {
        assert(orig.take(i) =~= orig);
    }
}

/// Takes an object's `$defs` members out, adding their definitions to the
/// schemas, and gives back the other members in order.
fn split_defs(m: Vec<Member>, schemas: &mut Vec<(String, Json)>) -> (kept: Vec<Member>)
    requires
        sorted_keys(old(schemas)@),
    ensures
        sorted_keys(final(schemas)@),
        members_of(kept@) == without_defs(members_of(m@)),
        forall|k: int| 0 <= k < kept@.len() ==> exists|o: int| 0 <= o < m@.len() && #[trigger] kept@[k] == m@[o],
        forall|k: int| 0 <= k < kept@.len() ==> (#[trigger] kept@[k]).key@ != "$defs"@,
        schemas_view(final(schemas)@) == add_absent(schemas_view(old(schemas)@), own_defs(members_of(m@))),
{
    let ghost acc0 = schemas_view(schemas@);
    let ghost orig = m@;
    let mut rest = m;
    let mut kept: Vec<Member> = Vec::new();
    let ghost mut i: int = 0;
    proof {
        assert(orig.take(0) =~= Seq::<Member>::empty());
        assert(orig.skip(0) =~= orig);
        assert(members_of(orig.take(0)) =~= Seq::<MemberView>::empty());
        assert(members_of(kept@) =~= without_defs(members_of(orig.take(0))));
        assert(add_absent(acc0, own_defs(members_of(orig.take(0)))) == acc0);
    }
    while rest.len() > 0
        invariant
            0 <= i <= orig.len(),
            rest@ == orig.skip(i),
            sorted_keys(schemas@),
            members_of(kept@) == without_defs(members_of(orig.take(i))),
            forall|k: int| 0 <= k < kept@.len() ==> exists|o: int| 0 <= o < i && #[trigger] kept@[k] == orig[o],
            forall|k: int| 0 <= k < kept@.len() ==> (#[trigger] kept@[k]).key@ != "$defs"@,
            schemas_view(schemas@) == add_absent(acc0, own_defs(members_of(orig.take(i)))),
        decreases rest.len(),
    {
        let x = rest.remove(0);
        let ghost xv = MemberView { key: x.key@, value: view_of(x.value) };
        proof {
            assert(x == orig[i]);
            assert(orig.take(i + 1) =~= orig.take(i).push(orig[i]));
            lemma_members_push(orig.take(i), orig[i]);
            lemma_members_step(members_of(orig.take(i)), xv);
        }
        if is_defs_key(&x.key) {
            let Member { key, value } = x;
            match value {
                Json::Object(dm) => {
                    add_defs(schemas, dm);
                    proof {
                        lemma_add_absent_concat(acc0, own_defs(members_of(orig.take(i))), members_of(dm@));
                    }
                },
                _ => {
                    proof {
                        assert(own_defs(members_of(orig.take(i))) + Seq::<MemberView>::empty() =~= own_defs(members_of(orig.take(i))));
                    }
                },
            }
        } else {
            let ghost before = kept@;
            kept.push(x);
            proof {
                lemma_members_push(before, x);
                assert(own_defs(members_of(orig.take(i))) + Seq::<MemberView>::empty() =~= own_defs(members_of(orig.take(i))));
                assert forall|k: int| 0 <= k < kept@.len() implies exists|o: int| 0 <= o < i + 1 && #[trigger] kept@[k] == orig[o] by {
                    if k < before.len() {
                        assert(kept@[k] == before[k]);
                    } else {
                        assert(kept@[k] == orig[i]);
                    }
                }
            }
        }
        proof {
            assert(rest@ =~= orig.skip(i + 1));
            i = i + 1;
        }
    }
    proof {
        assert(orig.take(i) =~= orig);
    }
    kept
}

/// Moves every embedded `$defs` map into the shared schemas, the first
/// definition of a name winning, and gives back the value without them.
#[verifier::loop_isolation(false)]
pub fn hoist_schema_defs(j: Json, schemas: &mut Vec<(String, Json)>) -> (r: Json)
    requires
        sorted_keys(old(schemas)@),
    ensures
        sorted_keys(final(schemas)@),
        view_of(r) == hoisted(view_of(j)),
        schemas_view(final(schemas)@) == add_absent(schemas_view(old(schemas)@), collected(view_of(j))),
    decreases j,
{
    let ghost j0 = j;
    let ghost acc0 = schemas_view(schemas@);
    match j {
        Json::Array(v) => {
            let ghost vv = v;
            let ghost orig = v@;
            let mut rest = v;
            let mut out: Vec<Json> = Vec::new();
            let ghost mut i: int = 0;
            proof {
                assert(orig.take(0) =~= Seq::<Json>::empty());
                assert(orig.skip(0) =~= orig);
                assert(views_of(orig.take(0)) =~= Seq::<JsonView>::empty());
                assert(views_of(out@) =~= hoisted_all(views_of(orig.take(0))));
                assert(add_absent(acc0, collected_all(views_of(orig.take(0)))) == acc0);
            }
            while rest.len() > 0
                invariant
                    j0 == Json::Array(vv),
                    orig == vv@,
                    0 <= i <= orig.len(),
                    rest@ == orig.skip(i),
                    sorted_keys(schemas@),
                    views_of(out@) == hoisted_all(views_of(orig.take(i))),
                    schemas_view(schemas@) == add_absent(acc0, collected_all(views_of(orig.take(i)))),
                decreases rest.len(),
            {
                let x = rest.remove(0);
                proof {
                    assert(x == orig[i]);
                    assert(decreases_to!(vv => vv@));
                    assert(decreases_to!(vv@ => vv@[i]));
                    assert(decreases_to!(j0 => j0->Array_0));
                    assert(decreases_to!(j0 => vv@[i]));
                }
                let ghost before_acc = schemas_view(schemas@);
                let y = hoist_schema_defs(x, schemas);
                let ghost before = out@;
                out.push(y);
                proof {
                    assert(orig.take(i + 1) =~= orig.take(i).push(orig[i]));
                    lemma_views_push(orig.take(i), orig[i]);
                    lemma_views_push(before, y);
                    lemma_hoisted_all_push(views_of(orig.take(i)), view_of(orig[i]));
                    lemma_add_absent_concat(
                        acc0,
                        collected_all(views_of(orig.take(i))),
                        collected(view_of(orig[i])),
                    );
                    assert(rest@ =~= orig.skip(i + 1));
                    i = i + 1;
                }
            }
            proof {
                assert(orig.take(i) =~= orig);
            }
            Json::Array(out)
        },
        Json::Object(m) => {
            let ghost mm = m;
            let ghost orig = m@;
            let ghost mv = members_of(orig);
            let kept = split_defs(m, schemas);
            proof {
                lemma_without_defs_same(mv);
            }
            let ghost after_defs = schemas_view(schemas@);
            let ghost korig = kept@;
            let mut rest2 = kept;
            let mut out: Vec<Member> = Vec::new();
            let ghost mut k: int = 0;
            proof {
                assert(korig.take(0) =~= Seq::<Member>::empty());
                assert(korig.skip(0) =~= korig);
                assert(members_of(korig.take(0)) =~= Seq::<MemberView>::empty());
                assert(members_of(out@) =~= hoisted_members(members_of(korig.take(0))));
                assert(add_absent(after_defs, collected_members(members_of(korig.take(0)))) == after_defs);
            }
            while rest2.len() > 0
                invariant
                    j0 == Json::Object(mm),
                    orig == mm@,
                    0 <= k <= korig.len(),
                    rest2@ == korig.skip(k),
                    forall|q: int| 0 <= q < korig.len() ==> exists|o: int| 0 <= o < orig.len() && #[trigger] korig[q] == orig[o],
                    forall|q: int| 0 <= q < korig.len() ==> (#[trigger] korig[q]).key@ != "$defs"@,
                    members_of(korig) == without_defs(mv),
                    sorted_keys(schemas@),
                    members_of(out@) == hoisted_members(members_of(korig.take(k))),
                    schemas_view(schemas@) == add_absent(after_defs, collected_members(members_of(korig.take(k)))),
                decreases rest2.len(),
            {
                let x = rest2.remove(0);
                let ghost xv = MemberView { key: x.key@, value: view_of(x.value) };
                proof {
                    assert(x == korig[k]);
                    let o = choose|o: int| 0 <= o < orig.len() && #[trigger] korig[k] == orig[o];
                    assert(decreases_to!(mm => mm@));
                    assert(decreases_to!(mm@ => mm@[o]));
                    assert(decreases_to!(mm@[o] => mm@[o].value));
                    assert(decreases_to!(j0 => j0->Object_0));
                    assert(decreases_to!(j0 => mm@[o].value));
                    assert(korig.take(k + 1) =~= korig.take(k).push(korig[k]));
                    lemma_members_push(korig.take(k), korig[k]);
                    lemma_members_step(members_of(korig.take(k)), xv);
                    assert(xv.key != "$defs"@);
                }
                let Member { key, value } = x;
                let hv = hoist_schema_defs(value, schemas);
                let ghost before = out@;
                let nm = Member { key, value: hv };
                out.push(nm);
                proof {
                    lemma_members_push(before, nm);
                    lemma_add_absent_concat(
                        after_defs,
                        collected_members(members_of(korig.take(k))),
                        collected(xv.value),
                    );
                    assert(rest2@ =~= korig.skip(k + 1));
                    k = k + 1;
                }
            }
            proof {
                assert(korig.take(k) =~= korig);
                lemma_add_absent_concat(acc0, own_defs(mv), collected_members(mv));
            }
            Json::Object(out)
        },
        other => other,
    }
}

/// No object in the value has a `$defs` member.
pub open spec fn no_defs(j: JsonView) -> bool
    decreases j, 0nat,
{
    match j {
        JsonView::Array(s) => no_defs_all(s),
        JsonView::Object(m) => no_defs_members(m),
        _ => true,
    }
}

/// No object in the values has a `$defs` member.
pub open spec fn no_defs_all(s: Seq<JsonView>) -> bool
    decreases s, 0nat,
{
    if s.len() == 0 {
        true
    } else {
        proof {
            assert(decreases_to!(s => s[s.len() - 1]));
            assert(decreases_to!(s => s.subrange(0, s.len() - 1)));
        }
        no_defs_all(s.subrange(0, s.len() - 1)) && no_defs(s[s.len() - 1])
    }
}

/// No member is `$defs`, and no object in their values has one.
pub open spec fn no_defs_members(m: Seq<MemberView>) -> bool
    decreases m, 0nat,
{
    if m.len() == 0 {
        true
    } else {
        proof {
            assert(decreases_to!(m => m[m.len() - 1]));
            assert(decreases_to!(m => m.subrange(0, m.len() - 1)));
        }
        let last = m[m.len() - 1];
        no_defs_members(m.subrange(0, m.len() - 1)) && last.key != "$defs"@ && no_defs(last.value)
    }
}

/// Once hoisted, no object has a `$defs` member left.
pub proof fn lemma_hoisted_has_no_defs(j: JsonView)
    ensures
        no_defs(hoisted(j)),
    decreases j, 0nat,
{
    match j {
        JsonView::Array(s) => lemma_hoisted_all_has_no_defs(s),
        JsonView::Object(m) => lemma_hoisted_members_have_no_defs(m),
        _ => {},
    }
}

proof fn lemma_hoisted_all_has_no_defs(s: Seq<JsonView>)
    ensures
        no_defs_all(hoisted_all(s)),
    decreases s, 0nat,
{
    if s.len() > 0 {
        assert(decreases_to!(s => s[s.len() - 1]));
        assert(decreases_to!(s => s.subrange(0, s.len() - 1)));
        let front = s.subrange(0, s.len() - 1);
        lemma_hoisted_all_has_no_defs(front);
        lemma_hoisted_has_no_defs(s[s.len() - 1]);
        let r = hoisted_all(s);
        assert(r.subrange(0, r.len() - 1) =~= hoisted_all(front));
    }
}

proof fn lemma_hoisted_members_have_no_defs(m: Seq<MemberView>)
    ensures
        no_defs_members(hoisted_members(m)),
    decreases m, 0nat,
{
    if m.len() > 0 {
        assert(decreases_to!(m => m[m.len() - 1]));
        assert(decreases_to!(m => m.subrange(0, m.len() - 1)));
        assert(decreases_to!(m[m.len() - 1] => m[m.len() - 1].value));
        let front = m.subrange(0, m.len() - 1);
        let last = m[m.len() - 1];
        lemma_hoisted_members_have_no_defs(front);
        if last.key != "$defs"@ {
            lemma_hoisted_has_no_defs(last.value);
            let r = hoisted_members(m);
            assert(r == hoisted_members(front).push(MemberView { key: last.key, value: hoisted(last.value) }));
            assert(r.subrange(0, r.len() - 1) =~= hoisted_members(front));
        }
    }
}

/// Hoisting keeps every schema already gathered, and gathers a schema for
/// every definition name it meets.
pub proof fn lemma_add_absent_keeps_and_gathers(acc: Map<Seq<char>, JsonView>, defs: Seq<MemberView>)
    ensures
        forall|k: Seq<char>| acc.contains_key(k) ==> #[trigger] add_absent(acc, defs).contains_key(k)
            && add_absent(acc, defs)[k] == acc[k],
        forall|i: int| 0 <= i < defs.len() ==> add_absent(acc, defs).contains_key(#[trigger] defs[i].key),
        forall|k: Seq<char>| #[trigger] add_absent(acc, defs).contains_key(k) ==> acc.contains_key(k) || exists|i: int|
            0 <= i < defs.len() && defs[i].key == k,
    decreases defs.len(),
{
    if defs.len() > 0 {
        let front = defs.subrange(0, defs.len() - 1);
        lemma_add_absent_keeps_and_gathers(acc, front);
        assert forall|k: Seq<char>| acc.contains_key(k) implies #[trigger] add_absent(acc, defs).contains_key(k)
            && add_absent(acc, defs)[k] == acc[k] by {
            assert(add_absent(acc, front).contains_key(k));
        }
        assert forall|i: int| 0 <= i < defs.len() implies add_absent(acc, defs).contains_key(#[trigger] defs[i].key) by {
            if i < defs.len() - 1 {
                assert(front[i] == defs[i]);
            }
        }
        assert forall|k: Seq<char>| #[trigger] add_absent(acc, defs).contains_key(k) implies acc.contains_key(k) || exists|i: int|
            0 <= i < defs.len() && defs[i].key == k by {
            if !acc.contains_key(k) && add_absent(acc, front).contains_key(k) {
                let i = choose|i: int| 0 <= i < front.len() && front[i].key == k;
                assert(defs[i] == front[i]);
            }
        }
    }
}

/// A member of a JSON object as a mathematical object.
pub open spec fn mv(key: Seq<char>, value: JsonView) -> MemberView {
    MemberView { key, value }
}

/// The schemas gathered, as members in the order of their names.
pub open spec fn schema_members(acc: Seq<(String, Json)>) -> Seq<MemberView> {
    acc.map_values(|p: (String, Json)| mv(p.0@, view_of(p.1)))
}

/// The OpenAPI document for one path item, before references are
/// rewritten: the components (only where there are schemas), the info, the
/// OpenAPI version, the path and the server.
pub open spec fn doc_of(
    title: Seq<char>,
    path: Seq<char>,
    item: JsonView,
    server_url: Seq<char>,
    schemas: Seq<MemberView>,
) -> JsonView {
    let components = if schemas.len() > 0 {
        seq![mv("components"@, JsonView::Object(seq![mv("schemas"@, JsonView::Object(schemas))]))]
    } else {
        Seq::empty()
    };
    JsonView::Object(
        components + seq![
            mv("info"@, JsonView::Object(seq![mv("title"@, JsonView::Str(title)), mv("version"@, JsonView::Str("1.0.0"@))])),
            mv("openapi"@, JsonView::Str("3.1.0"@)),
            mv("paths"@, JsonView::Object(seq![mv(path, item)])),
            mv("servers"@, JsonView::Array(seq![JsonView::Object(seq![mv("url"@, JsonView::Str(server_url))])])),
        ],
    )
}

/// A JSON string.
pub fn text(s: &str) -> (r: Json)
    ensures
        view_of(r) == JsonView::Str(s@),
{
    Json::Str(s.to_owned())
}

/// Appends the member `key: value`.
pub fn push_member(ms: &mut Vec<Member>, key: &str, value: Json)
    ensures
        members_of(final(ms)@) == members_of(old(ms)@).push(mv(key@, view_of(value))),
{
    let ghost before = ms@;
    let m = Member { key: key.to_owned(), value };
    ms.push(m);
    proof {
        lemma_members_push(before, m);
    }
}

/// An object of one member.
pub fn object1(key: &str, value: Json) -> (r: Json)
    ensures
        view_of(r) == JsonView::Object(seq![mv(key@, view_of(value))]),
{
    let mut ms: Vec<Member> = Vec::new();
    let ghost vv = view_of(value);
    push_member(&mut ms, key, value);
    assert(members_of(Seq::<Member>::empty()) =~= Seq::<MemberView>::empty());
    assert(members_of(ms@) =~= seq![mv(key@, vv)]);
    Json::Object(ms)
}

/// Wraps a single path item into a self-contained OpenAPI 3.1 document whose
/// only server is `server_url`. The JSON Schema definitions the item embeds
/// are hoisted into the document's component schemas and the references to
/// them rewritten, so that the document holds no reference into `#/$defs/`.
pub fn build_openapi_doc(title: &str, path: &str, path_item: Json, server_url: &str) -> (r: Json)
    ensures
        exists|acc: Seq<(String, Json)>|
            {
                &&& sorted_keys(acc)
                &&& schemas_view(acc) == add_absent(Map::empty(), collected(view_of(path_item)))
                &&& view_of(r) == rewritten(
                    doc_of(title@, path@, hoisted(view_of(path_item)), server_url@, schema_members(acc)),
                )
            },
        no_defs_refs(view_of(r)),
{
    let ghost item0 = view_of(path_item);
    let mut schemas: Vec<(String, Json)> = Vec::new();
    proof {
        assert(schemas_view(schemas@) =~= Map::<Seq<char>, JsonView>::empty()) by {
            assert(kv_map(schemas@) =~= Map::<Seq<char>, Json>::empty());
        }
    }
    let item = hoist_schema_defs(path_item, &mut schemas);
    let ghost acc = schemas@;
    let mut doc: Vec<Member> = Vec::new();
    proof {
        assert(members_of(doc@) =~= Seq::<MemberView>::empty());
    }
    let ghost components: Seq<MemberView> = if schemas@.len() > 0 {
        seq![mv("components"@, JsonView::Object(seq![mv("schemas"@, JsonView::Object(schema_members(acc)))]))]
    } else {
        Seq::empty()
    };
    if schemas.len() > 0 {
        let mut ms: Vec<Member> = Vec::new();
        let mut rest = schemas;
        let ghost mut i: int = 0;
        proof {
            assert(acc.skip(0) =~= acc);
            assert(members_of(ms@) =~= schema_members(acc.take(0)));
        }
        while rest.len() > 0
            invariant
                0 <= i <= acc.len(),
                rest@ == acc.skip(i),
                members_of(ms@) == schema_members(acc.take(i)),
            decreases rest.len(),
        {
            let (k, v) = rest.remove(0);
            let ghost before = ms@;
            let m = Member { key: k, value: v };
            ms.push(m);
            proof {
                lemma_members_push(before, m);
                assert(acc.take(i + 1) =~= acc.take(i).push(acc[i]));
                assert(schema_members(acc.take(i + 1)) =~= schema_members(acc.take(i)).push(mv(acc[i].0@, view_of(acc[i].1))));
                assert(rest@ =~= acc.skip(i + 1));
                i = i + 1;
            }
        }
        proof {
            assert(acc.take(i) =~= acc);
        }
        let schemas_obj = object1("schemas", Json::Object(ms));
        push_member(&mut doc, "components", schemas_obj);
        assert(members_of(doc@) =~= components);
    } else {
        assert(members_of(doc@) =~= components);
    }
    let ghost before_info = members_of(doc@);
    let mut info: Vec<Member> = Vec::new();
    proof {
        assert(members_of(info@) =~= Seq::<MemberView>::empty());
    }
    push_member(&mut info, "title", text(title));
    push_member(&mut info, "version", text("1.0.0"));
    assert(members_of(info@) =~= seq![mv("title"@, JsonView::Str(title@)), mv("version"@, JsonView::Str("1.0.0"@))]);
    let info_json = Json::Object(info);
    let ghost info_v = view_of(info_json);
    assert(info_v =~~= JsonView::Object(seq![mv("title"@, JsonView::Str(title@)), mv("version"@, JsonView::Str("1.0.0"@))]));
    push_member(&mut doc, "info", info_json);
    push_member(&mut doc, "openapi", text("3.1.0"));
    let paths = object1(path, item);
    let ghost paths_v = view_of(paths);
    push_member(&mut doc, "paths", paths);
    let mut servers: Vec<Json> = Vec::new();
    let server = object1("url", text(server_url));
    let ghost sv = view_of(server);
    servers.push(server);
    proof {
        lemma_views_push(Seq::<Json>::empty(), server);
        assert(Seq::<Json>::empty().push(server) =~= servers@);
        assert(views_of(Seq::<Json>::empty()) =~= Seq::<JsonView>::empty());
    }
    assert(views_of(servers@) =~= seq![sv]);
    let servers_json = Json::Array(servers);
    let ghost servers_v = view_of(servers_json);
    assert(servers_v =~~= JsonView::Array(seq![JsonView::Object(seq![mv("url"@, JsonView::Str(server_url@))])]));
    push_member(&mut doc, "servers", servers_json);
    let ghost pre = Json::Object(doc);
    proof {
        assert(members_of(doc@) =~= components + seq![
            mv("info"@, info_v),
            mv("openapi"@, JsonView::Str("3.1.0"@)),
            mv("paths"@, paths_v),
            mv("servers"@, servers_v),
        ]);
        assert(view_of(pre) == doc_of(title@, path@, hoisted(item0), server_url@, schema_members(acc)));
    }
    let r = rewrite_defs_refs(Json::Object(doc));
    proof {
        lemma_rewritten_has_no_defs_refs(view_of(pre));
    }
    r
}

/// An object that only describes.
pub open spec fn described(text: Seq<char>) -> JsonView {
    JsonView::Object(seq![mv("description"@, JsonView::Str(text))])
}

/// The path item of a data collection: `GET` with its query parameters,
/// and its answers, the successful one with the response schema and an
/// example holding the collection's current items.
pub open spec fn collection_item(parameters: JsonView, schema: JsonView, items: JsonView) -> JsonView {
    let ok = JsonView::Object(
        seq![
            mv(
                "content"@,
                JsonView::Object(
                    seq![
                        mv(
                            "application/json"@,
                            JsonView::Object(
                                seq![
                                    mv("example"@, JsonView::Object(seq![mv("items"@, items)])),
                                    mv("schema"@, schema),
                                ],
                            ),
                        ),
                    ],
                ),
            ),
            mv("description"@, JsonView::Str("The data resources currently exposed by the entity."@)),
        ],
    );
    let responses = JsonView::Object(
        seq![
            mv("200"@, ok),
            mv("400"@, described("The request query was invalid."@)),
            mv("404"@, described("The entity was not found."@)),
            mv("500"@, described("An internal data provider error occurred."@)),
        ],
    );
    JsonView::Object(
        seq![
            mv(
                "get"@,
                JsonView::Object(
                    seq![
                        mv("parameters"@, parameters),
                        mv("responses"@, responses),
                        mv("summary"@, JsonView::Str("List the data resources of the entity"@)),
                    ],
                ),
            ),
        ],
    )
}

fn described_json(t: &str) -> (r: Json)
    ensures
        view_of(r) == described(t@),
{
    object1("description", text(t))
}

/// The path item of a data collection.
pub fn collection_path_item(parameters: Json, schema: Json, items: Json) -> (r: Json)
    ensures
        view_of(r) == collection_item(view_of(parameters), view_of(schema), view_of(items)),
{
    let ghost pv = view_of(parameters);
    let ghost sv = view_of(schema);
    let ghost iv = view_of(items);
    let example = object1("items", items);
    let ghost ev = view_of(example);
    let mut media: Vec<Member> = Vec::new();
    proof {
        assert(members_of(media@) =~= Seq::<MemberView>::empty());
    }
    push_member(&mut media, "example", example);
    push_member(&mut media, "schema", schema);
    assert(members_of(media@) =~= seq![mv("example"@, ev), mv("schema"@, sv)]);
    let content = object1("application/json", Json::Object(media));
    let ghost cv = view_of(content);
    let mut ok: Vec<Member> = Vec::new();
    proof {
        assert(members_of(ok@) =~= Seq::<MemberView>::empty());
    }
    push_member(&mut ok, "content", content);
    push_member(&mut ok, "description", text("The data resources currently exposed by the entity."));
    assert(members_of(ok@) =~= seq![mv("content"@, cv), mv("description"@, JsonView::Str("The data resources currently exposed by the entity."@))]);
    let ok_json = Json::Object(ok);
    let ghost okv = view_of(ok_json);
    let mut responses: Vec<Member> = Vec::new();
    proof {
        assert(members_of(responses@) =~= Seq::<MemberView>::empty());
    }
    push_member(&mut responses, "200", ok_json);
    push_member(&mut responses, "400", described_json("The request query was invalid."));
    push_member(&mut responses, "404", described_json("The entity was not found."));
    push_member(&mut responses, "500", described_json("An internal data provider error occurred."));
    assert(members_of(responses@) =~= seq![
        mv("200"@, okv),
        mv("400"@, described("The request query was invalid."@)),
        mv("404"@, described("The entity was not found."@)),
        mv("500"@, described("An internal data provider error occurred."@)),
    ]);
    let responses_json = Json::Object(responses);
    let ghost rv = view_of(responses_json);
    let mut get: Vec<Member> = Vec::new();
    proof {
        assert(members_of(get@) =~= Seq::<MemberView>::empty());
    }
    push_member(&mut get, "parameters", parameters);
    push_member(&mut get, "responses", responses_json);
    push_member(&mut get, "summary", text("List the data resources of the entity"));
    assert(members_of(get@) =~= seq![
        mv("parameters"@, pv),
        mv("responses"@, rv),
        mv("summary"@, JsonView::Str("List the data resources of the entity"@)),
    ]);
    object1("get", Json::Object(get))
}

/// The online capability description of a data collection: its `GET`,
/// with the given query parameters and response schema, and an example
/// holding the collection's current items.
pub fn data_collection_docs(
    collection_path: &str,
    items: Json,
    server_url: &str,
    parameters: Json,
    list_schema: Json,
) -> (r: Json)
    ensures
        exists|acc: Seq<(String, Json)>|
            {
                let item = collection_item(view_of(parameters), view_of(list_schema), view_of(items));
                &&& #[trigger] sorted_keys(acc)
                &&& schemas_view(acc) == add_absent(Map::empty(), collected(item))
                &&& view_of(r) == rewritten(
                    doc_of(
                        "Data collection "@ + collection_path@,
                        collection_path@,
                        hoisted(item),
                        server_url@,
                        schema_members(acc),
                    ),
                )
            },
        no_defs_refs(view_of(r)),
{
    let title = concat2("Data collection ", collection_path);
    let item = collection_path_item(parameters, list_schema, items);
    build_openapi_doc(title.as_str(), collection_path, item, server_url)
}

/// The position of the first member named `k`, or the length.
pub open spec fn member_index(m: Seq<MemberView>, k: Seq<char>) -> int
    decreases m.len(),
{
    if m.len() == 0 {
        0
    } else if m[0].key == k {
        0
    } else {
        1 + member_index(m.drop_first(), k)
    }
}

/// The members with `k` set to `v`: the first member named `k` takes the
/// value, or a new member is added last.
pub open spec fn set_member(m: Seq<MemberView>, k: Seq<char>, v: JsonView) -> Seq<MemberView> {
    let i = member_index(m, k);
    if i < m.len() {
        m.update(i, mv(k, v))
    } else {
        m.push(mv(k, v))
    }
}

/// A schema with the property `name` described by `value`: where the
/// schema is an object whose `properties` member is an object, that object
/// gets the property; any other schema is left as it is.
pub open spec fn with_property_of(schema: JsonView, name: Seq<char>, value: JsonView) -> JsonView {
    match schema {
        JsonView::Object(m) => {
            let i = member_index(m, "properties"@);
            if i < m.len() && m[i].value is Object {
                JsonView::Object(
                    m.update(i, mv("properties"@, JsonView::Object(set_member(m[i].value->Object_0, name, value)))),
                )
            } else {
                schema
            }
        },
        _ => schema,
    }
}

proof fn lemma_member_index(m: Seq<MemberView>, k: Seq<char>)
    ensures
        0 <= member_index(m, k) <= m.len(),
        member_index(m, k) < m.len() ==> m[member_index(m, k)].key == k,
        forall|j: int| 0 <= j < member_index(m, k) ==> m[j].key != k,
    decreases m.len(),
{
    if m.len() > 0 && m[0].key != k {
        lemma_member_index(m.drop_first(), k);
        assert forall|j: int| 0 <= j < member_index(m, k) implies m[j].key != k by {
            if j > 0 {
                assert(m[j] == m.drop_first()[j - 1]);
            }
        }
    }
}

pub(crate) fn find_member(m: &Vec<Member>, k: &str) -> (r: usize)
    ensures
        r == member_index(members_of(m@), k@),
        r <= m@.len(),
        members_of(m@).len() == m@.len(),
        r < m@.len() ==> members_of(m@)[r as int].value == view_of(m@[r as int].value),
{
    let ghost mv_ = members_of(m@);
    proof {
        lemma_members_len(m@);
    }
    let mut i: usize = 0;
    proof {
        assert(mv_.skip(0) =~= mv_);
    }
    while i < m.len()
        invariant
            i <= m@.len(),
            mv_ == members_of(m@),
            mv_.len() == m@.len(),
            member_index(mv_, k@) == i + member_index(mv_.skip(i as int), k@),
        decreases m@.len() - i,
    {
        proof {
            lemma_members_at(m@, i as int);
        }
        if crate::keyed::compare_keys(m[i].key.as_str(), k) == 0 {
            assert(mv_.skip(i as int)[0].key == k@);
            return i;
        }
        assert(mv_.skip(i as int).drop_first() =~= mv_.skip(i + 1));
        i = i + 1;
    }
    i
}

proof fn lemma_members_len(m: Seq<Member>)
    ensures
        members_of(m).len() == m.len(),
    decreases m.len(),
{
    if m.len() > 0 {
        lemma_members_len(m.subrange(0, m.len() - 1));
    }
}

proof fn lemma_members_at(m: Seq<Member>, i: int)
    requires
        0 <= i < m.len(),
    ensures
        members_of(m)[i] == mv(m[i].key@, view_of(m[i].value)),
    decreases m.len(),
{
    lemma_members_len(m);
    if i < m.len() - 1 {
        let front = m.subrange(0, m.len() - 1);
        lemma_members_at(front, i);
        lemma_members_len(front);
    }
}

proof fn lemma_members_update(m: Seq<Member>, i: int, x: Member)
    requires
        0 <= i < m.len(),
    ensures
        members_of(m.update(i, x)) == members_of(m).update(i, mv(x.key@, view_of(x.value))),
    decreases m.len(),
{
    lemma_members_len(m);
    lemma_members_len(m.update(i, x));
    if i < m.len() - 1 {
        let front = m.subrange(0, m.len() - 1);
        lemma_members_update(front, i, x);
        assert(m.update(i, x).subrange(0, m.len() - 1) =~= front.update(i, x));
        assert(members_of(m.update(i, x)) =~= members_of(m).update(i, mv(x.key@, view_of(x.value))));
    } else {
        assert(m.update(i, x).subrange(0, m.len() - 1) =~= m.subrange(0, m.len() - 1));
        assert(members_of(m.update(i, x)) =~= members_of(m).update(i, mv(x.key@, view_of(x.value))));
    }
}

/// Sets the member `k` of an object's members to `value`.
fn set_member_exec(m: Vec<Member>, k: &str, value: Json) -> (r: Vec<Member>)
    ensures
        members_of(r@) == set_member(members_of(m@), k@, view_of(value)),
{
    let mut m = m;
    let i = find_member(&m, k);
    let ghost before = m@;
    let nm = Member { key: k.to_owned(), value };
    if i < m.len() {
        let _ = m.remove(i);
        m.insert(i, nm);
        proof {
            assert(m@ =~= before.update(i as int, nm));
            lemma_members_update(before, i as int, nm);
        }
    } else {
        m.push(nm);
        proof {
            lemma_members_push(before, nm);
        }
    }
    m
}

/// Adds the property `name` described by `value` to a schema whose
/// `properties` member is an object.
pub fn with_property(schema: Json, name: &str, value: Json) -> (r: Json)
    ensures
        view_of(r) == with_property_of(view_of(schema), name@, view_of(value)),
{
    let ghost sv0 = view_of(schema);
    let ghost vv0 = view_of(value);
    match schema {
        Json::Object(m) => {
            let ghost before = m@;
            let i = find_member(&m, "properties");
            if i < m.len() {
                proof {
                    lemma_members_at(before, i as int);
                    lemma_member_index(members_of(before), "properties"@);
                }
                let mut m = m;
                let Member { key, value: pv } = m.remove(i);
                match pv {
                    Json::Object(props) => {
                        let np = set_member_exec(props, name, value);
                        let nm = Member { key, value: Json::Object(np) };
                        m.insert(i, nm);
                        proof {
                            assert(m@ =~= before.update(i as int, nm));
                            lemma_members_update(before, i as int, nm);
                            assert(key@ == "properties"@);
                            assert(members_of(before)[i as int].value == JsonView::Object(members_of(props@)));
                            assert(view_of(Json::Object(m)) == with_property_of(sv0, name@, vv0));
                        }
                        Json::Object(m)
                    },
                    other => {
                        let nm = Member { key, value: other };
                        m.insert(i, nm);
                        proof {
                            assert(m@ =~= before);
                        }
                        Json::Object(m)
                    },
                }
            } else {
                Json::Object(m)
            }
        },
        other => other,
    }
}

/// A query parameter given by repeating its key (`style: form`,
/// `explode: true`), each value a string.
pub open spec fn repeated_parameter_view(name: Seq<char>, description: Seq<char>) -> JsonView {
    JsonView::Object(
        seq![
            mv("name"@, JsonView::Str(name)),
            mv("in"@, JsonView::Str("query"@)),
            mv("required"@, JsonView::Bool(false)),
            mv("description"@, JsonView::Str(description)),
            mv("style"@, JsonView::Str("form"@)),
            mv("explode"@, JsonView::Bool(true)),
            mv(
                "schema"@,
                JsonView::Object(
                    seq![
                        mv("type"@, JsonView::Str("array"@)),
                        mv("items"@, JsonView::Object(seq![mv("type"@, JsonView::Str("string"@))])),
                    ],
                ),
            ),
        ],
    )
}

/// The document of a query parameter given by repeating its key.
pub fn repeated_parameter(name: &str, description: &str) -> (r: Json)
    ensures
        view_of(r) == repeated_parameter_view(name@, description@),
{
    proof {
        assert(members_of(Seq::<Member>::empty()) =~= Seq::<MemberView>::empty());
    }
    let mut items: Vec<Member> = Vec::new();
    push_member(&mut items, "type", text("string"));
    let ghost iv = members_of(items@);
    assert(iv =~= seq![mv("type"@, JsonView::Str("string"@))]);
    let items = Json::Object(items);
    assert(view_of(items) == JsonView::Object(iv));
    let mut schema: Vec<Member> = Vec::new();
    push_member(&mut schema, "type", text("array"));
    push_member(&mut schema, "items", items);
    let ghost sv = members_of(schema@);
    assert(sv =~= seq![mv("type"@, JsonView::Str("array"@)), mv("items"@, JsonView::Object(iv))]);
    let schema = Json::Object(schema);
    assert(view_of(schema) == JsonView::Object(sv));
    let no = Json::Bool(false);
    assert(view_of(no) == JsonView::Bool(false));
    let yes = Json::Bool(true);
    assert(view_of(yes) == JsonView::Bool(true));
    let mut ms: Vec<Member> = Vec::new();
    push_member(&mut ms, "name", text(name));
    push_member(&mut ms, "in", text("query"));
    push_member(&mut ms, "required", no);
    push_member(&mut ms, "description", text(description));
    push_member(&mut ms, "style", text("form"));
    push_member(&mut ms, "explode", yes);
    push_member(&mut ms, "schema", schema);
    let ghost mvs = members_of(ms@);
    let r = Json::Object(ms);
    assert(view_of(r) == JsonView::Object(mvs));
    assert(mvs =~= seq![
        mv("name"@, JsonView::Str(name@)),
        mv("in"@, JsonView::Str("query"@)),
        mv("required"@, JsonView::Bool(false)),
        mv("description"@, JsonView::Str(description@)),
        mv("style"@, JsonView::Str("form"@)),
        mv("explode"@, JsonView::Bool(true)),
        mv("schema"@, JsonView::Object(sv)),
    ]);
    r
}

/// The filters of a data list, by repeated keys: `groups`, `categories`
/// and `tags`, in this order.
pub open spec fn filter_parameters_view() -> Seq<JsonView> {
    seq![
        repeated_parameter_view(
            "groups"@,
            "Filter by data group. Repeat the parameter to select multiple groups."@,
        ),
        repeated_parameter_view(
            "categories"@,
            "Filter by data category. Repeat the parameter to select multiple categories."@,
        ),
        repeated_parameter_view(
            "tags"@,
            "Filter by tag. Repeat the parameter to select multiple tags."@,
        ),
    ]
}

/// The documents of the filters of a data list, see
/// [`filter_parameters_view`].
pub fn filter_query_parameters() -> (r: Vec<Json>)
    ensures
        views_of(r@) == filter_parameters_view(),
{
    let mut v: Vec<Json> = Vec::new();
    let ghost e = v@;
    assert(views_of(e) =~= Seq::<JsonView>::empty());
    let g = repeated_parameter(
        "groups",
        "Filter by data group. Repeat the parameter to select multiple groups.",
    );
    let ghost s0 = v@;
    v.push(g);
    proof {
        lemma_views_push(s0, g);
    }
    let c = repeated_parameter(
        "categories",
        "Filter by data category. Repeat the parameter to select multiple categories.",
    );
    let ghost s1 = v@;
    v.push(c);
    proof {
        lemma_views_push(s1, c);
    }
    let t = repeated_parameter("tags", "Filter by tag. Repeat the parameter to select multiple tags.");
    let ghost s2 = v@;
    v.push(t);
    proof {
        lemma_views_push(s2, t);
    }
    assert(views_of(v@) =~= filter_parameters_view());
    v
}

/// The document of a boolean query parameter that is off unless given.
pub open spec fn switch_parameter_view(name: Seq<char>, description: Seq<char>) -> JsonView {
    JsonView::Object(
        seq![
            mv("name"@, JsonView::Str(name)),
            mv("in"@, JsonView::Str("query"@)),
            mv("required"@, JsonView::Bool(false)),
            mv("description"@, JsonView::Str(description)),
            mv(
                "schema"@,
                JsonView::Object(
                    seq![mv("type"@, JsonView::Str("boolean"@)), mv("default"@, JsonView::Bool(false))],
                ),
            ),
        ],
    )
}

/// The document of a boolean query parameter that is off unless given, see
/// [`switch_parameter_view`].
pub fn switch_parameter(name: &str, description: &str) -> (r: Json)
    ensures
        view_of(r) == switch_parameter_view(name@, description@),
{
    proof {
        assert(members_of(Seq::<Member>::empty()) =~= Seq::<MemberView>::empty());
    }
    let no = Json::Bool(false);
    assert(view_of(no) == JsonView::Bool(false));
    let mut schema: Vec<Member> = Vec::new();
    push_member(&mut schema, "type", text("boolean"));
    push_member(&mut schema, "default", no);
    let ghost sv = members_of(schema@);
    assert(sv =~= seq![mv("type"@, JsonView::Str("boolean"@)), mv("default"@, JsonView::Bool(false))]);
    let schema = Json::Object(schema);
    assert(view_of(schema) == JsonView::Object(sv));
    let no = Json::Bool(false);
    assert(view_of(no) == JsonView::Bool(false));
    let mut ms: Vec<Member> = Vec::new();
    push_member(&mut ms, "name", text(name));
    push_member(&mut ms, "in", text("query"));
    push_member(&mut ms, "required", no);
    push_member(&mut ms, "description", text(description));
    push_member(&mut ms, "schema", schema);
    let ghost mvs = members_of(ms@);
    let r = Json::Object(ms);
    assert(view_of(r) == JsonView::Object(mvs));
    assert(mvs =~= seq![
        mv("name"@, JsonView::Str(name@)),
        mv("in"@, JsonView::Str("query"@)),
        mv("required"@, JsonView::Bool(false)),
        mv("description"@, JsonView::Str(description@)),
        mv("schema"@, JsonView::Object(sv)),
    ]);
    r
}

/// The query parameters of a data list: the filters of
/// [`filter_query_parameters`], then the switch `switch_name` that adds the
/// response schema.
pub fn list_query_parameters(switch_name: &str, switch_description: &str) -> (r: Vec<Json>)
    ensures
        views_of(r@) == filter_parameters_view().push(switch_parameter_view(switch_name@, switch_description@)),
{
    let mut v = filter_query_parameters();
    let p = switch_parameter(switch_name, switch_description);
    let ghost s0 = v@;
    v.push(p);
    proof {
        lemma_views_push(s0, p);
    }
    v
}

} // verus!

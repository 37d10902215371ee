//! Vectors of `(key, value)` pairs kept in ascending key order without
//! duplicates, viewed as maps. Keys are ordered as `String` orders them: by
//! code point, character by character.

use vstd::prelude::*;

use crate::text::{char_code, chars_of};

verus! {

/// `a` sorts strictly before `b`.
pub open spec fn seq_lt(a: Seq<char>, b: Seq<char>) -> bool
    decreases a.len(),
{
    if a.len() == 0 {
        b.len() > 0
    } else if b.len() == 0 {
        false
    } else if (a[0] as int) < (b[0] as int) {
        true
    } else if a[0] == b[0] {
        seq_lt(a.drop_first(), b.drop_first())
    } else {
        false
    }
}

/// The order is irreflexive.
pub proof fn lemma_lt_irreflexive(a: Seq<char>)
    ensures
        !seq_lt(a, a),
    decreases a.len(),
{
    if a.len() > 0 {
        lemma_lt_irreflexive(a.drop_first());
    }
}

/// The order is transitive.
pub proof fn lemma_lt_transitive(a: Seq<char>, b: Seq<char>, c: Seq<char>)
    requires
        seq_lt(a, b),
        seq_lt(b, c),
    ensures
        seq_lt(a, c),
    decreases a.len(),
{
    if a.len() > 0 && b.len() > 0 && c.len() > 0 && a[0] == b[0] && b[0] == c[0] {
        lemma_lt_transitive(a.drop_first(), b.drop_first(), c.drop_first());
    }
}

/// Any two keys are equal or ordered one way.
pub proof fn lemma_lt_total(a: Seq<char>, b: Seq<char>)
    ensures
        a == b || seq_lt(a, b) || seq_lt(b, a),
    decreases a.len(),
{
    if a.len() > 0 && b.len() > 0 {
        if a[0] == b[0] {
            lemma_lt_total(a.drop_first(), b.drop_first());
            if a.drop_first() == b.drop_first() {
                assert(a =~= seq![a[0]] + a.drop_first());
                assert(b =~= seq![b[0]] + b.drop_first());
            }
        } else {
            assert((a[0] as int) != (b[0] as int));
        }
    } else if a.len() == 0 && b.len() == 0 {
        assert(a =~= b);
    }
}

/// -1, 0 or 1 as `a` sorts before, equal to or after `b`.
pub fn compare_keys(a: &str, b: &str) -> (r: i8)
    ensures
        r == 0 <==> a@ == b@,
        r < 0 <==> seq_lt(a@, b@),
        r > 0 <==> seq_lt(b@, a@),
{
    let x = chars_of(a);
    let y = chars_of(b);
    let mut i: usize = 0;
    proof {
        assert(x@.skip(0) =~= x@);
        assert(y@.skip(0) =~= y@);
    }
    while i < x.len() && i < y.len() && x[i] == y[i]
        invariant
            0 <= i <= x.len(),
            i <= y.len(),
            x@ == a@,
            y@ == b@,
            x@.take(i as int) == y@.take(i as int),
            seq_lt(a@, b@) == seq_lt(x@.skip(i as int), y@.skip(i as int)),
            seq_lt(b@, a@) == seq_lt(y@.skip(i as int), x@.skip(i as int)),
        decreases x.len() - i,
    {
        assert(x@.skip(i as int).drop_first() =~= x@.skip(i + 1));
        assert(y@.skip(i as int).drop_first() =~= y@.skip(i + 1));
        assert(x@.take(i + 1) =~= x@.take(i as int).push(x@[i as int]));
        assert(y@.take(i + 1) =~= y@.take(i as int).push(y@[i as int]));
        i = i + 1;
    }
    proof {
        lemma_lt_irreflexive(a@);
        lemma_lt_total(a@, b@);
        if seq_lt(a@, b@) {
            if seq_lt(b@, a@) {
                lemma_lt_transitive(a@, b@, a@);
            }
        }
    }
    if i == x.len() && i == y.len() {
        assert(x@ =~= x@.take(i as int));
        assert(y@ =~= y@.take(i as int));
        0
    } else if i == x.len() {
        -1
    } else if i == y.len() {
        1
    } else if char_code(x[i]) < char_code(y[i]) {
        proof {
            if a@ == b@ {
                assert(x@[i as int] == y@[i as int]);
            }
        }
        -1
    } else {
        proof {
            if a@ == b@ {
                assert(x@[i as int] == y@[i as int]);
            }
        }
        1
    }
}

/// The keys of a keyed vector.
pub open spec fn keys_of<V>(s: Seq<(String, V)>) -> Seq<Seq<char>> {
    s.map_values(|p: (String, V)| p.0@)
}

/// Keys ascend strictly.
pub open spec fn sorted_keys<V>(s: Seq<(String, V)>) -> bool {
    forall|i: int, j: int| 0 <= i < j < s.len() ==> seq_lt(#[trigger] s[i].0@, #[trigger] s[j].0@)
}

/// `k` is a key of `s`.
pub open spec fn has_key<V>(s: Seq<(String, V)>, k: Seq<char>) -> bool {
    exists|i: int| 0 <= i < s.len() && #[trigger] s[i].0@ == k
}

/// An index at which `k` stands, where it stands anywhere.
pub open spec fn key_index<V>(s: Seq<(String, V)>, k: Seq<char>) -> int {
    choose|i: int| 0 <= i < s.len() && #[trigger] s[i].0@ == k
}

/// The map a keyed vector stands for.
pub open spec fn kv_map<V>(s: Seq<(String, V)>) -> Map<Seq<char>, V> {
    Map::new(|k: Seq<char>| has_key(s, k), |k: Seq<char>| s[key_index(s, k)].1)
}

/// In a sorted keyed vector each key stands at one index only.
pub proof fn lemma_sorted_unique<V>(s: Seq<(String, V)>, i: int, j: int)
    requires
        sorted_keys(s),
        0 <= i < s.len(),
        0 <= j < s.len(),
        s[i].0@ == s[j].0@,
    ensures
        i == j,
{
    if i < j {
        lemma_lt_irreflexive(s[i].0@);
    } else if j < i {
        lemma_lt_irreflexive(s[i].0@);
    }
}

/// The value of a key is the value at its index.
pub proof fn lemma_kv_map_at<V>(s: Seq<(String, V)>, i: int)
    requires
        sorted_keys(s),
        0 <= i < s.len(),
    ensures
        kv_map(s).contains_key(s[i].0@),
        kv_map(s)[s[i].0@] == s[i].1,
{
    let k = s[i].0@;
    assert(has_key(s, k));
    let j = key_index(s, k);
    lemma_sorted_unique(s, i, j);
}

/// Where a key stands, or where it would be inserted.
pub fn kv_find<V>(v: &Vec<(String, V)>, k: &str) -> (r: Result<usize, usize>)
    requires
        sorted_keys(v@),
    ensures
        r matches Ok(i) ==> i < v@.len() && v@[i as int].0@ == k@,
        r matches Err(p) ==> p <= v@.len() && !has_key(v@, k@) && (forall|j: int|
            0 <= j < p ==> seq_lt(#[trigger] v@[j].0@, k@)) && (forall|j: int|
            p <= j < v@.len() ==> seq_lt(k@, #[trigger] v@[j].0@)),
{
    let mut i: usize = 0;
    while i < v.len()
        invariant
            0 <= i <= v.len(),
            sorted_keys(v@),
            forall|j: int| 0 <= j < i ==> seq_lt(#[trigger] v@[j].0@, k@),
        decreases v.len() - i,
    {
        let c = compare_keys(v[i].0.as_str(), k);
        if c == 0 {
            return Ok(i);
        } else if c > 0 {
            assert forall|j: int| i <= j < v@.len() implies seq_lt(k@, #[trigger] v@[j].0@) by {
                if j > i {
                    lemma_lt_transitive(k@, v@[i as int].0@, v@[j].0@);
                }
            }
            assert(!has_key(v@, k@)) by {
                if has_key(v@, k@) {
                    let j = choose|j: int| 0 <= j < v@.len() && #[trigger] v@[j].0@ == k@;
                    lemma_lt_irreflexive(k@);
                }
            }
            return Err(i);
        }
        i = i + 1;
    }
    assert(!has_key(v@, k@)) by {
        if has_key(v@, k@) {
            let j = choose|j: int| 0 <= j < v@.len() && #[trigger] v@[j].0@ == k@;
            lemma_lt_irreflexive(k@);
        }
    }
    Err(i)
}

/// Inserts a new key at its place.
pub fn kv_insert_at<V>(v: &mut Vec<(String, V)>, p: usize, k: String, val: V)
    requires
        sorted_keys(old(v)@),
        p <= old(v)@.len(),
        forall|j: int| 0 <= j < p ==> seq_lt(#[trigger] old(v)@[j].0@, k@),
        forall|j: int| p <= j < old(v)@.len() ==> seq_lt(k@, #[trigger] old(v)@[j].0@),
    ensures
        final(v)@ == old(v)@.insert(p as int, (k, val)),
        sorted_keys(final(v)@),
        kv_map(final(v)@) == kv_map(old(v)@).insert(k@, val),
        keys_of(final(v)@) == keys_of(old(v)@).insert(p as int, k@),
{
    let ghost s = v@;
    let ghost kk = k@;
    v.insert(p, (k, val));
    let ghost t = v@;
    assert(sorted_keys(t)) by {
        assert forall|i: int, j: int| 0 <= i < j < t.len() implies seq_lt(
            #[trigger] t[i].0@,
            #[trigger] t[j].0@,
        ) by {
            if i < p && j == p {
            } else if i < p && j > p {
                assert(t[j] == s[j - 1]);
            } else if i == p {
                assert(t[j] == s[j - 1]);
            } else if i > p {
                assert(t[i] == s[i - 1]);
                assert(t[j] == s[j - 1]);
            } else {
                assert(t[i] == s[i]);
                assert(t[j] == s[j]);
            }
        }
    }
    assert(kv_map(t) =~= kv_map(s).insert(kk, val)) by {
        assert forall|key: Seq<char>| #[trigger] has_key(t, key) == (key == kk || has_key(s, key)) by {
            if has_key(t, key) {
                let i = choose|i: int| 0 <= i < t.len() && #[trigger] t[i].0@ == key;
                if i < p {
                    assert(s[i].0@ == key);
                } else if i > p {
                    assert(s[i - 1].0@ == key);
                }
            }
            if has_key(s, key) {
                let i = choose|i: int| 0 <= i < s.len() && #[trigger] s[i].0@ == key;
                if i < p {
                    assert(t[i].0@ == key);
                } else {
                    assert(t[i + 1].0@ == key);
                }
            }
            if key == kk {
                assert(t[p as int].0@ == key);
            }
        }
        assert forall|key: Seq<char>| #[trigger] kv_map(t).contains_key(key) implies kv_map(t)[key]
            == kv_map(s).insert(kk, val)[key] by {
            let i = key_index(t, key);
            lemma_kv_map_at(t, i);
            assert(t[p as int].0@ == kk);
            if i < p {
                assert(t[i] == s[i]);
                lemma_kv_map_at(s, i);
                if key == kk {
                    lemma_sorted_unique(t, i, p as int);
                }
            } else if i > p {
                assert(t[i] == s[i - 1]);
                lemma_kv_map_at(s, i - 1);
                if key == kk {
                    lemma_sorted_unique(t, i, p as int);
                }
            }
        }
    }
    assert(keys_of(t) =~= keys_of(s).insert(p as int, kk));
}

/// Replaces the value at index `i` and hands back the value it held.
pub fn kv_set<V>(v: &mut Vec<(String, V)>, i: usize, val: V) -> (prev: V)
    requires
        sorted_keys(old(v)@),
        i < old(v)@.len(),
    ensures
        prev == old(v)@[i as int].1,
        final(v)@ == old(v)@.update(i as int, (old(v)@[i as int].0, val)),
        sorted_keys(final(v)@),
        kv_map(final(v)@) == kv_map(old(v)@).insert(old(v)@[i as int].0@, val),
        keys_of(final(v)@) == keys_of(old(v)@),
{
    let ghost s = v@;
    let (k, prev) = v.remove(i);
    v.insert(i, (k, val));
    let ghost t = v@;
    let ghost kk = s[i as int].0@;
    assert(t =~= s.update(i as int, (s[i as int].0, val)));
    assert(sorted_keys(t)) by {
        assert forall|a: int, b: int| 0 <= a < b < t.len() implies seq_lt(
            #[trigger] t[a].0@,
            #[trigger] t[b].0@,
        ) by {
            assert(t[a].0@ == s[a].0@);
            assert(t[b].0@ == s[b].0@);
        }
    }
    assert(kv_map(t) =~= kv_map(s).insert(kk, val)) by {
        assert forall|key: Seq<char>| #[trigger] has_key(t, key) == has_key(s, key) by {
            if has_key(t, key) {
                let a = choose|a: int| 0 <= a < t.len() && #[trigger] t[a].0@ == key;
                assert(s[a].0@ == key);
            }
            if has_key(s, key) {
                let a = choose|a: int| 0 <= a < s.len() && #[trigger] s[a].0@ == key;
                assert(t[a].0@ == key);
            }
        }
        lemma_kv_map_at(s, i as int);
        assert forall|key: Seq<char>| #[trigger] kv_map(t).contains_key(key) implies kv_map(t)[key]
            == kv_map(s).insert(kk, val)[key] by {
            let a = key_index(t, key);
            lemma_kv_map_at(t, a);
            lemma_kv_map_at(s, a);
            if a != i {
                assert(t[a] == s[a]);
                if key == kk {
                    lemma_sorted_unique(s, a, i as int);
                }
            }
        }
    }
    assert(keys_of(t) =~= keys_of(s));
    prev
}

/// Appending a pair whose key sorts after every key adds that key.
pub proof fn lemma_kv_map_push<V>(s: Seq<(String, V)>, x: (String, V))
    requires
        sorted_keys(s),
        forall|j: int| 0 <= j < s.len() ==> seq_lt(#[trigger] s[j].0@, x.0@),
    ensures
        sorted_keys(s.push(x)),
        kv_map(s.push(x)) == kv_map(s).insert(x.0@, x.1),
{
    let t = s.push(x);
    let n = s.len() as int;
    assert(sorted_keys(t)) by {
        assert forall|a: int, b: int| 0 <= a < b < t.len() implies seq_lt(
            #[trigger] t[a].0@,
            #[trigger] t[b].0@,
        ) by {
            assert(t[a] == s[a]);
            if b < n {
                assert(t[b] == s[b]);
            }
        }
    }
    assert forall|key: Seq<char>| #[trigger] has_key(t, key) == (key == x.0@ || has_key(s, key)) by {
        if has_key(t, key) {
            let a = choose|a: int| 0 <= a < t.len() && #[trigger] t[a].0@ == key;
            if a < n {
                assert(s[a].0@ == key);
            }
        }
        if has_key(s, key) {
            let a = choose|a: int| 0 <= a < s.len() && #[trigger] s[a].0@ == key;
            assert(t[a].0@ == key);
        }
        if key == x.0@ {
            assert(t[n].0@ == key);
        }
    }
    assert forall|key: Seq<char>| #[trigger] kv_map(t).contains_key(key) implies kv_map(t)[key]
        == kv_map(s).insert(x.0@, x.1)[key] by {
        let a = key_index(t, key);
        lemma_kv_map_at(t, a);
        assert(t[n].0@ == x.0@);
        if a < n {
            assert(t[a] == s[a]);
            lemma_kv_map_at(s, a);
            if key == x.0@ {
                lemma_sorted_unique(t, a, n);
            }
        }
    }
    assert(kv_map(t) =~= kv_map(s).insert(x.0@, x.1));
}

/// Removes the pair at index `i`.
pub fn kv_remove<V>(v: &mut Vec<(String, V)>, i: usize) -> (r: (String, V))
    requires
        sorted_keys(old(v)@),
        i < old(v)@.len(),
    ensures
        r == old(v)@[i as int],
        final(v)@ == old(v)@.remove(i as int),
        sorted_keys(final(v)@),
        kv_map(final(v)@) == kv_map(old(v)@).remove(old(v)@[i as int].0@),
        keys_of(final(v)@) == keys_of(old(v)@).remove(i as int),
{
    let ghost s = v@;
    let r = v.remove(i);
    let ghost t = v@;
    let ghost kk = s[i as int].0@;
    assert(sorted_keys(t)) by {
        assert forall|a: int, b: int| 0 <= a < b < t.len() implies seq_lt(
            #[trigger] t[a].0@,
            #[trigger] t[b].0@,
        ) by {
            if a < i {
                assert(t[a] == s[a]);
            } else {
                assert(t[a] == s[a + 1]);
            }
            if b < i {
                assert(t[b] == s[b]);
            } else {
                assert(t[b] == s[b + 1]);
            }
        }
    }
    assert(kv_map(t) =~= kv_map(s).remove(kk)) by {
        assert forall|key: Seq<char>| #[trigger] has_key(t, key) == (key != kk && has_key(s, key)) by {
            if has_key(t, key) {
                let a = choose|a: int| 0 <= a < t.len() && #[trigger] t[a].0@ == key;
                if a < i {
                    assert(s[a].0@ == key);
                    if key == kk {
                        lemma_sorted_unique(s, a, i as int);
                    }
                } else {
                    assert(s[a + 1].0@ == key);
                    if key == kk {
                        lemma_sorted_unique(s, a + 1, i as int);
                    }
                }
            }
            if key != kk && has_key(s, key) {
                let a = choose|a: int| 0 <= a < s.len() && #[trigger] s[a].0@ == key;
                if a < i {
                    assert(t[a].0@ == key);
                } else if a > i {
                    assert(t[a - 1].0@ == key);
                }
            }
        }
        assert forall|key: Seq<char>| #[trigger] kv_map(t).contains_key(key) implies kv_map(t)[key]
            == kv_map(s).remove(kk)[key] by {
            let a = key_index(t, key);
            lemma_kv_map_at(t, a);
            if a < i {
                assert(t[a] == s[a]);
                lemma_kv_map_at(s, a);
            } else {
                assert(t[a] == s[a + 1]);
                lemma_kv_map_at(s, a + 1);
            }
        }
    }
    assert(keys_of(t) =~= keys_of(s).remove(i as int));
    r
}

} // verus!

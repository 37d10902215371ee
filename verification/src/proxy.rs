//! A SOVD server's view of the diagnostic API of an app that registered
//! itself: where the app's data is, and how the app's JSON answers read as
//! SOVD data resources.

use vstd::prelude::*;

use crate::docs::{member_index, members_of, view_of, Json, JsonView, Member};
use crate::keyed::compare_keys;
use crate::text::{concat2, push_decimal, push_str, decimal};

verus! {

/// The member `key` of a JSON object, where it is one and has the member.
pub open spec fn member_of(j: JsonView, key: Seq<char>) -> Option<JsonView> {
    match j {
        JsonView::Object(m) => if member_index(m, key) < m.len() {
            Some(m[member_index(m, key)].value)
        } else {
            None
        },
        _ => None,
    }
}

/// The text of a JSON string member.
pub open spec fn str_member(j: JsonView, key: Seq<char>) -> Option<Seq<char>> {
    match member_of(j, key) {
        Some(JsonView::Str(s)) => Some(s),
        _ => None,
    }
}

/// The value of a JSON boolean member.
pub open spec fn bool_member(j: JsonView, key: Seq<char>) -> Option<bool> {
    match member_of(j, key) {
        Some(JsonView::Bool(b)) => Some(b),
        _ => None,
    }
}

fn find(m: &Vec<Member>, key: &str) -> (r: usize)
    ensures
        r == member_index(members_of(m@), key@),
        r <= m@.len(),
        members_of(m@).len() == m@.len(),
        r < m@.len() ==> members_of(m@)[r as int].value == view_of(m@[r as int].value),
{
    crate::docs::find_member(m, key)
}

/// The text of the string member `key` of an object.
pub fn get_str<'a>(j: &'a Json, key: &str) -> (r: Option<&'a str>)
    ensures
        match r {
            Some(s) => str_member(view_of(*j), key@) == Some(s@),
            None => str_member(view_of(*j), key@) is None,
        },
{
    match j {
        Json::Object(m) => {
            let i = find(m, key);
            if i < m.len() {
                match &m[i].value {
                    Json::Str(s) => Some(s.as_str()),
                    _ => None,
                }
            } else {
                None
            }
        },
        _ => None,
    }
}

/// The value of the boolean member `key` of an object.
pub fn get_bool(j: &Json, key: &str) -> (r: Option<bool>)
    ensures
        r == bool_member(view_of(*j), key@),
{
    match j {
        Json::Object(m) => {
            let i = find(m, key);
            if i < m.len() {
                match &m[i].value {
                    Json::Bool(b) => Some(*b),
                    _ => None,
                }
            } else {
                None
            }
        },
        _ => None,
    }
}

/// The category a data item of an app is listed under: identification,
/// system information and configuration data by either spelling, current
/// data otherwise.
pub open spec fn proxy_category_of(c: Option<Seq<char>>) -> Seq<char> {
    match c {
        Some(s) => if s == "IdentData"@ || s == "identData"@ {
            "IdentData"@
        } else if s == "SysInfo"@ || s == "sysInfo"@ {
            "SysInfo"@
        } else if s == "ConfigData"@ || s == "configData"@ {
            "ConfigData"@
        } else {
            "CurrentData"@
        },
        None => "CurrentData"@,
    }
}

/// The category a data item of an app is listed under.
pub fn proxy_category(c: Option<&str>) -> (r: &'static str)
    ensures
        r@ == proxy_category_of(match c {
            Some(s) => Some(s@),
            None => None,
        }),
{
    match c {
        Some(s) => {
            if compare_keys(s, "IdentData") == 0 || compare_keys(s, "identData") == 0 {
                "IdentData"
            } else if compare_keys(s, "SysInfo") == 0 || compare_keys(s, "sysInfo") == 0 {
                "SysInfo"
            } else if compare_keys(s, "ConfigData") == 0 || compare_keys(s, "configData") == 0 {
                "ConfigData"
            } else {
                "CurrentData"
            }
        },
        None => "CurrentData",
    }
}

/// A character in upper case, where it is an ASCII letter.
pub open spec fn upper_char(c: char) -> char {
    if 'a' <= c && c <= 'z' {
        ((c as u32) - 32) as char
    } else {
        c
    }
}

/// A text with its first character in upper case.
pub open spec fn capitalized(s: Seq<char>) -> Seq<char> {
    if s.len() > 0 {
        s.update(0, upper_char(s[0]))
    } else {
        s
    }
}

/// For a name whose first letter is upper case and its spelling with that
/// letter in lower case: a text capitalizes to the name exactly where it is
/// one of the two spellings, and never capitalizes to the lower-case one.
proof fn lemma_capitalized_names(s: Seq<char>, upper: Seq<char>, lower: Seq<char>)
    requires
        upper.len() > 0,
        lower.len() == upper.len(),
        forall|k: int| 1 <= k < upper.len() ==> lower[k] == upper[k],
        'A' <= upper[0] && upper[0] <= 'Z',
        lower[0] == ((upper[0] as u32) + 32) as char,
    ensures
        capitalized(s) == upper <==> (s == upper || s == lower),
        capitalized(s) != lower,
{
    if s == upper {
        assert(capitalized(s) =~= upper);
    }
    if s == lower {
        assert(capitalized(s) =~= upper);
    }
    if capitalized(s) == upper {
        assert(s.len() == upper.len());
        assert(capitalized(s)[0] == upper_char(s[0]));
        if 'a' <= s[0] && s[0] <= 'z' {
            let c = s[0];
            assert(((c as u32) - 32) as char as u32 == (c as u32) - 32);
            assert(upper[0] as u32 == (c as u32) - 32);
            assert((c as u32) as char == c);
            assert(s[0] == lower[0]);
            assert(s =~= lower) by {
                assert forall|k: int| 0 <= k < s.len() implies s[k] == lower[k] by {
                    if k > 0 {
                        assert(capitalized(s)[k] == s[k]);
                    }
                }
            }
        } else {
            assert(s =~= upper) by {
                assert forall|k: int| 0 <= k < s.len() implies s[k] == upper[k] by {
                    assert(capitalized(s)[k] == upper[k]);
                }
            }
        }
    }
    if capitalized(s) == lower {
        assert(s.len() > 0);
        assert(capitalized(s)[0] == upper_char(s[0]));
        assert(lower[0] == upper_char(s[0]));
    }
}

/// The case of an item's first letter does not change its category: the
/// category of a text is that of the text with its first letter in upper
/// case, so each category is recognised in both spellings.
pub proof fn lemma_category_ignores_first_letter_case(s: Seq<char>)
    ensures
        proxy_category_of(Some(capitalized(s))) == proxy_category_of(Some(s)),
{
    reveal_strlit("IdentData");
    reveal_strlit("identData");
    reveal_strlit("SysInfo");
    reveal_strlit("sysInfo");
    reveal_strlit("ConfigData");
    reveal_strlit("configData");
    lemma_capitalized_names(s, "IdentData"@, "identData"@);
    lemma_capitalized_names(s, "SysInfo"@, "sysInfo"@);
    lemma_capitalized_names(s, "ConfigData"@, "configData"@);
}

/// Each category name is listed as itself.
pub proof fn lemma_category_names_are_kept(s: Seq<char>)
    requires
        s == "IdentData"@ || s == "SysInfo"@ || s == "ConfigData"@ || s == "CurrentData"@,
    ensures
        proxy_category_of(Some(s)) == s,
{
    reveal_strlit("IdentData");
    reveal_strlit("identData");
    reveal_strlit("SysInfo");
    reveal_strlit("sysInfo");
    reveal_strlit("ConfigData");
    reveal_strlit("configData");
    reveal_strlit("CurrentData");
}

/// What the SOVD server lists of one data item of an app.
#[derive(Debug, Clone)]
pub struct ProxiedMetadata {
    pub id: String,
    pub name: String,
    pub category: String,
    pub is_readable: bool,
    pub is_writable: bool,
}

/// How an app's data item reads as a SOVD data resource: its id (`unknown`
/// where it has none), its name (else its id), its category, readable, and
/// writable as `is_writable` or else `writable` says (not where neither
/// does).
pub fn proxied_metadata(item: &Json) -> (r: ProxiedMetadata)
    ensures
        r.id@ == (match str_member(view_of(*item), "id"@) {
            Some(s) => s,
            None => "unknown"@,
        }),
        r.name@ == (match str_member(view_of(*item), "name"@) {
            Some(s) => s,
            None => r.id@,
        }),
        r.category@ == proxy_category_of(str_member(view_of(*item), "category"@)),
        r.is_readable,
        r.is_writable == (match bool_member(view_of(*item), "is_writable"@) {
            Some(b) => b,
            None => match bool_member(view_of(*item), "writable"@) {
                Some(b) => b,
                None => false,
            },
        }),
{
    let id = match get_str(item, "id") {
        Some(s) => s.to_owned(),
        None => "unknown".to_owned(),
    };
    let name = match get_str(item, "name") {
        Some(s) => s.to_owned(),
        None => id.clone(),
    };
    let category = proxy_category(get_str(item, "category")).to_owned();
    let is_writable = match get_bool(item, "is_writable") {
        Some(b) => b,
        None => match get_bool(item, "writable") {
            Some(b) => b,
            None => false,
        },
    };
    ProxiedMetadata { id, name, category, is_readable: true, is_writable }
}

/// Where the diagnostic API of an app listening on `port` is reached.
pub fn app_api_base(port: u16) -> (r: String)
    ensures
        r@ == "http://127.0.0.1:"@ + decimal(port as nat) + "/api"@,
{
    let mut s = "http://127.0.0.1:".to_owned();
    push_decimal(&mut s, port as u64);
    push_str(&mut s, "/api");
    s
}

/// Where an app lists its data items.
pub fn data_list_url(base: &str) -> (r: String)
    ensures
        r@ == base@ + "/data"@,
{
    concat2(base, "/data")
}

/// Where an app's data item `id` is read and written.
pub fn data_item_url(base: &str, id: &str) -> (r: String)
    ensures
        r@ == base@ + "/data/"@ + id@,
{
    let mut s = concat2(base, "/data/");
    push_str(&mut s, id);
    s
}

/// The value an app answered a read with: its `value` member, or null.
pub fn proxied_value(answer: Json) -> (r: Json)
    ensures
        view_of(r) == (match member_of(view_of(answer), "value"@) {
            Some(v) => v,
            None => JsonView::Null,
        }),
{
    let ghost av = view_of(answer);
    match answer {
        Json::Object(m) => {
            let i = find(&m, "value");
            if i < m.len() {
                let mut m = m;
                let x = m.remove(i);
                x.value
            } else {
                Json::Null
            }
        },
        _ => Json::Null,
    }
}

} // verus!

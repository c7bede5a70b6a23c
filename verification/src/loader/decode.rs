use vstd::prelude::*;
use vstd::string::*;

use crate::domain::effect::JsonPathSelector;
use crate::domain::environment::ServiceBinding;
use crate::json::{json_get, json_get_exec, lemma_object_view, member_get, members_view, JsonV, JsonValue};
use crate::map::StrMap;
use crate::text::{chars_of, is_digit, push_str, push_string, string_of};

verus! {

// The JSON form of workflow documents: what each field may hold, and what it stands for.

/// The member of an object named `name`.
pub open spec fn field(v: JsonV, name: Seq<char>) -> Option<JsonV> {
    json_get(v, name)
}

/// The view of an optional value.
pub open spec fn oview(o: Option<JsonValue>) -> Option<JsonV> {
    match o {
        Some(v) => Some(v@),
        None => None,
    }
}

/// A scalar read as text: a string, a number's text, or `true` / `false`.
pub open spec fn text_of(v: JsonV) -> Option<Seq<char>> {
    match v {
        JsonV::Str(s) => Some(s),
        JsonV::Number(n) => Some(n),
        JsonV::Bool(b) => Some(
            if b {
                "true"@
            } else {
                "false"@
            },
        ),
        _ => None,
    }
}

/// A required text field that holds `s`.
pub open spec fn is_text(f: Option<JsonV>, s: String) -> bool {
    f matches Some(j) && text_of(j) == Some(s@)
}

/// An optional text field: missing or null for `None`.
pub open spec fn is_opt_text(f: Option<JsonV>, o: Option<String>) -> bool {
    match f {
        None => o is None,
        Some(JsonV::Null) => o is None,
        Some(j) => o matches Some(s) && text_of(j) == Some(s@),
    }
}

/// A required JSON field.
pub open spec fn is_json(f: Option<JsonV>, j: JsonValue) -> bool {
    f == Some(j@)
}

/// A JSON field that stands for null where it is missing.
pub open spec fn is_json_or_null(f: Option<JsonV>, j: JsonValue) -> bool {
    match f {
        None => j@ == JsonV::Null,
        Some(x) => j@ == x,
    }
}

/// An optional JSON field: missing or null for `None`.
pub open spec fn is_opt_json(f: Option<JsonV>, o: Option<JsonValue>) -> bool {
    match f {
        None => o is None,
        Some(JsonV::Null) => o is None,
        Some(x) => o matches Some(j) && j@ == x,
    }
}

/// All the characters are decimal digits.
pub open spec fn all_digits(s: Seq<char>) -> bool {
    forall|i: int| 0 <= i < s.len() ==> is_digit(#[trigger] s[i])
}

/// The value of a text of decimal digits.
pub open spec fn digits_val(s: Seq<char>) -> nat
    decreases s.len(),
{
    if s.len() == 0 {
        0
    } else {
        digits_val(s.drop_last()) * 10 + ((s.last() as nat) - 48) as nat
    }
}

/// A number that is a whole number from 0 to `max`.
pub open spec fn unsigned_of(v: JsonV, max: nat) -> Option<nat> {
    match v {
        JsonV::Number(n) => if n.len() > 0 && all_digits(n) && digits_val(n) <= max {
            Some(digits_val(n))
        } else {
            None
        },
        _ => None,
    }
}

/// A whole-number field that stands for `default` where it is missing.
pub open spec fn is_unsigned_or(f: Option<JsonV>, n: nat, default: nat, max: nat) -> bool {
    match f {
        None => n == default,
        Some(x) => unsigned_of(x, max) == Some(n),
    }
}

/// An optional `u16` field: missing or null for `None`.
pub open spec fn is_opt_u16(f: Option<JsonV>, o: Option<u16>) -> bool {
    match f {
        None => o is None,
        Some(JsonV::Null) => o is None,
        Some(x) => o matches Some(n) && unsigned_of(x, 65535) == Some(n as nat),
    }
}

/// A boolean field that stands for `false` where it is missing.
pub open spec fn is_bool_or_false(f: Option<JsonV>, b: bool) -> bool {
    match f {
        None => !b,
        Some(JsonV::Bool(x)) => b == x,
        _ => false,
    }
}

/// The items of a list field that stands for the empty list where it is missing.
pub open spec fn array_items(f: Option<JsonV>) -> Option<Seq<JsonV>> {
    match f {
        None => Some(Seq::empty()),
        Some(JsonV::Array(items)) => Some(items),
        _ => None,
    }
}

/// The members of a map field that stands for the empty map where it is missing.
pub open spec fn object_members(f: Option<JsonV>) -> Option<Seq<(Seq<char>, JsonV)>> {
    match f {
        None => Some(Seq::empty()),
        Some(JsonV::Object(ms)) => Some(ms),
        _ => None,
    }
}

/// An object whose members all have one of the allowed names.
pub open spec fn keys_allowed(v: JsonV, allowed: Seq<Seq<char>>) -> bool {
    v matches JsonV::Object(ms) && forall|i: int| 0 <= i < ms.len() ==> allowed.contains(#[trigger] ms[i].0)
}

pub open spec fn text_value(j: JsonV, s: String) -> bool {
    text_of(j) == Some(s@)
}

pub open spec fn selector_value(j: JsonV, s: JsonPathSelector) -> bool {
    is_text(json_get(j, "from"@), s.from)
}

pub open spec fn json_value(j: JsonV, v: JsonValue) -> bool {
    v@ == j
}

/// A map field of texts.
pub open spec fn is_text_map(f: Option<JsonV>, m: StrMap<String>) -> bool {
    object_members(f) matches Some(ms) && (forall|j: int| 0 <= j < ms.len() ==> readable_text(#[trigger] ms[j].1))
        && m.wf() && (forall|k: Seq<char>| #[trigger] m.has(k) <==> member_get(ms, k) is Some)
        && (forall|k: Seq<char>| m.has(k) ==> text_value(member_get(ms, k)->0, #[trigger] m.get_spec(k)->0))
}

/// A map field of JSONPath selectors (`{ from: <query> }`).
pub open spec fn is_selector_map(f: Option<JsonV>, m: StrMap<JsonPathSelector>) -> bool {
    object_members(f) matches Some(ms) && (forall|j: int| 0 <= j < ms.len() ==> readable_selector(#[trigger] ms[j].1))
        && m.wf() && (forall|k: Seq<char>| #[trigger] m.has(k) <==> member_get(ms, k) is Some)
        && (forall|k: Seq<char>| m.has(k) ==> selector_value(member_get(ms, k)->0, #[trigger] m.get_spec(k)->0))
}

/// A map field of JSON values.
pub open spec fn is_json_map(f: Option<JsonV>, m: StrMap<JsonValue>) -> bool {
    object_members(f) matches Some(ms) && (forall|j: int| 0 <= j < ms.len() ==> readable_json(#[trigger] ms[j].1))
        && m.wf() && (forall|k: Seq<char>| #[trigger] m.has(k) <==> member_get(ms, k) is Some)
        && (forall|k: Seq<char>| m.has(k) ==> json_value(member_get(ms, k)->0, #[trigger] m.get_spec(k)->0))
}

// ---------------------------------------------------------------------------------------

/// The member named `name`.
pub fn get_field(v: &JsonValue, name: &str) -> (r: Option<JsonValue>)
    ensures
        oview(r) == field(v@, name@),
{
    let key = chars_of(name);
    let r = json_get_exec(v, &key);
    r
}

/// A scalar read as text.
pub fn read_text(v: &JsonValue) -> (r: Option<String>)
    ensures
        match r {
            Some(s) => text_of(v@) == Some(s@),
            None => text_of(v@) is None,
        },
{
    match v {
        JsonValue::String(s) => Some(s.clone()),
        JsonValue::Number(n) => Some(n.clone()),
        JsonValue::Bool(b) => Some(
            if *b {
                String::from_str("true")
            } else {
                String::from_str("false")
            },
        ),
        _ => None,
    }
}

/// The text of an error about a field.
pub fn field_error(what: &str, name: &str) -> (r: String)
    ensures
        r@ == what@ + " `"@ + name@ + "`"@,
{
    let mut m: Vec<char> = Vec::new();
    push_str(&mut m, what);
    push_str(&mut m, " `");
    push_str(&mut m, name);
    push_str(&mut m, "`");
    string_of(&m)
}

/// Reads a required text field.
pub fn text_field(f: &Option<JsonValue>, name: &str) -> (r: Result<String, String>)
    ensures
        match r {
            Ok(s) => is_text(oview(*f), s),
            Err(_) => !(oview(*f) matches Some(j) && text_of(j) is Some),
        },
{
    match f {
        None => Err(field_error("missing field", name)),
        Some(j) => match read_text(j) {
            Some(s) => Ok(s),
            None => Err(field_error("invalid type: expected a string for field", name)),
        },
    }
}

/// Reads an optional text field.
pub fn opt_text_field(f: &Option<JsonValue>, name: &str) -> (r: Result<Option<String>, String>)
    ensures
        match r {
            Ok(o) => is_opt_text(oview(*f), o),
            Err(_) => oview(*f) matches Some(j) && j != JsonV::Null && text_of(j) is None,
        },
{
    match f {
        None => Ok(None),
        Some(JsonValue::Null) => Ok(None),
        Some(j) => match read_text(j) {
            Some(s) => Ok(Some(s)),
            None => Err(field_error("invalid type: expected a string for field", name)),
        },
    }
}

/// Reads a required JSON field.
pub fn json_field(f: &Option<JsonValue>, name: &str) -> (r: Result<JsonValue, String>)
    ensures
        match r {
            Ok(j) => is_json(oview(*f), j),
            Err(_) => forall|j: JsonValue| !is_json(oview(*f), j),
        },
{
    match f {
        None => Err(field_error("missing field", name)),
        Some(j) => Ok(j.clone()),
    }
}

/// Reads a JSON field that stands for null where it is missing.
pub fn json_or_null_field(f: &Option<JsonValue>) -> (r: JsonValue)
    ensures
        is_json_or_null(oview(*f), r),
{
    match f {
        None => JsonValue::Null,
        Some(j) => j.clone(),
    }
}

/// Reads an optional JSON field.
pub fn opt_json_field(f: &Option<JsonValue>) -> (r: Option<JsonValue>)
    ensures
        is_opt_json(oview(*f), r),
{
    match f {
        None => None,
        Some(JsonValue::Null) => None,
        Some(j) => Some(j.clone()),
    }
}

/// The whole number that a JSON number stands for, where it is at most `max`.
pub fn read_unsigned(v: &JsonValue, max: u64) -> (r: Option<u64>)
    ensures
        match r {
            Some(n) => unsigned_of(v@, max as nat) == Some(n as nat),
            None => unsigned_of(v@, max as nat) is None,
        },
{
    let n = match v {
        JsonValue::Number(n) => n,
        _ => {
            return None;
        },
    };
    let cs = chars_of(n.as_str());
    if cs.len() == 0 {
        return None;
    }
    let mut acc: u64 = 0;
    let mut i: usize = 0;
    while i < cs.len()
        invariant
            i <= cs@.len(),
            cs@ == n@,
            v@ == JsonV::Number(n@),
            cs@.len() > 0,
            all_digits(cs@.take(i as int)),
            acc as nat == digits_val(cs@.take(i as int)),
            acc <= max,
        decreases cs.len() - i,
    {
        let c = cs[i];
        assert(cs@.take(i + 1).drop_last() =~= cs@.take(i as int));
        if !('0' <= c && c <= '9') {
            proof {
                assert(!is_digit(cs@[i as int]));
                assert(!all_digits(cs@));
            }
            return None;
        }
        let d: u64 = (c as u32 - 48) as u64;
        let next: u128 = acc as u128 * 10 + d as u128;
        proof {
            lemma_digits_grow(cs@, i as int + 1);
        }
        if next > max as u128 {
            proof {
                if all_digits(cs@) {
                    lemma_digits_only_grow(cs@, i as int + 1);
                }
            }
            return None;
        }
        acc = next as u64;
        i = i + 1;
    }
    assert(cs@.take(i as int) =~= cs@);
    Some(acc)
}

/// Reading more digits never gives a smaller value.
proof fn lemma_digits_only_grow(s: Seq<char>, k: int)
    requires
        0 <= k <= s.len(),
        all_digits(s),
    ensures
        digits_val(s) >= digits_val(s.take(k)),
    decreases s.len() - k,
{
    if k < s.len() {
        lemma_digits_grow(s, k + 1);
        lemma_digits_only_grow(s, k + 1);
    } else {
        assert(s.take(k) =~= s);
    }
}

proof fn lemma_digits_grow(s: Seq<char>, k: int)
    requires
        0 < k <= s.len(),
    ensures
        digits_val(s.take(k)) == digits_val(s.take(k - 1)) * 10 + ((s[k - 1] as nat) - 48) as nat,
        digits_val(s.take(k)) >= digits_val(s.take(k - 1)) * 10,
{
    assert(s.take(k).drop_last() =~= s.take(k - 1));
}

proof fn lemma_member_index_push(s: Seq<(Seq<char>, JsonV)>, x: (Seq<char>, JsonV), k: Seq<char>, i: int)
    requires
        0 <= i <= s.len(),
    ensures
        crate::json::member_index_from(s.push(x), k, i) == match crate::json::member_index_from(s, k, i) {
            Some(j) => Some(j),
            None => if x.0 == k {
                Some(s.len() as int)
            } else {
                None
            },
        },
    decreases s.len() - i,
{
    if i < s.len() {
        assert(s.push(x)[i] == s[i]);
        lemma_member_index_push(s, x, k, i + 1);
    } else {
        assert(s.push(x)[i] == x);
        assert(crate::json::member_index_from(s.push(x), k, i + 1) is None);
    }
}

/// The member named `k` of an object with one more member: the first one wins.
pub proof fn lemma_member_get_push(s: Seq<(Seq<char>, JsonV)>, x: (Seq<char>, JsonV), k: Seq<char>)
    ensures
        member_get(s.push(x), k) == match member_get(s, k) {
            Some(v) => Some(v),
            None => if x.0 == k {
                Some(x.1)
            } else {
                None
            },
        },
{
    lemma_member_index_push(s, x, k, 0);
    crate::json::lemma_member_index_bounds(s, k, 0);
    match crate::json::member_index_from(s, k, 0) {
        Some(j) => {
            assert(s.push(x)[j] == s[j]);
        },
        None => {},
    }
}

/// Reads a whole-number field that stands for `default` where it is missing.
pub fn unsigned_field(f: &Option<JsonValue>, name: &str, default: u64, max: u64) -> (r: Result<u64, String>)
    ensures
        match r {
            Ok(n) => is_unsigned_or(oview(*f), n as nat, default as nat, max as nat),
            Err(_) => forall|n: nat| !is_unsigned_or(oview(*f), n, default as nat, max as nat),
        },
{
    match f {
        None => Ok(default),
        Some(j) => match read_unsigned(j, max) {
            Some(n) => Ok(n),
            None => Err(field_error("invalid value: expected a whole number in range for field", name)),
        },
    }
}

/// Reads an optional `u16` field.
pub fn opt_u16_field(f: &Option<JsonValue>, name: &str) -> (r: Result<Option<u16>, String>)
    ensures
        match r {
            Ok(o) => is_opt_u16(oview(*f), o),
            Err(_) => forall|o: Option<u16>| !is_opt_u16(oview(*f), o),
        },
{
    match f {
        None => Ok(None),
        Some(JsonValue::Null) => Ok(None),
        Some(j) => match read_unsigned(j, 65535) {
            Some(n) => Ok(Some(n as u16)),
            None => Err(field_error("invalid value: expected a u16 for field", name)),
        },
    }
}

/// Reads a boolean field that stands for `false` where it is missing.
pub fn bool_field(f: &Option<JsonValue>, name: &str) -> (r: Result<bool, String>)
    ensures
        match r {
            Ok(b) => is_bool_or_false(oview(*f), b),
            Err(_) => forall|b: bool| !is_bool_or_false(oview(*f), b),
        },
{
    match f {
        None => Ok(false),
        Some(JsonValue::Bool(b)) => Ok(*b),
        Some(_) => Err(field_error("invalid type: expected a boolean for field", name)),
    }
}

/// The members of a map field, or why it is not a map.
pub fn members_field(f: &Option<JsonValue>, name: &str) -> (r: Result<Vec<(String, JsonValue)>, String>)
    ensures
        match r {
            Ok(ms) => object_members(oview(*f)) == Some(members_view(ms@)),
            Err(_) => object_members(oview(*f)) is None,
        },
{
    match f {
        None => {
            let v: Vec<(String, JsonValue)> = Vec::new();
            assert(members_view(v@) =~= Seq::<(Seq<char>, JsonV)>::empty());
            Ok(v)
        },
        Some(JsonValue::Object(ms)) => {
            proof {
                lemma_object_view(*ms);
            }
            Ok(crate::json::clone_members(ms))
        },
        Some(_) => Err(field_error("invalid type: expected a map for field", name)),
    }
}

/// The items of a list field, or why it is not a list.
pub fn items_field(f: &Option<JsonValue>, name: &str) -> (r: Result<Vec<JsonValue>, String>)
    ensures
        match r {
            Ok(items) => array_items(oview(*f)) == Some(crate::json::items_view(items@)),
            Err(_) => array_items(oview(*f)) is None,
        },
{
    match f {
        None => {
            let v: Vec<JsonValue> = Vec::new();
            assert(crate::json::items_view(v@) =~= Seq::<JsonV>::empty());
            Ok(v)
        },
        Some(JsonValue::Array(items)) => {
            proof {
                crate::json::lemma_array_view(*items);
            }
            Ok(crate::json::clone_items(items))
        },
        Some(_) => Err(field_error("invalid type: expected a list for field", name)),
    }
}

/// Reads a map field of texts.
pub fn text_map_field(f: &Option<JsonValue>, name: &str) -> (r: Result<StrMap<String>, String>)
    ensures
        match r {
            Ok(m) => is_text_map(oview(*f), m),
            Err(_) => forall|m: StrMap<String>| !is_text_map(oview(*f), m),
        },
{
    let ms = members_field(f, name)?;
    let ghost mv = members_view(ms@);
    let mut m: StrMap<String> = StrMap::new();
    let mut i: usize = 0;
    assert(mv.take(0) =~= Seq::<(Seq<char>, JsonV)>::empty());
    while i < ms.len()
        invariant
            i <= ms@.len(),
            mv == members_view(ms@),
            object_members(oview(*f)) == Some(mv),
            m.wf(),
            forall|k: Seq<char>| #[trigger] m.has(k) <==> member_get(mv.take(i as int), k) is Some,
            forall|k: Seq<char>|
                m.has(k) ==> text_value(member_get(mv.take(i as int), k)->0, #[trigger] m.get_spec(k)->0),
            forall|j: int| 0 <= j < i ==> readable_text(#[trigger] mv[j].1),
        decreases ms.len() - i,
    {
        assert(mv[i as int] == (ms@[i as int].0@, ms@[i as int].1@));
        let value = match read_text(&ms[i].1) {
            Some(v) => v,
            None => {
                proof {
                    assert(!readable_text(mv[i as int].1));
                }
                return Err(field_error("invalid entry in map field", name));
            },
        };
        let ghost before = m;
        let ghost t = mv.take(i as int);
        assert(mv.take(i + 1) =~= t.push(mv[i as int]));
        if !m.contains_key(ms[i].0.as_str()) {
            m.insert(ms[i].0.clone(), value);
        }
        proof {
            assert forall|k: Seq<char>| #[trigger] m.has(k) <==> member_get(mv.take(i + 1), k) is Some by {
                lemma_member_get_push(t, mv[i as int], k);
                assert(m.has(k) == m.get_spec(k) is Some);
                assert(before.has(k) == before.get_spec(k) is Some);
            }
            assert forall|k: Seq<char>|
                m.has(k) implies text_value(member_get(mv.take(i + 1), k)->0, #[trigger] m.get_spec(k)->0) by {
                lemma_member_get_push(t, mv[i as int], k);
                assert(m.has(k) == m.get_spec(k) is Some);
                assert(before.has(k) == before.get_spec(k) is Some);
            }
        }
        i = i + 1;
    }
    assert(mv.take(i as int) =~= mv);
    Ok(m)
}

/// Reads a map field of JSONPath selectors.
pub fn selector_map_field(f: &Option<JsonValue>, name: &str) -> (r: Result<StrMap<JsonPathSelector>, String>)
    ensures
        match r {
            Ok(m) => is_selector_map(oview(*f), m),
            Err(_) => forall|m: StrMap<JsonPathSelector>| !is_selector_map(oview(*f), m),
        },
{
    let ms = members_field(f, name)?;
    let ghost mv = members_view(ms@);
    let mut m: StrMap<JsonPathSelector> = StrMap::new();
    let mut i: usize = 0;
    assert(mv.take(0) =~= Seq::<(Seq<char>, JsonV)>::empty());
    while i < ms.len()
        invariant
            i <= ms@.len(),
            mv == members_view(ms@),
            object_members(oview(*f)) == Some(mv),
            m.wf(),
            forall|k: Seq<char>| #[trigger] m.has(k) <==> member_get(mv.take(i as int), k) is Some,
            forall|k: Seq<char>|
                m.has(k) ==> selector_value(member_get(mv.take(i as int), k)->0, #[trigger] m.get_spec(k)->0),
            forall|j: int| 0 <= j < i ==> readable_selector(#[trigger] mv[j].1),
        decreases ms.len() - i,
    {
        assert(mv[i as int] == (ms@[i as int].0@, ms@[i as int].1@));
        let value = match read_selector(&ms[i].1) {
            Some(v) => v,
            None => {
                proof {
                    assert(!readable_selector(mv[i as int].1));
                }
                return Err(field_error("invalid entry in map field", name));
            },
        };
        let ghost before = m;
        let ghost t = mv.take(i as int);
        assert(mv.take(i + 1) =~= t.push(mv[i as int]));
        if !m.contains_key(ms[i].0.as_str()) {
            m.insert(ms[i].0.clone(), value);
        }
        proof {
            assert forall|k: Seq<char>| #[trigger] m.has(k) <==> member_get(mv.take(i + 1), k) is Some by {
                lemma_member_get_push(t, mv[i as int], k);
                assert(m.has(k) == m.get_spec(k) is Some);
                assert(before.has(k) == before.get_spec(k) is Some);
            }
            assert forall|k: Seq<char>|
                m.has(k) implies selector_value(member_get(mv.take(i + 1), k)->0, #[trigger] m.get_spec(k)->0) by {
                lemma_member_get_push(t, mv[i as int], k);
                assert(m.has(k) == m.get_spec(k) is Some);
                assert(before.has(k) == before.get_spec(k) is Some);
            }
        }
        i = i + 1;
    }
    assert(mv.take(i as int) =~= mv);
    Ok(m)
}

/// Reads a map field of JSON values.
pub fn json_map_field(f: &Option<JsonValue>, name: &str) -> (r: Result<StrMap<JsonValue>, String>)
    ensures
        match r {
            Ok(m) => is_json_map(oview(*f), m),
            Err(_) => forall|m: StrMap<JsonValue>| !is_json_map(oview(*f), m),
        },
{
    let ms = members_field(f, name)?;
    let ghost mv = members_view(ms@);
    let mut m: StrMap<JsonValue> = StrMap::new();
    let mut i: usize = 0;
    assert(mv.take(0) =~= Seq::<(Seq<char>, JsonV)>::empty());
    while i < ms.len()
        invariant
            i <= ms@.len(),
            mv == members_view(ms@),
            object_members(oview(*f)) == Some(mv),
            m.wf(),
            forall|k: Seq<char>| #[trigger] m.has(k) <==> member_get(mv.take(i as int), k) is Some,
            forall|k: Seq<char>|
                m.has(k) ==> json_value(member_get(mv.take(i as int), k)->0, #[trigger] m.get_spec(k)->0),
            forall|j: int| 0 <= j < i ==> readable_json(#[trigger] mv[j].1),
        decreases ms.len() - i,
    {
        assert(mv[i as int] == (ms@[i as int].0@, ms@[i as int].1@));
        let value = match read_json(&ms[i].1) {
            Some(v) => v,
            None => {
                proof {
                    assert(!readable_json(mv[i as int].1));
                }
                return Err(field_error("invalid entry in map field", name));
            },
        };
        let ghost before = m;
        let ghost t = mv.take(i as int);
        assert(mv.take(i + 1) =~= t.push(mv[i as int]));
        if !m.contains_key(ms[i].0.as_str()) {
            m.insert(ms[i].0.clone(), value);
        }
        proof {
            assert forall|k: Seq<char>| #[trigger] m.has(k) <==> member_get(mv.take(i + 1), k) is Some by {
                lemma_member_get_push(t, mv[i as int], k);
                assert(m.has(k) == m.get_spec(k) is Some);
                assert(before.has(k) == before.get_spec(k) is Some);
            }
            assert forall|k: Seq<char>|
                m.has(k) implies json_value(member_get(mv.take(i + 1), k)->0, #[trigger] m.get_spec(k)->0) by {
                lemma_member_get_push(t, mv[i as int], k);
                assert(m.has(k) == m.get_spec(k) is Some);
                assert(before.has(k) == before.get_spec(k) is Some);
            }
        }
        i = i + 1;
    }
    assert(mv.take(i as int) =~= mv);
    Ok(m)
}

pub open spec fn readable_text(j: JsonV) -> bool {
    text_of(j) is Some
}

pub open spec fn readable_selector(j: JsonV) -> bool {
    json_get(j, "from"@) matches Some(x) && text_of(x) is Some
}

pub open spec fn readable_json(j: JsonV) -> bool {
    true
}

fn read_selector(v: &JsonValue) -> (r: Option<JsonPathSelector>)
    ensures
        match r {
            Some(s) => selector_value(v@, s),
            None => !readable_selector(v@),
        },
{
    let f = get_field(v, "from");
    match f {
        Some(x) => match read_text(&x) {
            Some(from) => Some(JsonPathSelector { from }),
            None => None,
        },
        None => None,
    }
}

fn read_json(v: &JsonValue) -> (r: Option<JsonValue>)
    ensures
        match r {
            Some(j) => json_value(v@, j),
            None => !readable_json(v@),
        },
{
    Some(v.clone())
}

/// A service binding: `{ base_url: <text> }` and nothing else.
pub open spec fn readable_binding(j: JsonV) -> bool {
    keys_allowed(j, seq!["base_url"@]) && (field(j, "base_url"@) matches Some(x) && text_of(x) is Some)
}

pub open spec fn binding_value(j: JsonV, b: ServiceBinding) -> bool {
    keys_allowed(j, seq!["base_url"@]) && is_text(field(j, "base_url"@), b.base_url)
}

/// A map field of service bindings.
pub open spec fn is_binding_map(f: Option<JsonV>, m: StrMap<ServiceBinding>) -> bool {
    object_members(f) matches Some(ms) && (forall|j: int| 0 <= j < ms.len() ==> readable_binding(#[trigger] ms[j].1))
        && m.wf() && (forall|k: Seq<char>| #[trigger] m.has(k) <==> member_get(ms, k) is Some)
        && (forall|k: Seq<char>| m.has(k) ==> binding_value(member_get(ms, k)->0, #[trigger] m.get_spec(k)->0))
}

/// Checks that every member of an object has one of the allowed names.
#[verifier::loop_isolation(false)]
pub fn check_keys(v: &JsonValue, allowed: &Vec<&str>) -> (r: Result<(), String>)
    ensures
        match r {
            Ok(()) => keys_allowed(v@, allowed@.map_values(|a: &str| a@)),
            Err(_) => !keys_allowed(v@, allowed@.map_values(|a: &str| a@)),
        },
{
    let ghost names = allowed@.map_values(|a: &str| a@);
    let members = match v {
        JsonValue::Object(members) => members,
        _ => {
            return Err(String::from_str("invalid type: expected a map"));
        },
    };
    proof {
        lemma_object_view(*members);
    }
    let ghost mv = members_view(members@);
    let mut i: usize = 0;
    while i < members.len()
        invariant
            i <= members@.len(),
            mv == members_view(members@),
            v@ == JsonV::Object(mv),
            names == allowed@.map_values(|a: &str| a@),
            forall|j: int| 0 <= j < i ==> names.contains(#[trigger] mv[j].0),
        decreases members.len() - i,
    {
        let mut found = false;
        let mut a: usize = 0;
        while a < allowed.len()
            invariant
                a <= allowed@.len(),
                i < members@.len(),
                names == allowed@.map_values(|a: &str| a@),
                found ==> names.contains(mv[i as int].0),
                !found ==> forall|b: int| 0 <= b < a ==> names[b] != mv[i as int].0,
            decreases allowed.len() - a,
        {
            assert(mv[i as int].0 == members@[i as int].0@);
            assert(names[a as int] == allowed@[a as int]@);
            if !found && crate::text::str_eq(members[i].0.as_str(), allowed[a]) {
                found = true;
                assert(names[a as int] == mv[i as int].0);
            }
            a = a + 1;
        }
        if !found {
            let mut m: Vec<char> = Vec::new();
            push_str(&mut m, "unknown field `");
            push_string(&mut m, &members[i].0);
            push_str(&mut m, "`");
            proof {
                assert(!names.contains(mv[i as int].0));
                if keys_allowed(v@, names) {
                    let ms = v@->Object_0;
                    assert(ms == mv);
                    assert(names.contains(ms[i as int].0));
                }
            }
            return Err(string_of(&m));
        }
        i = i + 1;
    }
    Ok(())
}

fn read_binding(v: &JsonValue) -> (r: Option<ServiceBinding>)
    ensures
        match r {
            Some(b) => binding_value(v@, b),
            None => !readable_binding(v@),
        },
{
    let allowed = vec!["base_url"];
    assert(allowed@.map_values(|a: &str| a@) =~= seq!["base_url"@]);
    match check_keys(v, &allowed) {
        Err(_) => {
            return None;
        },
        Ok(()) => {},
    }
    let f = get_field(v, "base_url");
    match f {
        Some(x) => match read_text(&x) {
            Some(base_url) => Some(ServiceBinding { base_url }),
            None => None,
        },
        None => None,
    }
}

/// Reads a map field of service bindings.
pub fn binding_map_field(f: &Option<JsonValue>, name: &str) -> (r: Result<StrMap<ServiceBinding>, String>)
    ensures
        match r {
            Ok(m) => is_binding_map(oview(*f), m),
            Err(_) => forall|m: StrMap<ServiceBinding>| !is_binding_map(oview(*f), m),
        },
{
    let ms = members_field(f, name)?;
    let ghost mv = members_view(ms@);
    let mut m: StrMap<ServiceBinding> = StrMap::new();
    let mut i: usize = 0;
    assert(mv.take(0) =~= Seq::<(Seq<char>, JsonV)>::empty());
    while i < ms.len()
        invariant
            i <= ms@.len(),
            mv == members_view(ms@),
            object_members(oview(*f)) == Some(mv),
            m.wf(),
            forall|k: Seq<char>| #[trigger] m.has(k) <==> member_get(mv.take(i as int), k) is Some,
            forall|k: Seq<char>|
                m.has(k) ==> binding_value(member_get(mv.take(i as int), k)->0, #[trigger] m.get_spec(k)->0),
            forall|j: int| 0 <= j < i ==> readable_binding(#[trigger] mv[j].1),
        decreases ms.len() - i,
    {
        assert(mv[i as int] == (ms@[i as int].0@, ms@[i as int].1@));
        let value = match read_binding(&ms[i].1) {
            Some(v) => v,
            None => {
                proof {
                    assert(!readable_binding(mv[i as int].1));
                }
                return Err(field_error("invalid entry in map field", name));
            },
        };
        let ghost before = m;
        let ghost t = mv.take(i as int);
        assert(mv.take(i + 1) =~= t.push(mv[i as int]));
        if !m.contains_key(ms[i].0.as_str()) {
            m.insert(ms[i].0.clone(), value);
        }
        proof {
            assert forall|k: Seq<char>| #[trigger] m.has(k) <==> member_get(mv.take(i + 1), k) is Some by {
                lemma_member_get_push(t, mv[i as int], k);
                assert(m.has(k) == m.get_spec(k) is Some);
                assert(before.has(k) == before.get_spec(k) is Some);
            }
            assert forall|k: Seq<char>|
                m.has(k) implies binding_value(member_get(mv.take(i + 1), k)->0, #[trigger] m.get_spec(k)->0) by {
                lemma_member_get_push(t, mv[i as int], k);
                assert(m.has(k) == m.get_spec(k) is Some);
                assert(before.has(k) == before.get_spec(k) is Some);
            }
        }
        i = i + 1;
    }
    assert(mv.take(i as int) =~= mv);
    Ok(m)
}

} // verus!

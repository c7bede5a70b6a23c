use vstd::prelude::*;
use vstd::string::*;

use crate::text::{
    chars_of, find_char, find_from, find_from_exec, occurs_at, seq_eq, slice_of, str_eq,
    strip_prefix, strip_prefix_seq,
};

verus! {

/// A JSON document as the engine sees it: payloads, request bodies and
/// response documents. Object members are kept in key order.
#[derive(Debug, PartialEq)]
pub enum JsonValue {
    Null,
    Bool(bool),
    /// A number, held as its canonical JSON text (for example `2`, `-7`, `1.5`).
    Number(String),
    String(String),
    Array(Vec<JsonValue>),
    Object(Vec<(String, JsonValue)>),
}

/// The mathematical model of a [`JsonValue`].
pub enum JsonV {
    Null,
    Bool(bool),
    Number(Seq<char>),
    Str(Seq<char>),
    Array(Seq<JsonV>),
    Object(Seq<(Seq<char>, JsonV)>),
}

pub open spec fn json_view(v: JsonValue) -> JsonV
    decreases v,
{
    match v {
        JsonValue::Null => JsonV::Null,
        JsonValue::Bool(b) => JsonV::Bool(b),
        JsonValue::Number(n) => JsonV::Number(n@),
        JsonValue::String(s) => JsonV::Str(s@),
        JsonValue::Array(items) => JsonV::Array(
            Seq::new(
                items@.len(),
                |i: int|
                    if 0 <= i < items@.len() {
                        proof {
                            assert(decreases_to!(items => items@));
                            assert(decreases_to!(items@ => items@[i]));
                        }
                        json_view(items@[i])
                    } else {
                        JsonV::Null
                    },
            ),
        ),
        JsonValue::Object(members) => JsonV::Object(
            Seq::new(
                members@.len(),
                |i: int|
                    if 0 <= i < members@.len() {
                        proof {
                            assert(decreases_to!(members => members@));
                            assert(decreases_to!(members@ => members@[i]));
                            assert(decreases_to!(members@[i] => members@[i].1));
                        }
                        (members@[i].0@, json_view(members@[i].1))
                    } else {
                        (Seq::empty(), JsonV::Null)
                    },
            ),
        ),
    }
}

impl View for JsonValue {
    type V = JsonV;

    open spec fn view(&self) -> JsonV {
        json_view(*self)
    }
}

/// The views of the members of an object, in order.
pub open spec fn members_view(m: Seq<(String, JsonValue)>) -> Seq<(Seq<char>, JsonV)> {
    Seq::new(m.len(), |i: int| (m[i].0@, json_view(m[i].1)))
}

/// The views of the items of an array, in order.
pub open spec fn items_view(items: Seq<JsonValue>) -> Seq<JsonV> {
    Seq::new(items.len(), |i: int| json_view(items[i]))
}

pub proof fn lemma_object_view(members: Vec<(String, JsonValue)>)
    ensures
        JsonValue::Object(members)@ == JsonV::Object(members_view(members@)),
{
    let v = json_view(JsonValue::Object(members));
    let m = v->Object_0;
    assert(m.len() == members@.len());
    assert forall|i: int| 0 <= i < m.len() implies m[i] == members_view(members@)[i] by {}
    assert(m =~= members_view(members@));
}

pub proof fn lemma_array_view(items: Vec<JsonValue>)
    ensures
        JsonValue::Array(items)@ == JsonV::Array(items_view(items@)),
{
    let v = json_view(JsonValue::Array(items));
    let m = v->Array_0;
    assert(m.len() == items@.len());
    assert forall|i: int| 0 <= i < m.len() implies m[i] == items_view(items@)[i] by {}
    assert(m =~= items_view(items@));
}

/// The first index at or after `i` of a member named `key`.
pub open spec fn member_index_from(m: Seq<(Seq<char>, JsonV)>, key: Seq<char>, i: int) -> Option<
    int,
>
    decreases m.len() - i,
{
    if i < 0 || i >= m.len() {
        None
    } else if m[i].0 == key {
        Some(i)
    } else {
        member_index_from(m, key, i + 1)
    }
}

/// `Map::get`: the value of the member named `key`.
pub open spec fn member_get(m: Seq<(Seq<char>, JsonV)>, key: Seq<char>) -> Option<JsonV> {
    match member_index_from(m, key, 0) {
        Some(i) => Some(m[i].1),
        None => None,
    }
}

/// `Value::get` with a member name: only objects have members.
pub open spec fn json_get(v: JsonV, key: Seq<char>) -> Option<JsonV> {
    match v {
        JsonV::Object(m) => member_get(m, key),
        _ => None,
    }
}

/// Splits `s` at every occurrence of `c` (`str::split`).
pub open spec fn split_char(s: Seq<char>, c: char) -> Seq<Seq<char>>
    decreases s.len(),
{
    match find_char(s, c) {
        Some(i) => if 0 <= i < s.len() {
            seq![s.subrange(0, i)] + split_char(s.subrange(i + 1, s.len() as int), c)
        } else {
            seq![s]
        },
        None => seq![s],
    }
}

/// Follows member names from `v`, one per segment.
pub open spec fn follow_members(v: JsonV, segments: Seq<Seq<char>>) -> Option<JsonV>
    decreases segments.len(),
{
    if segments.len() == 0 {
        Some(v)
    } else {
        match json_get(v, segments[0]) {
            Some(next) => follow_members(next, segments.drop_first()),
            None => None,
        }
    }
}

/// The path with a leading `$.` or `payload.` removed.
pub open spec fn payload_path_body(path: Seq<char>) -> Seq<char> {
    match strip_prefix(path, "$."@) {
        Some(rest) => rest,
        None => match strip_prefix(path, "payload."@) {
            Some(rest) => rest,
            None => path,
        },
    }
}

/// What a dot-separated payload path selects in a payload.
pub open spec fn payload_lookup(payload: JsonV, path: Seq<char>) -> Option<JsonV> {
    let body = payload_path_body(path);
    if body == "$"@ || body == "payload"@ || body.len() == 0 {
        Some(payload)
    } else {
        follow_members(payload, split_char(body, '.'))
    }
}

/// The compact JSON text of a value, as `serde_json` writes it.
pub uninterp spec fn json_text(v: JsonV) -> Seq<char>;

/// What `serde_json` parses a text into, if it is JSON.
pub uninterp spec fn json_parse(text: Seq<char>) -> Option<JsonV>;

/// The text that stands for a value inside an interpolated template.
pub open spec fn template_text(v: JsonV) -> Seq<char> {
    match v {
        JsonV::Str(s) => s,
        JsonV::Number(n) => n,
        JsonV::Bool(b) => if b {
            "true"@
        } else {
            "false"@
        },
        JsonV::Null => "null"@,
        _ => json_text(v),
    }
}

impl Clone for JsonValue {
    #[verifier::loop_isolation(false)]
    fn clone(&self) -> (r: Self)
        ensures
            r@ == self@,
        decreases self,
    {
        match self {
            JsonValue::Null => JsonValue::Null,
            JsonValue::Bool(b) => JsonValue::Bool(*b),
            JsonValue::Number(n) => JsonValue::Number(n.clone()),
            JsonValue::String(s) => JsonValue::String(s.clone()),
            JsonValue::Array(items) => {
                let mut out: Vec<JsonValue> = Vec::new();
                let mut i: usize = 0;
                while i < items.len()
                    invariant
                        i <= items.len(),
                        out@.len() == i,
                        forall|j: int| 0 <= j < i ==> #[trigger] out@[j]@ == items@[j]@,
                    decreases items.len() - i,
                {
                    proof {
                        assert(decreases_to!(*self => *items));
                        assert(decreases_to!(*items => items@));
                        assert(decreases_to!(items@ => items@[i as int]));
                    }
                    let c = items[i].clone();
                    out.push(c);
                    i = i + 1;
                }
                proof {
                    lemma_array_view(out);
                    lemma_array_view(*items);
                    assert forall|j: int| 0 <= j < out@.len() implies items_view(out@)[j]
                        == items_view(items@)[j] by {
                        assert(out@[j]@ == items@[j]@);
                    }
                    assert(items_view(out@) =~= items_view(items@));
                }
                JsonValue::Array(out)
            },
            JsonValue::Object(members) => {
                let mut out: Vec<(String, JsonValue)> = Vec::new();
                let mut i: usize = 0;
                while i < members.len()
                    invariant
                        i <= members.len(),
                        out@.len() == i,
                        forall|j: int|
                            0 <= j < i ==> #[trigger] out@[j].0@ == members@[j].0@ && out@[j].1@
                                == members@[j].1@,
                    decreases members.len() - i,
                {
                    proof {
                        assert(decreases_to!(*self => *members));
                        assert(decreases_to!(*members => members@));
                        assert(decreases_to!(members@ => members@[i as int]));
                        assert(decreases_to!(members@[i as int] => members@[i as int].1));
                    }
                    let k = members[i].0.clone();
                    let v = members[i].1.clone();
                    out.push((k, v));
                    i = i + 1;
                }
                proof {
                    lemma_object_view(out);
                    lemma_object_view(*members);
                    assert(members_view(out@) =~= members_view(members@));
                }
                JsonValue::Object(out)
            },
        }
    }
}

impl JsonValue {
    /// Parses JSON text; `None` where the text is not JSON.
    pub fn parse(text: &str) -> (r: Option<JsonValue>)
        ensures
            r is Some <==> json_parse(text@) is Some,
            r is Some ==> r->0@ == json_parse(text@)->0,
    {
        parse_json_text(text)
    }

    /// The compact JSON text of this value.
    pub fn to_json_text(&self) -> (r: String)
        ensures
            r@ == json_text(self@),
    {
        json_to_text(self)
    }

    /// The member named `key`, where this is an object that has one.
    pub fn get(&self, key: &str) -> (r: Option<JsonValue>)
        ensures
            r is Some <==> json_get(self@, key@) is Some,
            r is Some ==> r->0@ == json_get(self@, key@)->0,
    {
        let k = chars_of(key);
        json_get_exec(self, &k)
    }

    /// An object with the given members.
    pub fn object(members: Vec<(String, JsonValue)>) -> (r: JsonValue)
        ensures
            r == JsonValue::Object(members),
    {
        JsonValue::Object(members)
    }
}

/// Whether two values are equal as JSON (`serde_json::Value`'s `==`).
#[verifier::loop_isolation(false)]
pub fn json_equal(a: &JsonValue, b: &JsonValue) -> (r: bool)
    ensures
        r == (a@ == b@),
    decreases a,
{
    match (a, b) {
        (JsonValue::Null, JsonValue::Null) => true,
        (JsonValue::Bool(x), JsonValue::Bool(y)) => *x == *y,
        (JsonValue::Number(x), JsonValue::Number(y)) => str_eq(x.as_str(), y.as_str()),
        (JsonValue::String(x), JsonValue::String(y)) => str_eq(x.as_str(), y.as_str()),
        (JsonValue::Array(xs), JsonValue::Array(ys)) => {
            proof {
                lemma_array_view(*xs);
                lemma_array_view(*ys);
            }
            if xs.len() != ys.len() {
                assert(items_view(xs@).len() != items_view(ys@).len());
                return false;
            }
            let mut i: usize = 0;
            while i < xs.len()
                invariant
                    xs.len() == ys.len(),
                    i <= xs.len(),
                    forall|j: int| 0 <= j < i ==> #[trigger] xs@[j]@ == ys@[j]@,
                decreases xs.len() - i,
            {
                proof {
                    assert(decreases_to!(*a => *xs));
                    assert(decreases_to!(*xs => xs@));
                    assert(decreases_to!(xs@ => xs@[i as int]));
                }
                if !json_equal(&xs[i], &ys[i]) {
                    assert(items_view(xs@)[i as int] != items_view(ys@)[i as int]);
                    return false;
                }
                i = i + 1;
            }
            assert forall|j: int| 0 <= j < xs@.len() implies items_view(xs@)[j] == items_view(
                ys@,
            )[j] by {
                assert(xs@[j]@ == ys@[j]@);
            }
            assert(items_view(xs@) =~= items_view(ys@));
            true
        },
        (JsonValue::Object(xs), JsonValue::Object(ys)) => {
            proof {
                lemma_object_view(*xs);
                lemma_object_view(*ys);
            }
            if xs.len() != ys.len() {
                assert(members_view(xs@).len() != members_view(ys@).len());
                return false;
            }
            let mut i: usize = 0;
            while i < xs.len()
                invariant
                    xs.len() == ys.len(),
                    i <= xs.len(),
                    forall|j: int| 0 <= j < i ==> (#[trigger] xs@[j]).0@ == ys@[j].0@,
                    forall|j: int| 0 <= j < i ==> (#[trigger] xs@[j]).1@ == ys@[j].1@,
                decreases xs.len() - i,
            {
                proof {
                    assert(decreases_to!(*a => *xs));
                    assert(decreases_to!(*xs => xs@));
                    assert(decreases_to!(xs@ => xs@[i as int]));
                    assert(decreases_to!(xs@[i as int] => xs@[i as int].1));
                }
                if !str_eq(xs[i].0.as_str(), ys[i].0.as_str()) {
                    assert(members_view(xs@)[i as int] != members_view(ys@)[i as int]);
                    return false;
                }
                if !json_equal(&xs[i].1, &ys[i].1) {
                    assert(members_view(xs@)[i as int] != members_view(ys@)[i as int]);
                    return false;
                }
                assert(xs@[i as int].0@ == ys@[i as int].0@ && xs@[i as int].1@ == ys@[
                    i as int
                ].1@);
                i = i + 1;
            }
            assert(members_view(xs@) =~= members_view(ys@));
            true
        },
        _ => false,
    }
}

/// The value of the member named `key`, where `v` is an object that has one.
#[verifier::loop_isolation(false)]
pub fn json_get_exec(v: &JsonValue, key: &Vec<char>) -> (r: Option<JsonValue>)
    ensures
        r is Some <==> json_get(v@, key@) is Some,
        r is Some ==> r->0@ == json_get(v@, key@)->0,
{
    match v {
        JsonValue::Object(members) => {
            proof {
                lemma_object_view(*members);
            }
            let ghost mv = members_view(members@);
            let mut i: usize = 0;
            while i < members.len()
                invariant
                    i <= members.len(),
                    mv == members_view(members@),
                    member_index_from(mv, key@, 0) == member_index_from(mv, key@, i as int),
                decreases members.len() - i,
            {
                let k = chars_of(members[i].0.as_str());
                assert(mv[i as int].0 == members@[i as int].0@);
                if seq_eq(&k, key) {
                    assert(member_index_from(mv, key@, i as int) == Some(i as int));
                    return Some(members[i].1.clone());
                }
                i = i + 1;
            }
            assert(member_index_from(mv, key@, i as int) is None);
            None
        },
        _ => None,
    }
}

/// Splits `s` at every `c`.
pub fn split_char_exec(s: &Vec<char>, c: char) -> (r: Vec<Vec<char>>)
    ensures
        r@.len() == split_char(s@, c).len(),
        forall|i: int| 0 <= i < r@.len() ==> #[trigger] r@[i]@ == split_char(s@, c)[i],
    decreases s.len(),
{
    let pat = vec![c];
    assert(pat@ == seq![c]);
    match find_from_exec(s, &pat, 0) {
        Some(i) => {
            proof {
                lemma_find_from_bounds(s@, seq![c], 0);
            }
            let head = slice_of(s, 0, i);
            let tail = slice_of(s, i + 1, s.len());
            let rest = split_char_exec(&tail, c);
            let mut out: Vec<Vec<char>> = Vec::new();
            out.push(head);
            let mut j: usize = 0;
            while j < rest.len()
                invariant
                    j <= rest.len(),
                    out@.len() == j + 1,
                    out@[0]@ == s@.subrange(0, i as int),
                    forall|k: int| 0 <= k < j ==> #[trigger] out@[k + 1]@ == rest@[k]@,
                decreases rest.len() - j,
            {
                out.push(rest[j].clone());
                j = j + 1;
            }
            proof {
                let sp = split_char(s@, c);
                assert(sp == seq![s@.subrange(0, i as int)] + split_char(tail@, c));
                assert forall|k: int| 0 <= k < out@.len() implies #[trigger] out@[k]@ == sp[k] by {
                    if k > 0 {
                        assert(out@[(k - 1) + 1]@ == rest@[k - 1]@);
                    }
                }
            }
            out
        },
        None => {
            let mut out: Vec<Vec<char>> = Vec::new();
            out.push(s.clone());
            out
        },
    }
}

pub proof fn lemma_find_from_bounds(s: Seq<char>, pat: Seq<char>, from: int)
    ensures
        find_from(s, pat, from) matches Some(i) ==> from <= i && i + pat.len() <= s.len()
            && occurs_at(s, pat, i),
    decreases s.len() + 1 - from,
{
    if from < 0 || from + pat.len() > s.len() {
    } else if occurs_at(s, pat, from) {
    } else {
        lemma_find_from_bounds(s, pat, from + 1);
    }
}

/// The value that a dot-separated payload path selects (`a.b.c`, `$.a.b`, `payload.a`).
pub fn lookup_payload_path(payload: &JsonValue, path: &str) -> (r: Option<JsonValue>)
    ensures
        r is Some <==> payload_lookup(payload@, path@) is Some,
        r is Some ==> r->0@ == payload_lookup(payload@, path@)->0,
{
    let p = chars_of(path);
    let dollar = chars_of("$.");
    let pay = chars_of("payload.");
    let body = match strip_prefix_seq(&p, &dollar) {
        Some(rest) => rest,
        None => match strip_prefix_seq(&p, &pay) {
            Some(rest) => rest,
            None => p,
        },
    };
    assert(body@ == payload_path_body(path@));
    let root = chars_of("$");
    let whole = chars_of("payload");
    if seq_eq(&body, &root) || seq_eq(&body, &whole) || body.len() == 0 {
        return Some(payload.clone());
    }
    let segments = split_char_exec(&body, '.');
    let ghost segs = split_char(body@, '.');
    let mut current = payload.clone();
    let mut i: usize = 0;
    assert(segs.skip(0) =~= segs);
    while i < segments.len()
        invariant
            i <= segments.len(),
            segments@.len() == segs.len(),
            forall|k: int| 0 <= k < segments@.len() ==> #[trigger] segments@[k]@ == segs[k],
            follow_members(payload@, segs) == follow_members(current@, segs.skip(i as int)),
            payload_lookup(payload@, path@) == follow_members(payload@, segs),
        decreases segments.len() - i,
    {
        assert(segs.skip(i as int)[0] == segs[i as int]);
        assert(segs.skip(i as int).drop_first() =~= segs.skip(i + 1));
        match json_get_exec(&current, &segments[i]) {
            Some(next) => {
                current = next;
            },
            None => {
                assert(follow_members(current@, segs.skip(i as int)) is None);
                return None;
            },
        }
        i = i + 1;
    }
    assert(segs.skip(segments@.len() as int).len() == 0);
    Some(current)
}

/// The text that stands for a value inside an interpolated template.
pub fn template_value_to_string(v: &JsonValue) -> (r: String)
    ensures
        r@ == template_text(v@),
{
    match v {
        JsonValue::String(s) => s.clone(),
        JsonValue::Number(n) => n.clone(),
        JsonValue::Bool(b) => if *b {
            String::from_str("true")
        } else {
            String::from_str("false")
        },
        JsonValue::Null => String::from_str("null"),
        _ => json_to_text(v),
    }
}

/// `serde_json::Value`, carried through the conversions below.
#[verifier::external_type_specification]
#[verifier::external_body]
pub struct ExSerdeJsonValue(serde_json::Value);

/// Builds the `serde_json` value that mirrors `v`.
#[verifier::external_body]
pub(crate) fn to_serde(v: &JsonValue) -> serde_json::Value {
    match v {
        JsonValue::Null => serde_json::Value::Null,
        JsonValue::Bool(b) => serde_json::Value::Bool(*b),
        JsonValue::Number(n) => n.parse::<serde_json::Number>().map_or(
            serde_json::Value::Null,
            serde_json::Value::Number,
        ),
        JsonValue::String(s) => serde_json::Value::String(s.clone()),
        JsonValue::Array(items) => serde_json::Value::Array(items.iter().map(to_serde).collect()),
        JsonValue::Object(m) => serde_json::Value::Object(
            m.iter().map(|(k, v)| (k.clone(), to_serde(v))).collect(),
        ),
    }
}

/// Builds the library value that mirrors a `serde_json` value.
#[verifier::external_body]
pub(crate) fn from_serde(v: &serde_json::Value) -> JsonValue {
    match v {
        serde_json::Value::Null => JsonValue::Null,
        serde_json::Value::Bool(b) => JsonValue::Bool(*b),
        serde_json::Value::Number(n) => JsonValue::Number(n.to_string()),
        serde_json::Value::String(s) => JsonValue::String(s.clone()),
        serde_json::Value::Array(items) => JsonValue::Array(items.iter().map(from_serde).collect()),
        serde_json::Value::Object(m) => JsonValue::Object(
            m.iter().map(|(k, v)| (k.clone(), from_serde(v))).collect(),
        ),
    }
}

/// `serde_json::to_string` on a value: its compact JSON text; `null`, `true` and `false`
/// for the scalars that have no other form.
#[verifier::external_body]
fn json_to_text(v: &JsonValue) -> (r: String)
    ensures
        r@ == json_text(v@),
        v@ == JsonV::Null ==> r@ == "null"@,
        v@ == JsonV::Bool(true) ==> r@ == "true"@,
        v@ == JsonV::Bool(false) ==> r@ == "false"@,
{
    serde_json::to_string(&to_serde(v)).unwrap_or_default()
}

/// `serde_json::from_str` into a value: `None` where the text is not JSON.
#[verifier::external_body]
fn parse_json_text(text: &str) -> (r: Option<JsonValue>)
    ensures
        r is Some <==> json_parse(text@) is Some,
        r is Some ==> r->0@ == json_parse(text@)->0,
{
    serde_json::from_str::<serde_json::Value>(text).ok().map(|v| from_serde(&v))
}

pub proof fn lemma_member_index_bounds(m: Seq<(Seq<char>, JsonV)>, key: Seq<char>, i: int)
    ensures
        member_index_from(m, key, i) matches Some(j) ==> i <= j < m.len() && m[j].0 == key,
    decreases m.len() - i,
{
    if 0 <= i < m.len() && m[i].0 != key {
        lemma_member_index_bounds(m, key, i + 1);
    }
}

/// Copies of the items of an array, in order.
pub fn clone_items(items: &Vec<JsonValue>) -> (r: Vec<JsonValue>)
    ensures
        items_view(r@) == items_view(items@),
{
    let mut r: Vec<JsonValue> = Vec::new();
    let mut i: usize = 0;
    while i < items.len()
        invariant
            i <= items@.len(),
            r@.len() == i,
            forall|j: int| 0 <= j < i ==> (#[trigger] r@[j])@ == items@[j]@,
        decreases items.len() - i,
    {
        r.push(items[i].clone());
        i = i + 1;
    }
    assert(items_view(r@) =~= items_view(items@));
    r
}

/// Copies of the members of an object, in order.
pub fn clone_members(members: &Vec<(String, JsonValue)>) -> (r: Vec<(String, JsonValue)>)
    ensures
        members_view(r@) == members_view(members@),
{
    let mut r: Vec<(String, JsonValue)> = Vec::new();
    let mut i: usize = 0;
    while i < members.len()
        invariant
            i <= members@.len(),
            r@.len() == i,
            forall|j: int|
                0 <= j < i ==> (#[trigger] r@[j]).0@ == members@[j].0@ && r@[j].1@ == members@[j].1@,
        decreases members.len() - i,
    {
        r.push((members[i].0.clone(), members[i].1.clone()));
        i = i + 1;
    }
    assert(members_view(r@) =~= members_view(members@));
    r
}

} // verus!

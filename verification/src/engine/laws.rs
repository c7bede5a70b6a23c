use vstd::prelude::*;

use super::http::{
    crlf2, header_map, http_response, join_amp, percent_encoding, query_pairs, rest_request, BodyV, RequestV,
};
use super::runner::assertion_observed;
use super::template::{interpolate, resolve_expr};
use crate::domain::effect::{AssertEffect, RestEffect};
use crate::domain::environment::RuntimeEnvironment;
use crate::domain::observation::Observation;
use crate::json::{json_get, json_parse, payload_lookup, split_char, JsonV};
use crate::loader::validate::{template_problem, template_scan, valid_expression};
use crate::text::{to_ascii_lowercase, find, find_from, lemma_find_from_first, lemma_find_from_none, lemma_find_from_some, occurs_at, trim};

verus! {

// ---------------------------------------------------------------------------------------
// Assertions
// ---------------------------------------------------------------------------------------

/// An assert effect passes only where its path selects a value in the payload and that value
/// is the expected one; where the path selects nothing, it fails with no actual value, and
/// where it selects another value, it fails with that value.
pub proof fn law_assertion_passes_only_on_the_expected_value(o: Observation, a: AssertEffect, payload: JsonV)
    requires
        assertion_observed(o, a, payload),
    ensures
        o is AssertionPassed ==> payload_lookup(payload, a.path@) == Some(a.equals@),
        payload_lookup(payload, a.path@) is None ==> (o matches Observation::AssertionFailed { actual, .. }
            && actual is None),
        payload_lookup(payload, a.path@) is Some && payload_lookup(payload, a.path@)->0 != a.equals@
            ==> (o matches Observation::AssertionFailed { actual, .. } && actual matches Some(x) && x@
            == payload_lookup(payload, a.path@)->0),
        payload_lookup(payload, a.path@) == Some(a.equals@) ==> o is AssertionPassed,
{
}

/// A payload path that is one member name (no `.`, and neither `$` nor `payload`) selects
/// that member of the payload, and nothing where the payload has no such member.
pub proof fn law_payload_path_selects_the_member(payload: JsonV, k: Seq<char>)
    requires
        k.len() > 0,
        forall|i: int| 0 <= i < k.len() ==> k[i] != '.',
        k != "$"@,
        k != "payload"@,
    ensures
        payload_lookup(payload, k) == json_get(payload, k),
{
    reveal_strlit("$.");
    reveal_strlit("payload.");
    reveal_strlit("$");
    reveal_strlit("payload");
    assert(!crate::text::is_prefix("$."@, k)) by {
        if crate::text::is_prefix("$."@, k) {
            assert(k[1] == k.subrange(0, 2)[1]);
        }
    }
    assert(!crate::text::is_prefix("payload."@, k)) by {
        if crate::text::is_prefix("payload."@, k) {
            assert(k[7] == k.subrange(0, 8)[7]);
        }
    }
    crate::text::lemma_find_bounds_any(k, seq!['.']);
    if let Some(i) = find(k, seq!['.']) {
        assert(k[i] == k.subrange(i, i + 1)[0]);
    }
    assert(split_char(k, '.') == seq![k]);
    let segs = seq![k];
    assert(segs.drop_first() =~= Seq::<Seq<char>>::empty());
    assert(crate::json::payload_path_body(k) == k);
    if let Some(next) = json_get(payload, k) {
        assert(crate::json::follow_members(next, Seq::<Seq<char>>::empty()) == Some(next));
    }
    assert(crate::json::follow_members(payload, segs) == json_get(payload, k));
}

/// Joining pairs with `&` keeps every pair: one pair is itself, and a further pair is
/// joined after an `&`.
pub proof fn law_join_amp_keeps_every_pair(ps: Seq<Seq<char>>, x: Seq<char>)
    ensures
        join_amp(seq![x]) == x,
        ps.len() > 0 ==> join_amp(ps.push(x)) == join_amp(ps) + "&"@ + x,
{
    assert(ps.push(x).drop_last() =~= ps);
}

// ---------------------------------------------------------------------------------------
// HTTP responses
// ---------------------------------------------------------------------------------------

/// A response whose content type names `application/json` anywhere in its value (such as
/// `application/json; charset=utf-8`) never keeps as text a body that parses as JSON.
pub proof fn law_json_content_type_reads_json(operation: Seq<char>, text: Seq<char>, i: int)
    requires
        http_response(operation, text) matches Ok(r) && r.1.dom().contains("content-type"@)
            && occurs_at(r.1["content-type"@], "application/json"@, i),
    ensures
        http_response(operation, text) matches Ok(r) && (r.2 matches BodyV::Text(t) ==> json_parse(t) is None),
{
    let r = http_response(operation, text)->Ok_0;
    lemma_find_from_some(r.1["content-type"@], "application/json"@, 0, i);
}

/// The body of a response is what follows its first blank line: read as the JSON value it
/// parses into where the content type names `application/json` anywhere in its value and
/// the body is not empty.
pub proof fn law_json_body_follows_the_head(operation: Seq<char>, text: Seq<char>, i: int, k: int)
    requires
        occurs_at(text, crlf2(), i),
        forall|j: int| 0 <= j < i ==> !occurs_at(text, crlf2(), j),
        text.len() > i + 4,
        json_parse(text.subrange(i + 4, text.len() as int)) is Some,
        http_response(operation, text) matches Ok(r) && r.1.dom().contains("content-type"@)
            && occurs_at(r.1["content-type"@], "application/json"@, k),
    ensures
        http_response(operation, text) matches Ok(r) && r.2 == BodyV::Json(
            json_parse(text.subrange(i + 4, text.len() as int))->0,
        ),
{
    lemma_find_from_first(text, crlf2(), 0, i);
    let r = http_response(operation, text)->Ok_0;
    lemma_find_from_some(r.1["content-type"@], "application/json"@, 0, k);
}

/// A header line `name: value`, with no `:` in the name, gives the header named by the
/// trimmed, lowercased name the trimmed value, over any earlier line.
pub proof fn law_header_line_is_read(ls: Seq<Seq<char>>, name: Seq<char>, value: Seq<char>)
    requires
        forall|i: int| 0 <= i < name.len() ==> name[i] != ':',
    ensures
        header_map(ls.push(name + seq![':'] + value)).dom().contains(to_ascii_lowercase(trim(name))),
        header_map(ls.push(name + seq![':'] + value))[to_ascii_lowercase(trim(name))] == trim(value),
{
    let l = name + seq![':'] + value;
    let n = name.len() as int;
    assert(l.subrange(n, n + 1) =~= seq![':']);
    assert forall|j: int| 0 <= j < n implies !occurs_at(l, seq![':'], j) by {
        assert(l[j] == name[j]);
        assert(l.subrange(j, j + 1)[0] == l[j]);
    }
    lemma_find_from_first(l, seq![':'], 0, n);
    assert(l.subrange(0, n) =~= name);
    assert(l.subrange(n + 1, l.len() as int) =~= value);
    assert(ls.push(l).drop_last() =~= ls);
}

// ---------------------------------------------------------------------------------------
// Query strings
// ---------------------------------------------------------------------------------------

/// Whether `ps` holds one `key=value` pair per query entry, in order: the key and the
/// interpolated value, both percent-encoded.
pub open spec fn encodes_query(
    ps: Seq<Seq<char>>,
    items: Seq<(String, String)>,
    payload: JsonV,
    env: RuntimeEnvironment,
) -> bool {
    &&& ps.len() == items.len()
    &&& forall|k: int|
        0 <= k < items.len() ==> (interpolate((#[trigger] items[k]).1@, items[k].1@, payload, env) matches Ok(v)
            && ps[k] == percent_encoding(items[k].0@) + "="@ + percent_encoding(v))
}

/// The pairs of a query hold one pair for each entry, in order, and they are built exactly
/// when every entry's value interpolates.
pub proof fn law_query_pairs_one_per_entry(items: Seq<(String, String)>, payload: JsonV, env: RuntimeEnvironment)
    ensures
        query_pairs(items, payload, env) matches Ok(ps) ==> encodes_query(ps, items, payload, env),
        query_pairs(items, payload, env) is Err <==> exists|k: int|
            0 <= k < items.len() && (interpolate((#[trigger] items[k]).1@, items[k].1@, payload, env) is Err),
    decreases items.len(),
{
    if items.len() > 0 {
        let init = items.drop_last();
        law_query_pairs_one_per_entry(init, payload, env);
        assert forall|k: int| 0 <= k < init.len() implies #[trigger] init[k] == items[k] by {}
        let last = items.len() - 1;
        assert(items[last] == items.last());
        if query_pairs(init, payload, env) is Err {
            let k = choose|k: int| 0 <= k < init.len() && (interpolate((#[trigger] init[k]).1@, init[k].1@, payload, env) is Err);
            assert(items[k] == init[k]);
        }
        if query_pairs(items, payload, env) is Ok {
            let ps = query_pairs(items, payload, env)->Ok_0;
            let p0 = query_pairs(init, payload, env)->Ok_0;
            assert(ps == p0.push(ps.last()));
            assert forall|k: int| 0 <= k < items.len() implies (interpolate((#[trigger] items[k]).1@, items[k].1@, payload, env) matches Ok(v)
                && ps[k] == percent_encoding(items[k].0@) + "="@ + percent_encoding(v)) by {
                if k < last {
                    assert(init[k] == items[k]);
                    assert(ps[k] == p0[k]);
                }
            }
            assert forall|k: int| 0 <= k < items.len() implies (interpolate((#[trigger] items[k]).1@, items[k].1@, payload, env) is Ok) by {
                if k < last {
                    assert(init[k] == items[k]);
                }
            }
        }
    }
}

/// The request of a REST effect with a query carries, after its interpolated path and `?`,
/// one percent-encoded `key=value` pair for every query entry, in key order, joined by `&`.
pub proof fn law_rest_query_string(rest: RestEffect, payload: JsonV, env: RuntimeEnvironment)
    requires
        rest_request(rest, payload, env) is Ok,
        rest.query.items().len() > 0,
    ensures
        interpolate(rest.path@, rest.path@, payload, env) is Ok,
        exists|ps: Seq<Seq<char>>|
            #[trigger] encodes_query(ps, rest.query.items(), payload, env)
                && rest_request(rest, payload, env)->Ok_0.path_and_query == interpolate(
                rest.path@,
                rest.path@,
                payload,
                env,
            )->Ok_0 + "?"@ + join_amp(ps),
{
    law_query_pairs_one_per_entry(rest.query.items(), payload, env);
    let p = interpolate(rest.path@, rest.path@, payload, env)->Ok_0;
    let ps = query_pairs(rest.query.items(), payload, env)->Ok_0;
    assert(encodes_query(ps, rest.query.items(), payload, env));
}


// ---------------------------------------------------------------------------------------
// Templates
// ---------------------------------------------------------------------------------------

/// The text `a`, then a template around the expression text `e`, then `b`.
pub open spec fn spliced(a: Seq<char>, e: Seq<char>, b: Seq<char>) -> Seq<char> {
    a + seq!['{', '{'] + e + seq!['}', '}'] + b
}

/// Where the string being interpolated is named only for its error messages, interpolating
/// a text succeeds, and with what, whatever that string is.
proof fn lemma_interpolate_any_template(
    rem: Seq<char>,
    t1: Seq<char>,
    t2: Seq<char>,
    payload: JsonV,
    env: RuntimeEnvironment,
)
    ensures
        (interpolate(rem, t1, payload, env) is Ok) == (interpolate(rem, t2, payload, env) is Ok),
        interpolate(rem, t1, payload, env) is Ok ==> interpolate(rem, t1, payload, env) == interpolate(
            rem,
            t2,
            payload,
            env,
        ),
    decreases rem.len(),
{
    crate::text::lemma_find_bounds_any(rem, seq!['{', '{']);
    if let Some(start) = find(rem, seq!['{', '{']) {
        if 0 <= start && start + 2 <= rem.len() {
            let after = rem.subrange(start + 2, rem.len() as int);
            crate::text::lemma_find_bounds_any(after, seq!['}', '}']);
            if let Some(end) = find(after, seq!['}', '}']) {
                if 0 <= end && end + 2 <= after.len() {
                    lemma_interpolate_any_template(
                        after.subrange(end + 2, after.len() as int),
                        t1,
                        t2,
                        payload,
                        env,
                    );
                }
            }
        }
    }
}

/// In `spliced(a, e, b)`, where `a` holds no brace and `e` no closing brace, the first
/// template opens right after `a` and closes right after `e`.
proof fn lemma_spliced_delimiters(a: Seq<char>, e: Seq<char>, b: Seq<char>)
    requires
        forall|i: int| 0 <= i < a.len() ==> a[i] != '{' && a[i] != '}',
        forall|i: int| 0 <= i < e.len() ==> e[i] != '}',
    ensures
        find(spliced(a, e, b), seq!['{', '{']) == Some(a.len() as int),
        find(spliced(a, e, b), seq!['}', '}']) == Some(a.len() as int + 2 + e.len() as int),
        find(spliced(a, e, b).subrange(a.len() as int + 2, spliced(a, e, b).len() as int), seq!['}', '}'])
            == Some(e.len() as int),
        spliced(a, e, b).subrange(0, a.len() as int) == a,
        spliced(a, e, b).subrange(a.len() as int + 2, spliced(a, e, b).len() as int).subrange(0, e.len() as int) == e,
        spliced(a, e, b).subrange(a.len() as int + 2, spliced(a, e, b).len() as int).subrange(
            e.len() as int + 2,
            spliced(a, e, b).len() - (a.len() + 2),
        ) == b,
{
    let s = spliced(a, e, b);
    let open = seq!['{', '{'];
    let close = seq!['}', '}'];
    let n = a.len() as int;
    let m = e.len() as int;
    assert(s.subrange(n, n + 2) =~= open);
    assert forall|j: int| 0 <= j < n implies !occurs_at(s, open, j) by {
        assert(s[j] == a[j]);
        assert(s.subrange(j, j + 2)[0] == s[j]);
    }
    lemma_find_from_first(s, open, 0, n);
    assert(s.subrange(n + 2 + m, n + 4 + m) =~= close);
    assert forall|j: int| 0 <= j < n + 2 + m implies !occurs_at(s, close, j) by {
        if j + 2 <= s.len() {
            assert(s.subrange(j, j + 2)[0] == s[j]);
            if j < n {
                assert(s[j] == a[j]);
            } else if j < n + 2 {
                assert(s[j] == '{');
            } else {
                assert(s[j] == e[j - n - 2]);
            }
        }
    }
    lemma_find_from_first(s, close, 0, n + 2 + m);
    let after = s.subrange(n + 2, s.len() as int);
    assert(after =~= e + close + b);
    assert(after.subrange(m, m + 2) =~= close);
    assert forall|j: int| 0 <= j < m implies !occurs_at(after, close, j) by {
        assert(after[j] == e[j]);
        assert(after.subrange(j, j + 2)[0] == after[j]);
    }
    lemma_find_from_first(after, close, 0, m);
    assert(s.subrange(0, n) =~= a);
    assert(after.subrange(0, m) =~= e);
    assert(after.subrange(m + 2, after.len() as int) =~= b);
}

/// Interpolation replaces every template, not only the first: after text with no brace, a
/// template whose expression stands for `v` gives that text, then `v`, then what
/// interpolating the rest on its own gives; and it succeeds exactly when that does.
pub proof fn law_interpolation_replaces_every_template(
    a: Seq<char>,
    e: Seq<char>,
    b: Seq<char>,
    payload: JsonV,
    env: RuntimeEnvironment,
    v: Seq<char>,
)
    requires
        forall|i: int| 0 <= i < a.len() ==> a[i] != '{' && a[i] != '}',
        forall|i: int| 0 <= i < e.len() ==> e[i] != '}',
        resolve_expr(trim(e), payload, env) == Ok::<Seq<char>, Seq<char>>(v),
    ensures
        (interpolate(spliced(a, e, b), spliced(a, e, b), payload, env) is Ok) == (interpolate(
            b,
            b,
            payload,
            env,
        ) is Ok),
        interpolate(b, b, payload, env) is Ok ==> interpolate(
            spliced(a, e, b),
            spliced(a, e, b),
            payload,
            env,
        ) == Ok::<Seq<char>, Seq<char>>(a + v + interpolate(b, b, payload, env)->Ok_0),
{
    let s = spliced(a, e, b);
    lemma_spliced_delimiters(a, e, b);
    lemma_interpolate_any_template(b, s, b, payload, env);
    assert(s.subrange(a.len() as int + 2, s.len() as int).len() == s.len() - (a.len() + 2));
}

/// Where an expression cannot stand for anything (an unknown one), interpolating a string
/// that holds it fails, wherever in the string it stands.
pub proof fn law_interpolation_fails_on_any_failing_template(
    a: Seq<char>,
    e: Seq<char>,
    b: Seq<char>,
    payload: JsonV,
    env: RuntimeEnvironment,
)
    requires
        forall|i: int| 0 <= i < a.len() ==> a[i] != '{' && a[i] != '}',
        forall|i: int| 0 <= i < e.len() ==> e[i] != '}',
        resolve_expr(trim(e), payload, env) is Err,
    ensures
        interpolate(spliced(a, e, b), spliced(a, e, b), payload, env) is Err,
{
    lemma_spliced_delimiters(a, e, b);
}

// ---------------------------------------------------------------------------------------
// Template validation
// ---------------------------------------------------------------------------------------

/// Whether checking the templates finds a problem does not depend on the string that the
/// messages name.
proof fn lemma_scan_any_value(v1: Seq<char>, v2: Seq<char>, rem: Seq<char>)
    ensures
        (template_scan(v1, rem) is None) == (template_scan(v2, rem) is None),
    decreases rem.len(),
{
    crate::text::lemma_find_bounds_any(rem, seq!['{', '{']);
    if let Some(o) = find(rem, seq!['{', '{']) {
        if 0 <= o && o + 2 <= rem.len() {
            let after = rem.subrange(o + 2, rem.len() as int);
            crate::text::lemma_find_bounds_any(after, seq!['}', '}']);
            if let Some(c) = find(after, seq!['}', '}']) {
                if 0 <= c && c + 2 <= after.len() {
                    lemma_scan_any_value(v1, v2, after.subrange(c + 2, after.len() as int));
                }
            }
        }
    }
}

/// Validation checks every template of a string, not only the first: after text with no
/// brace, a template with a valid expression leaves the verdict to the rest of the string;
/// one with an expression that is not `event.payload.<name>`, `env.<name>` or
/// `secret.<name>` is refused as an unsupported template expression.
pub proof fn law_every_template_is_checked(a: Seq<char>, e: Seq<char>, b: Seq<char>)
    requires
        forall|i: int| 0 <= i < a.len() ==> a[i] != '{' && a[i] != '}',
        forall|i: int| 0 <= i < e.len() ==> e[i] != '}',
    ensures
        valid_expression(trim(e)) ==> ((template_problem(spliced(a, e, b)) is None) == (template_problem(
            b,
        ) is None)),
        !valid_expression(trim(e)) ==> template_problem(spliced(a, e, b)) == Some(
            "unsupported template expression '"@ + trim(e) + "'"@,
        ),
{
    let s = spliced(a, e, b);
    lemma_spliced_delimiters(a, e, b);
    lemma_scan_any_value(s, b, b);
    assert(s.subrange(a.len() as int + 2, s.len() as int).len() == s.len() - (a.len() + 2));
}


/// Text with no opening brace interpolates to itself.
pub proof fn law_plain_text_interpolates_to_itself(a: Seq<char>, t: Seq<char>, payload: JsonV, env: RuntimeEnvironment)
    requires
        forall|i: int| 0 <= i < a.len() ==> a[i] != '{',
    ensures
        interpolate(a, t, payload, env) == Ok::<Seq<char>, Seq<char>>(a),
{
    assert forall|j: int| 0 <= j implies !occurs_at(a, seq!['{', '{'], j) by {
        if occurs_at(a, seq!['{', '{'], j) {
            assert(a[j] == a.subrange(j, j + 2)[0]);
        }
    }
    lemma_find_from_none(a, seq!['{', '{'], 0);
}

/// Text with no brace has no template problem.
pub proof fn law_plain_text_has_no_template_problem(a: Seq<char>)
    requires
        forall|i: int| 0 <= i < a.len() ==> a[i] != '{' && a[i] != '}',
    ensures
        template_problem(a) is None,
{
    assert forall|j: int| 0 <= j implies !occurs_at(a, seq!['{', '{'], j) && !occurs_at(a, seq!['}', '}'], j) by {
        if occurs_at(a, seq!['{', '{'], j) {
            assert(a[j] == a.subrange(j, j + 2)[0]);
        }
        if occurs_at(a, seq!['}', '}'], j) {
            assert(a[j] == a.subrange(j, j + 2)[0]);
        }
    }
    lemma_find_from_none(a, seq!['{', '{'], 0);
    lemma_find_from_none(a, seq!['}', '}'], 0);
}

} // verus!

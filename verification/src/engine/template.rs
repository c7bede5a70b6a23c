use vstd::prelude::*;

use super::error::EngineError;
use crate::json::{
    lemma_array_view, lemma_object_view, lookup_payload_path, payload_lookup, template_text,
    template_value_to_string, JsonV, JsonValue, items_view, members_view,
};
use crate::domain::environment::RuntimeEnvironment;
use crate::map::StrMap;
use crate::text::{
    chars_of, find, find_from, find_from_exec, occurs_at, push_seq, push_str, slice_of,
    string_of, strip_prefix, strip_prefix_seq, trim, trim_seq,
};

verus! {

/// What a template expression (`event.payload.<path>` or `env.<name>`) stands for.
pub open spec fn resolve_expr(expr: Seq<char>, payload: JsonV, env: RuntimeEnvironment) -> Result<
    Seq<char>,
    Seq<char>,
> {
    match strip_prefix(expr, "event.payload."@) {
        Some(path) => match payload_lookup(payload, path) {
            Some(v) => Ok(template_text(v)),
            None => Err("event payload path '"@ + path + "' was not found"@),
        },
        None => match strip_prefix(expr, "env."@) {
            Some(name) => match env.values.get_spec(name) {
                Some(v) => Ok(v@),
                None => Err("environment value '"@ + name + "' was not found"@),
            },
            None => match strip_prefix(expr, "secret."@) {
                Some(name) => match env.secret_refs.get_spec(name) {
                    Some(v) => Ok(v@),
                    None => Err("secret reference '"@ + name + "' was not found"@),
                },
                None => Err("unsupported template expression '"@ + expr + "'"@),
            },
        },
    }
}

/// The text of `rem` with each `{{ expression }}` replaced by what it stands for;
/// where that fails, the message that says why.
pub open spec fn interpolate(
    rem: Seq<char>,
    template: Seq<char>,
    payload: JsonV,
    env: RuntimeEnvironment,
) -> Result<Seq<char>, Seq<char>>
    decreases rem.len(),
{
    match find(rem, seq!['{', '{']) {
        None => Ok(rem),
        Some(start) => {
            let after = rem.subrange(start + seq!['{', '{'].len(), rem.len() as int);
            if !(0 <= start && start + seq!['{', '{'].len() <= rem.len()) {
                Ok(rem)
            } else {
                match find(after, seq!['}', '}']) {
                    None => Err("unclosed template in '"@ + template + "'"@),
                    Some(end) => if !(0 <= end && end + seq!['}', '}'].len() <= after.len()) {
                        Ok(rem)
                    } else {
                        match resolve_expr(trim(after.subrange(0, end)), payload, env) {
                            Err(m) => Err(m),
                            Ok(v) => match interpolate(
                                after.subrange(end + seq!['}', '}'].len(), after.len() as int),
                                template,
                                payload,
                                env,
                            ) {
                                Ok(r) => Ok(rem.subrange(0, start) + v + r),
                                Err(m) => Err(m),
                            },
                        }
                    },
                }
            }
        },
    }
}

/// The JSON value with each string interpolated; where that fails, the message that says why.
pub open spec fn interpolate_value(v: JsonV, payload: JsonV, env: RuntimeEnvironment) -> Result<
    JsonV,
    Seq<char>,
>
    decreases v,
{
    match v {
        JsonV::Str(s) => match interpolate(s, s, payload, env) {
            Ok(r) => Ok(JsonV::Str(r)),
            Err(m) => Err(m),
        },
        JsonV::Array(items) => match interpolate_items(items, payload, env) {
            Ok(r) => Ok(JsonV::Array(r)),
            Err(m) => Err(m),
        },
        JsonV::Object(members) => match interpolate_members(members, payload, env) {
            Ok(r) => Ok(JsonV::Object(r)),
            Err(m) => Err(m),
        },
        _ => Ok(v),
    }
}

pub open spec fn interpolate_items(items: Seq<JsonV>, payload: JsonV, env: RuntimeEnvironment) -> Result<
    Seq<JsonV>,
    Seq<char>,
>
    decreases items,
{
    if items.len() == 0 {
        Ok(Seq::empty())
    } else {
        match interpolate_items(items.drop_last(), payload, env) {
            Err(m) => Err(m),
            Ok(prefix) => match interpolate_value(items.last(), payload, env) {
                Err(m) => Err(m),
                Ok(x) => Ok(prefix.push(x)),
            },
        }
    }
}

pub open spec fn interpolate_members(
    members: Seq<(Seq<char>, JsonV)>,
    payload: JsonV,
    env: RuntimeEnvironment,
) -> Result<Seq<(Seq<char>, JsonV)>, Seq<char>>
    decreases members,
{
    if members.len() == 0 {
        Ok(Seq::empty())
    } else {
        match interpolate_members(members.drop_last(), payload, env) {
            Err(m) => Err(m),
            Ok(prefix) => {
                proof {
                    assert(decreases_to!(members => members.last()));
                    assert(decreases_to!(members.last() => members.last().1));
                }
                match interpolate_value(members.last().1, payload, env) {
                    Err(m) => Err(m),
                    Ok(x) => Ok(prefix.push((members.last().0, x))),
                }
            },
        }
    }
}

/// The text that an expression stands for.
pub fn resolve_template_expression(
    expression: &Vec<char>,
    payload: &JsonValue,
    env: &RuntimeEnvironment,
    operation: &str,
) -> (r: Result<String, EngineError>)
    ensures
        match r {
            Ok(s) => resolve_expr(expression@, payload@, *env) == Ok::<Seq<char>, Seq<char>>(
                s@,
            ),
            Err(e) => e matches EngineError::RestRequestBuild { operation: o, message: m }
                && o@ == operation@ && resolve_expr(expression@, payload@, *env) == Err::<
                Seq<char>,
                Seq<char>,
            >(m@),
        },
{
    let event_prefix = chars_of("event.payload.");
    let env_prefix = chars_of("env.");
    let secret_prefix = chars_of("secret.");
    match strip_prefix_seq(expression, &event_prefix) {
        Some(path_chars) => {
            let path = string_of(&path_chars);
            match lookup_payload_path(payload, path.as_str()) {
                Some(v) => Ok(template_value_to_string(&v)),
                None => {
                    let mut m: Vec<char> = Vec::new();
                    push_str(&mut m, "event payload path '");
                    push_seq(&mut m, &path_chars);
                    push_str(&mut m, "' was not found");
                    Err(
                        EngineError::RestRequestBuild {
                            operation: operation.to_owned(),
                            message: string_of(&m),
                        },
                    )
                },
            }
        },
        None => match strip_prefix_seq(expression, &env_prefix) {
            Some(name_chars) => {
                let name = string_of(&name_chars);
                match env.values.get(name.as_str()) {
                    Some(v) => Ok(v.clone()),
                    None => {
                        let mut m: Vec<char> = Vec::new();
                        push_str(&mut m, "environment value '");
                        push_seq(&mut m, &name_chars);
                        push_str(&mut m, "' was not found");
                        Err(
                            EngineError::RestRequestBuild {
                                operation: operation.to_owned(),
                                message: string_of(&m),
                            },
                        )
                    },
                }
            },
            None => match strip_prefix_seq(expression, &secret_prefix) {
                Some(name_chars) => {
                    let name = string_of(&name_chars);
                    match env.secret_refs.get(name.as_str()) {
                        Some(v) => Ok(v.clone()),
                        None => {
                            let mut m: Vec<char> = Vec::new();
                            push_str(&mut m, "secret reference '");
                            push_seq(&mut m, &name_chars);
                            push_str(&mut m, "' was not found");
                            Err(
                                EngineError::RestRequestBuild {
                                    operation: operation.to_owned(),
                                    message: string_of(&m),
                                },
                            )
                        },
                    }
                },
                None => {
                let mut m: Vec<char> = Vec::new();
                push_str(&mut m, "unsupported template expression '");
                push_seq(&mut m, expression);
                push_str(&mut m, "'");
                Err(
                    EngineError::RestRequestBuild {
                        operation: operation.to_owned(),
                        message: string_of(&m),
                    },
                )
                },
            },
        },
    }
}

pub proof fn lemma_find_bounds(s: Seq<char>, pat: Seq<char>)
    ensures
        find(s, pat) matches Some(i) ==> 0 <= i && i + pat.len() <= s.len() && occurs_at(s, pat, i),
{
    crate::json::lemma_find_from_bounds(s, pat, 0);
}

/// The template with each `{{ expression }}` replaced by what it stands for.
pub fn interpolate_string(
    template: &str,
    payload: &JsonValue,
    env: &RuntimeEnvironment,
    operation: &str,
) -> (r: Result<String, EngineError>)
    ensures
        match r {
            Ok(s) => interpolate(template@, template@, payload@, *env) == Ok::<
                Seq<char>,
                Seq<char>,
            >(s@),
            Err(e) => e matches EngineError::RestRequestBuild { operation: o, message: m }
                && o@ == operation@ && interpolate(template@, template@, payload@, *env)
                == Err::<Seq<char>, Seq<char>>(m@),
        },
{
    let t = chars_of(template);
    let open = vec!['{', '{'];
    let close = vec!['}', '}'];
    let mut output: Vec<char> = Vec::new();
    let mut remaining = t.clone();
    assert(remaining@ == t@);
    loop
        invariant
            t@ == template@,
            open@ == seq!['{', '{'],
            close@ == seq!['}', '}'],
            forall|x: Seq<char>|
                #[trigger] interpolate(remaining@, template@, payload@, *env) == Ok::<
                    Seq<char>,
                    Seq<char>,
                >(x) ==> interpolate(template@, template@, payload@, *env) == Ok::<
                    Seq<char>,
                    Seq<char>,
                >(output@ + x),
            forall|m: Seq<char>|
                #[trigger] interpolate(remaining@, template@, payload@, *env) == Err::<
                    Seq<char>,
                    Seq<char>,
                >(m) ==> interpolate(template@, template@, payload@, *env) == Err::<
                    Seq<char>,
                    Seq<char>,
                >(m),
        decreases remaining@.len(),
    {
        let ghost rem = remaining@;
        proof {
            lemma_find_bounds(rem, seq!['{', '{']);
        }
        match find_from_exec(&remaining, &open, 0) {
            None => {
                push_seq(&mut output, &remaining);
                assert(interpolate(rem, template@, payload@, *env) == Ok::<
                    Seq<char>,
                    Seq<char>,
                >(rem));
                return Ok(string_of(&output));
            },
            Some(start) => {
                let rn = remaining.len();
                let on = open.len();
                assert(start + on <= rn);
                let before = slice_of(&remaining, 0, start);
                let after = slice_of(&remaining, start + on, rn);
                proof {
                    lemma_find_bounds(after@, seq!['}', '}']);
                }
                match find_from_exec(&after, &close, 0) {
                    None => {
                        let mut m: Vec<char> = Vec::new();
                        push_str(&mut m, "unclosed template in '");
                        push_seq(&mut m, &t);
                        push_str(&mut m, "'");
                        return Err(
                            EngineError::RestRequestBuild {
                                operation: operation.to_owned(),
                                message: string_of(&m),
                            },
                        );
                    },
                    Some(end) => {
                        let inner = slice_of(&after, 0, end);
                        let expression = trim_seq(&inner);
                        let value = resolve_template_expression(
                            &expression,
                            payload,
                            env,
                            operation,
                        );
                        match value {
                            Err(e) => {
                                return Err(e);
                            },
                            Ok(v) => {
                                let ghost old_output = output@;
                                push_seq(&mut output, &before);
                                push_str(&mut output, v.as_str());
                                let an = after.len();
                                let cn = close.len();
                                assert(end + cn <= an);
                                let rest = slice_of(&after, end + cn, an);
                                proof {
                                    let vr = v@;
                                    assert forall|x: Seq<char>|
                                        #[trigger] interpolate(
                                            rest@,
                                            template@,
                                            payload@,
                                            *env,
                                        ) == Ok::<Seq<char>, Seq<char>>(
                                            x,
                                        ) implies interpolate(
                                        template@,
                                        template@,
                                        payload@,
                                        *env,
                                    ) == Ok::<Seq<char>, Seq<char>>(output@ + x) by {
                                        assert(interpolate(rem, template@, payload@, *env)
                                            == Ok::<Seq<char>, Seq<char>>(
                                            rem.subrange(0, start as int) + vr + x,
                                        ));
                                        assert(old_output + (rem.subrange(0, start as int) + vr
                                            + x) =~= output@ + x);
                                    }
                                }
                                remaining = rest;
                            },
                        }
                    },
                }
            },
        }
    }
}

proof fn lemma_items_err_prefix(s: Seq<JsonV>, k: int, payload: JsonV, env: RuntimeEnvironment)
    requires
        0 <= k <= s.len(),
        interpolate_items(s.take(k), payload, env) is Err,
    ensures
        interpolate_items(s, payload, env) == interpolate_items(s.take(k), payload, env),
    decreases s.len() - k,
{
    if k < s.len() {
        assert(s.take(k + 1).drop_last() =~= s.take(k));
        lemma_items_err_prefix(s, k + 1, payload, env);
    } else {
        assert(s.take(k) =~= s);
    }
}

proof fn lemma_members_err_prefix(
    s: Seq<(Seq<char>, JsonV)>,
    k: int,
    payload: JsonV,
    env: RuntimeEnvironment,
)
    requires
        0 <= k <= s.len(),
        interpolate_members(s.take(k), payload, env) is Err,
    ensures
        interpolate_members(s, payload, env) == interpolate_members(s.take(k), payload, env),
    decreases s.len() - k,
{
    if k < s.len() {
        assert(s.take(k + 1).drop_last() =~= s.take(k));
        lemma_members_err_prefix(s, k + 1, payload, env);
    } else {
        assert(s.take(k) =~= s);
    }
}

/// The JSON value with each string in it interpolated.
#[verifier::loop_isolation(false)]
pub fn interpolate_json(
    value: &JsonValue,
    payload: &JsonValue,
    env: &RuntimeEnvironment,
    operation: &str,
) -> (r: Result<JsonValue, EngineError>)
    ensures
        match r {
            Ok(v) => interpolate_value(value@, payload@, *env) == Ok::<JsonV, Seq<char>>(v@),
            Err(e) => e matches EngineError::RestRequestBuild { operation: o, message: m }
                && o@ == operation@ && interpolate_value(value@, payload@, *env) == Err::<
                JsonV,
                Seq<char>,
            >(m@),
        },
    decreases value,
{
    match value {
        JsonValue::String(s) => match interpolate_string(s.as_str(), payload, env, operation) {
            Ok(r) => Ok(JsonValue::String(r)),
            Err(e) => Err(e),
        },
        JsonValue::Array(items) => {
            proof {
                lemma_array_view(*items);
            }
            let ghost iv = items_view(items@);
            let mut out: Vec<JsonValue> = Vec::new();
            let mut i: usize = 0;
            assert(iv.take(0) =~= Seq::<JsonV>::empty());
            assert(items_view(out@) =~= Seq::<JsonV>::empty());
            while i < items.len()
                invariant
                    i <= items.len(),
                    iv == items_view(items@),
                    out@.len() == i,
                    interpolate_items(iv.take(i as int), payload@, *env) == Ok::<
                        Seq<JsonV>,
                        Seq<char>,
                    >(items_view(out@)),
                decreases items.len() - i,
            {
                proof {
                    assert(decreases_to!(*value => *items));
                    assert(decreases_to!(*items => items@));
                    assert(decreases_to!(items@ => items@[i as int]));
                    assert(iv.take(i + 1).drop_last() =~= iv.take(i as int));
                    assert(iv.take(i + 1).last() == items@[i as int]@);
                }
                match interpolate_json(&items[i], payload, env, operation) {
                    Ok(v) => {
                        let ghost before = out@;
                        out.push(v);
                        proof {
                            assert(items_view(out@) =~= items_view(before).push(out@[i as int]@));
                        }
                    },
                    Err(e) => {
                        proof {
                            lemma_items_err_prefix(iv, (i + 1) as int, payload@, *env);
                        }
                        return Err(e);
                    },
                }
                i = i + 1;
            }
            proof {
                assert(iv.take(i as int) =~= iv);
                lemma_array_view(out);
            }
            Ok(JsonValue::Array(out))
        },
        JsonValue::Object(members) => {
            proof {
                lemma_object_view(*members);
            }
            let ghost mv = members_view(members@);
            let mut out: Vec<(String, JsonValue)> = Vec::new();
            let mut i: usize = 0;
            assert(mv.take(0) =~= Seq::<(Seq<char>, JsonV)>::empty());
            assert(members_view(out@) =~= Seq::<(Seq<char>, JsonV)>::empty());
            while i < members.len()
                invariant
                    i <= members.len(),
                    mv == members_view(members@),
                    out@.len() == i,
                    interpolate_members(mv.take(i as int), payload@, *env) == Ok::<
                        Seq<(Seq<char>, JsonV)>,
                        Seq<char>,
                    >(members_view(out@)),
                decreases members.len() - i,
            {
                proof {
                    assert(decreases_to!(*value => *members));
                    assert(decreases_to!(*members => members@));
                    assert(decreases_to!(members@ => members@[i as int]));
                    assert(decreases_to!(members@[i as int] => members@[i as int].1));
                    assert(mv.take(i + 1).drop_last() =~= mv.take(i as int));
                    assert(mv.take(i + 1).last() == (members@[i as int].0@, members@[i as int].1@));
                }
                match interpolate_json(&members[i].1, payload, env, operation) {
                    Ok(v) => {
                        let ghost before = out@;
                        let k = members[i].0.clone();
                        out.push((k, v));
                        proof {
                            assert(members_view(out@) =~= members_view(before).push(
                                (out@[i as int].0@, out@[i as int].1@),
                            ));
                        }
                    },
                    Err(e) => {
                        proof {
                            lemma_members_err_prefix(mv, (i + 1) as int, payload@, *env);
                        }
                        return Err(e);
                    },
                }
                i = i + 1;
            }
            proof {
                assert(mv.take(i as int) =~= mv);
                lemma_object_view(out);
            }
            Ok(JsonValue::Object(out))
        },
        JsonValue::Null => Ok(JsonValue::Null),
        JsonValue::Bool(b) => Ok(JsonValue::Bool(*b)),
        JsonValue::Number(n) => Ok(JsonValue::Number(n.clone())),
    }
}

} // verus!

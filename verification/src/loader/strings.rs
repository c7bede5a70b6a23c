use vstd::prelude::*;

use super::validate::{sns_emits, sqs_receive_emits, sqs_send_emits, websocket_emits, EmitsV};
use crate::domain::effect::{Effect, JsonPathSelector, WebsocketSend};
use crate::domain::event::{Event, EventCause};
use crate::domain::workflow::{Handler, Workflow};
use crate::engine::runner::{
    graphql_emission_refs, graphql_emits, rest_emission_refs, rest_emits,
};
use crate::json::{lemma_array_view, lemma_object_view, items_view, members_view, JsonV, JsonValue};
use crate::map::StrMap;

verus! {

// The strings of a workflow, in the order in which its JSON form lists them: the members
// of each object in key order. Constant strings (effect types, methods) are left out.

pub open spec fn opt_strs(o: Option<String>) -> Seq<Seq<char>> {
    match o {
        Some(s) => seq![s@],
        None => Seq::empty(),
    }
}

/// The strings of a JSON value, in order.
pub open spec fn json_strs(v: JsonV) -> Seq<Seq<char>>
    decreases v,
{
    match v {
        JsonV::Str(s) => seq![s],
        JsonV::Array(items) => items_strs(items),
        JsonV::Object(members) => members_strs(members),
        _ => Seq::empty(),
    }
}

pub open spec fn items_strs(items: Seq<JsonV>) -> Seq<Seq<char>>
    decreases items,
{
    if items.len() == 0 {
        Seq::empty()
    } else {
        items_strs(items.drop_last()) + json_strs(items.last())
    }
}

pub open spec fn members_strs(members: Seq<(Seq<char>, JsonV)>) -> Seq<Seq<char>>
    decreases members,
{
    if members.len() == 0 {
        Seq::empty()
    } else {
        proof {
            assert(decreases_to!(members => members.last()));
            assert(decreases_to!(members.last() => members.last().1));
        }
        members_strs(members.drop_last()) + json_strs(members.last().1)
    }
}

pub open spec fn opt_json_strs(o: Option<JsonValue>) -> Seq<Seq<char>> {
    match o {
        Some(v) => json_strs(v@),
        None => Seq::empty(),
    }
}

pub open spec fn selectors_strs(items: Seq<(String, JsonPathSelector)>) -> Seq<Seq<char>>
    decreases items.len(),
{
    if items.len() == 0 {
        Seq::empty()
    } else {
        selectors_strs(items.drop_last()) + seq![items.last().1.from@]
    }
}

pub open spec fn emits_strs(emits: EmitsV) -> Seq<Seq<char>>
    decreases emits.len(),
{
    if emits.len() == 0 {
        Seq::empty()
    } else {
        emits_strs(emits.drop_last()) + seq![emits.last().0] + selectors_strs(emits.last().1)
    }
}

pub open spec fn text_values_strs(items: Seq<(String, String)>) -> Seq<Seq<char>>
    decreases items.len(),
{
    if items.len() == 0 {
        Seq::empty()
    } else {
        text_values_strs(items.drop_last()) + seq![items.last().1@]
    }
}

pub open spec fn json_values_strs(items: Seq<(String, JsonValue)>) -> Seq<Seq<char>>
    decreases items.len(),
{
    if items.len() == 0 {
        Seq::empty()
    } else {
        json_values_strs(items.drop_last()) + json_strs(items.last().1@)
    }
}

pub open spec fn send_strs(s: WebsocketSend) -> Seq<Seq<char>> {
    match s {
        WebsocketSend::Json(v) => json_strs(v@),
        WebsocketSend::Text(t) => seq![t@],
    }
}

/// The strings of an effect, its fields in key order.
pub open spec fn effect_strs(e: Effect) -> Seq<Seq<char>> {
    match e {
        Effect::Emit { event_type, payload } => seq![event_type@] + json_strs(payload@),
        Effect::Record { message } => seq![message@],
        Effect::Assert(a) => json_strs(a.equals@) + seq![a.path@],
        Effect::Rest(r) => opt_strs(r.base_url) + emits_strs(rest_emits(r)) + text_values_strs(
            r.headers.items(),
        ) + opt_json_strs(r.json_body) + opt_strs(r.operation) + seq![r.path@]
            + text_values_strs(r.query.items()) + opt_strs(r.service),
        Effect::Graphql(g) => opt_strs(g.base_url) + emits_strs(graphql_emits(g)) + opt_strs(
            g.operation_name,
        ) + seq![g.query@] + opt_strs(g.service) + json_strs(g.variables@),
        Effect::SnsPublish(s) => emits_strs(sns_emits(s)) + opt_strs(s.endpoint_url) + json_strs(
            s.message@,
        ) + opt_strs(s.service) + seq![s.topic_arn@],
        Effect::SqsSend(s) => emits_strs(sqs_send_emits(s)) + opt_strs(s.endpoint_url) + json_strs(
            s.message@,
        ) + seq![s.queue_url@] + opt_strs(s.service),
        Effect::SqsReceive(s) => emits_strs(sqs_receive_emits(s)) + opt_strs(s.endpoint_url)
            + seq![s.queue_url@] + opt_strs(s.service),
        Effect::Websocket(w) => emits_strs(websocket_emits(w)) + json_values_strs(
            w.expect.json.items(),
        ) + send_strs(w.send) + opt_strs(w.service) + opt_strs(w.session) + opt_strs(w.url),
    }
}

pub open spec fn effects_strs(es: Seq<Effect>) -> Seq<Seq<char>>
    decreases es.len(),
{
    if es.len() == 0 {
        Seq::empty()
    } else {
        effects_strs(es.drop_last()) + effect_strs(es.last())
    }
}

pub open spec fn handlers_strs(hs: Seq<Handler>) -> Seq<Seq<char>>
    decreases hs.len(),
{
    if hs.len() == 0 {
        Seq::empty()
    } else {
        handlers_strs(hs.drop_last()) + effects_strs(hs.last().effects@) + seq![hs.last().on@]
    }
}

pub open spec fn cause_strs(c: Option<EventCause>) -> Seq<Seq<char>> {
    match c {
        Some(c) => seq![c.event_id@, c.trace_entry_id@],
        None => Seq::empty(),
    }
}

pub open spec fn event_strs(e: Event) -> Seq<Seq<char>> {
    cause_strs(e.caused_by) + seq![e.event_type@, e.id@] + json_strs(e.payload@)
}

pub open spec fn events_strs(es: Seq<Event>) -> Seq<Seq<char>>
    decreases es.len(),
{
    if es.len() == 0 {
        Seq::empty()
    } else {
        events_strs(es.drop_last()) + event_strs(es.last())
    }
}

/// The strings of a workflow, in the order of its JSON form.
pub open spec fn workflow_strs(w: Workflow) -> Seq<Seq<char>> {
    handlers_strs(w.handlers@) + seq![w.name@] + events_strs(w.seed_events@) + seq![w.version@]
}

// ---------------------------------------------------------------------------------------

fn push_opt(out: &mut Vec<String>, o: &Option<String>)
    ensures
        final(out)@.map_values(|s: String| s@) == old(out)@.map_values(|s: String| s@) + opt_strs(*o),
{
    let ghost before = out@;
    match o {
        Some(s) => {
            out.push(s.clone());
        },
        None => {},
    }
    assert(out@.map_values(|s: String| s@) =~= before.map_values(|s: String| s@) + opt_strs(*o));
}

fn push_one(out: &mut Vec<String>, s: &String)
    ensures
        final(out)@.map_values(|s: String| s@) == old(out)@.map_values(|s: String| s@) + seq![s@],
{
    let ghost before = out@;
    out.push(s.clone());
    assert(out@.map_values(|s: String| s@) =~= before.map_values(|s: String| s@) + seq![s@]);
}

/// Appends the strings of a JSON value.
#[verifier::loop_isolation(false)]
fn push_json(out: &mut Vec<String>, v: &JsonValue)
    ensures
        final(out)@.map_values(|s: String| s@) == old(out)@.map_values(|s: String| s@) + json_strs(v@),
    decreases v,
{
    let ghost before = out@.map_values(|s: String| s@);
    match v {
        JsonValue::String(s) => {
            push_one(out, s);
        },
        JsonValue::Array(items) => {
            proof {
                lemma_array_view(*items);
            }
            let ghost iv = items_view(items@);
            let mut i: usize = 0;
            assert(iv.take(0) =~= Seq::<JsonV>::empty());
            assert(before + items_strs(iv.take(0)) =~= before);
            while i < items.len()
                invariant
                    i <= items.len(),
                    iv == items_view(items@),
                    out@.map_values(|s: String| s@) == before + items_strs(iv.take(i as int)),
                decreases items.len() - i,
            {
                proof {
                    assert(decreases_to!(*v => *items));
                    assert(decreases_to!(*items => items@));
                    assert(decreases_to!(items@ => items@[i as int]));
                    assert(iv.take(i + 1).drop_last() =~= iv.take(i as int));
                    assert(iv.take(i + 1).last() == items@[i as int]@);
                }
                push_json(out, &items[i]);
                assert(before + items_strs(iv.take(i + 1)) =~= before + items_strs(iv.take(i as int))
                    + json_strs(items@[i as int]@));
                i = i + 1;
            }
            assert(iv.take(i as int) =~= iv);
        },
        JsonValue::Object(members) => {
            proof {
                lemma_object_view(*members);
            }
            let ghost mv = members_view(members@);
            let mut i: usize = 0;
            assert(mv.take(0) =~= Seq::<(Seq<char>, JsonV)>::empty());
            assert(before + members_strs(mv.take(0)) =~= before);
            while i < members.len()
                invariant
                    i <= members.len(),
                    mv == members_view(members@),
                    out@.map_values(|s: String| s@) == before + members_strs(mv.take(i as int)),
                decreases members.len() - i,
            {
                proof {
                    assert(decreases_to!(*v => *members));
                    assert(decreases_to!(*members => members@));
                    assert(decreases_to!(members@ => members@[i as int]));
                    assert(decreases_to!(members@[i as int] => members@[i as int].1));
                    assert(mv.take(i + 1).drop_last() =~= mv.take(i as int));
                    assert(mv.take(i + 1).last() == (members@[i as int].0@, members@[i as int].1@));
                }
                push_json(out, &members[i].1);
                assert(before + members_strs(mv.take(i + 1)) =~= before + members_strs(
                    mv.take(i as int),
                ) + json_strs(members@[i as int].1@));
                i = i + 1;
            }
            assert(mv.take(i as int) =~= mv);
        },
        _ => {
            assert(out@.map_values(|s: String| s@) =~= before + json_strs(v@));
        },
    }
}

fn push_opt_json(out: &mut Vec<String>, o: &Option<JsonValue>)
    ensures
        final(out)@.map_values(|s: String| s@) == old(out)@.map_values(|s: String| s@) + opt_json_strs(*o),
{
    let ghost before = out@.map_values(|s: String| s@);
    match o {
        Some(v) => push_json(out, v),
        None => {
            assert(before + opt_json_strs(*o) =~= before);
        },
    }
}

fn push_selectors(out: &mut Vec<String>, payload: &StrMap<JsonPathSelector>)
    ensures
        final(out)@.map_values(|s: String| s@) == old(out)@.map_values(|s: String| s@) + selectors_strs(
            payload.items(),
        ),
{
    let ghost before = out@.map_values(|s: String| s@);
    let entries = payload.entries();
    let mut i: usize = 0;
    assert(entries@.take(0) =~= Seq::<(String, JsonPathSelector)>::empty());
    assert(before + selectors_strs(entries@.take(0)) =~= before);
    while i < entries.len()
        invariant
            i <= entries@.len(),
            entries@ == payload.items(),
            out@.map_values(|s: String| s@) == before + selectors_strs(entries@.take(i as int)),
        decreases entries.len() - i,
    {
        assert(entries@.take(i + 1).drop_last() =~= entries@.take(i as int));
        push_one(out, &entries[i].1.from);
        assert(before + selectors_strs(entries@.take(i + 1)) =~= before + selectors_strs(
            entries@.take(i as int),
        ) + seq![entries@[i as int].1.from@]);
        i = i + 1;
    }
    assert(entries@.take(i as int) =~= entries@);
}

fn push_emits(
    out: &mut Vec<String>,
    emits: &Vec<(&String, &StrMap<JsonPathSelector>)>,
    Ghost(spec_emits): Ghost<EmitsV>,
)
    requires
        spec_emits.len() == emits@.len(),
        forall|k: int|
            0 <= k < emits@.len() ==> (#[trigger] spec_emits[k]) == (emits@[k].0@, emits@[k].1.items()),
    ensures
        final(out)@.map_values(|s: String| s@) == old(out)@.map_values(|s: String| s@) + emits_strs(
            spec_emits,
        ),
{
    let ghost before = out@.map_values(|s: String| s@);
    let mut i: usize = 0;
    assert(spec_emits.take(0) =~= Seq::<(Seq<char>, Seq<(String, JsonPathSelector)>)>::empty());
    assert(before + emits_strs(spec_emits.take(0)) =~= before);
    while i < emits.len()
        invariant
            i <= emits@.len(),
            spec_emits.len() == emits@.len(),
            forall|k: int|
                0 <= k < emits@.len() ==> (#[trigger] spec_emits[k]) == (emits@[k].0@, emits@[k].1.items()),
            out@.map_values(|s: String| s@) == before + emits_strs(spec_emits.take(i as int)),
        decreases emits.len() - i,
    {
        assert(spec_emits.take(i + 1).drop_last() =~= spec_emits.take(i as int));
        assert(spec_emits.take(i + 1).last() == spec_emits[i as int]);
        push_one(out, emits[i].0);
        push_selectors(out, emits[i].1);
        assert(before + emits_strs(spec_emits.take(i + 1)) =~= before + emits_strs(
            spec_emits.take(i as int),
        ) + seq![spec_emits[i as int].0] + selectors_strs(spec_emits[i as int].1));
        i = i + 1;
    }
    assert(spec_emits.take(i as int) =~= spec_emits);
}

fn push_text_values(out: &mut Vec<String>, m: &StrMap<String>)
    ensures
        final(out)@.map_values(|s: String| s@) == old(out)@.map_values(|s: String| s@) + text_values_strs(
            m.items(),
        ),
{
    let ghost before = out@.map_values(|s: String| s@);
    let entries = m.entries();
    let mut i: usize = 0;
    assert(entries@.take(0) =~= Seq::<(String, String)>::empty());
    assert(before + text_values_strs(entries@.take(0)) =~= before);
    while i < entries.len()
        invariant
            i <= entries@.len(),
            entries@ == m.items(),
            out@.map_values(|s: String| s@) == before + text_values_strs(entries@.take(i as int)),
        decreases entries.len() - i,
    {
        assert(entries@.take(i + 1).drop_last() =~= entries@.take(i as int));
        push_one(out, &entries[i].1);
        assert(before + text_values_strs(entries@.take(i + 1)) =~= before + text_values_strs(
            entries@.take(i as int),
        ) + seq![entries@[i as int].1@]);
        i = i + 1;
    }
    assert(entries@.take(i as int) =~= entries@);
}

fn push_json_values(out: &mut Vec<String>, m: &StrMap<JsonValue>)
    ensures
        final(out)@.map_values(|s: String| s@) == old(out)@.map_values(|s: String| s@) + json_values_strs(
            m.items(),
        ),
{
    let ghost before = out@.map_values(|s: String| s@);
    let entries = m.entries();
    let mut i: usize = 0;
    assert(entries@.take(0) =~= Seq::<(String, JsonValue)>::empty());
    assert(before + json_values_strs(entries@.take(0)) =~= before);
    while i < entries.len()
        invariant
            i <= entries@.len(),
            entries@ == m.items(),
            out@.map_values(|s: String| s@) == before + json_values_strs(entries@.take(i as int)),
        decreases entries.len() - i,
    {
        assert(entries@.take(i + 1).drop_last() =~= entries@.take(i as int));
        push_json(out, &entries[i].1);
        assert(before + json_values_strs(entries@.take(i + 1)) =~= before + json_values_strs(
            entries@.take(i as int),
        ) + json_strs(entries@[i as int].1@));
        i = i + 1;
    }
    assert(entries@.take(i as int) =~= entries@);
}

#[verifier::rlimit(40)]
fn push_effect(out: &mut Vec<String>, effect: &Effect)
    ensures
        final(out)@.map_values(|s: String| s@) == old(out)@.map_values(|s: String| s@) + effect_strs(
            *effect,
        ),
{
    let ghost before = out@.map_values(|s: String| s@);
    match effect {
        Effect::Emit { event_type, payload } => {
            push_one(out, event_type);
            push_json(out, payload);
            assert(out@.map_values(|s: String| s@) =~= before + effect_strs(*effect));
        },
        Effect::Record { message } => {
            push_one(out, message);
            assert(out@.map_values(|s: String| s@) =~= before + effect_strs(*effect));
        },
        Effect::Assert(a) => {
            push_json(out, &a.equals);
            push_one(out, &a.path);
            assert(out@.map_values(|s: String| s@) =~= before + effect_strs(*effect));
        },
        Effect::Rest(r) => {
            push_opt(out, &r.base_url);
            let refs = rest_emission_refs(r);
            push_emits(out, &refs, Ghost(rest_emits(*r)));
            push_text_values(out, &r.headers);
            push_opt_json(out, &r.json_body);
            push_opt(out, &r.operation);
            push_one(out, &r.path);
            push_text_values(out, &r.query);
            push_opt(out, &r.service);
            assert(out@.map_values(|s: String| s@) =~= before + effect_strs(*effect));
        },
        Effect::Graphql(g) => {
            push_opt(out, &g.base_url);
            let refs = graphql_emission_refs(g);
            push_emits(out, &refs, Ghost(graphql_emits(*g)));
            push_opt(out, &g.operation_name);
            push_one(out, &g.query);
            push_opt(out, &g.service);
            push_json(out, &g.variables);
            assert(out@.map_values(|s: String| s@) =~= before + effect_strs(*effect));
        },
        Effect::SnsPublish(s) => {
            let refs = super::validate::sns_emission_refs(s);
            push_emits(out, &refs, Ghost(sns_emits(*s)));
            push_opt(out, &s.endpoint_url);
            push_json(out, &s.message);
            push_opt(out, &s.service);
            push_one(out, &s.topic_arn);
            assert(out@.map_values(|s: String| s@) =~= before + effect_strs(*effect));
        },
        Effect::SqsSend(s) => {
            let refs = super::validate::sqs_emission_refs(&s.emits);
            push_emits(out, &refs, Ghost(sqs_send_emits(*s)));
            push_opt(out, &s.endpoint_url);
            push_json(out, &s.message);
            push_one(out, &s.queue_url);
            push_opt(out, &s.service);
            assert(out@.map_values(|s: String| s@) =~= before + effect_strs(*effect));
        },
        Effect::SqsReceive(s) => {
            let refs = super::validate::sqs_emission_refs(&s.emits);
            push_emits(out, &refs, Ghost(sqs_receive_emits(*s)));
            push_opt(out, &s.endpoint_url);
            push_one(out, &s.queue_url);
            push_opt(out, &s.service);
            assert(out@.map_values(|s: String| s@) =~= before + effect_strs(*effect));
        },
        Effect::Websocket(w) => {
            let refs = super::validate::websocket_emission_refs(w);
            push_emits(out, &refs, Ghost(websocket_emits(*w)));
            push_json_values(out, &w.expect.json);
            match &w.send {
                WebsocketSend::Json(v) => push_json(out, v),
                WebsocketSend::Text(t) => push_one(out, t),
            }
            push_opt(out, &w.service);
            push_opt(out, &w.session);
            push_opt(out, &w.url);
            assert(out@.map_values(|s: String| s@) =~= before + effect_strs(*effect));
        },
    }
}

fn push_event(out: &mut Vec<String>, e: &Event)
    ensures
        final(out)@.map_values(|s: String| s@) == old(out)@.map_values(|s: String| s@) + event_strs(*e),
{
    let ghost before = out@.map_values(|s: String| s@);
    match &e.caused_by {
        Some(c) => {
            push_one(out, &c.event_id);
            push_one(out, &c.trace_entry_id);
        },
        None => {},
    }
    push_one(out, &e.event_type);
    push_one(out, &e.id);
    push_json(out, &e.payload);
    assert(out@.map_values(|s: String| s@) =~= before + event_strs(*e));
}

/// The strings of a workflow, in the order of its JSON form.
pub fn workflow_strings(w: &Workflow) -> (r: Vec<String>)
    ensures
        r@.map_values(|s: String| s@) == workflow_strs(*w),
{
    let mut out: Vec<String> = Vec::new();
    let hs = &w.handlers;
    let mut h: usize = 0;
    assert(hs@.take(0) =~= Seq::<Handler>::empty());
    assert(out@.map_values(|s: String| s@) =~= handlers_strs(hs@.take(0)));
    while h < hs.len()
        invariant
            h <= hs@.len(),
            out@.map_values(|s: String| s@) == handlers_strs(hs@.take(h as int)),
        decreases hs.len() - h,
    {
        let ghost before = out@.map_values(|s: String| s@);
        let es = &hs[h].effects;
        let mut x: usize = 0;
        assert(es@.take(0) =~= Seq::<Effect>::empty());
        assert(before + effects_strs(es@.take(0)) =~= before);
        while x < es.len()
            invariant
                x <= es@.len(),
                out@.map_values(|s: String| s@) == before + effects_strs(es@.take(x as int)),
            decreases es.len() - x,
        {
            assert(es@.take(x + 1).drop_last() =~= es@.take(x as int));
            push_effect(&mut out, &es[x]);
            assert(before + effects_strs(es@.take(x + 1)) =~= before + effects_strs(es@.take(x as int))
                + effect_strs(es@[x as int]));
            x = x + 1;
        }
        assert(es@.take(x as int) =~= es@);
        push_one(&mut out, &hs[h].on);
        assert(hs@.take(h + 1).drop_last() =~= hs@.take(h as int));
        assert(handlers_strs(hs@.take(h + 1)) =~= before + effects_strs(es@) + seq![hs@[h as int].on@]);
        h = h + 1;
    }
    assert(hs@.take(h as int) =~= hs@);
    push_one(&mut out, &w.name);
    let ghost mid = out@.map_values(|s: String| s@);
    let es = &w.seed_events;
    let mut i: usize = 0;
    assert(es@.take(0) =~= Seq::<Event>::empty());
    assert(mid + events_strs(es@.take(0)) =~= mid);
    while i < es.len()
        invariant
            i <= es@.len(),
            out@.map_values(|s: String| s@) == mid + events_strs(es@.take(i as int)),
        decreases es.len() - i,
    {
        assert(es@.take(i + 1).drop_last() =~= es@.take(i as int));
        push_event(&mut out, &es[i]);
        assert(mid + events_strs(es@.take(i + 1)) =~= mid + events_strs(es@.take(i as int))
            + event_strs(es@[i as int]));
        i = i + 1;
    }
    assert(es@.take(i as int) =~= es@);
    push_one(&mut out, &w.version);
    assert(out@.map_values(|s: String| s@) =~= workflow_strs(*w));
    out
}

} // verus!

use vstd::prelude::*;
use vstd::string::*;

use crate::domain::effect::effect_name;
use crate::domain::event::Event;
use crate::domain::observation::{
    GraphqlAssertionObservation, Observation, RestAssertionObservation,
    WebsocketAssertionObservation,
};
use crate::domain::plan::{Capability, CapabilityRisk, PlannedEffect, RunPlan};
use crate::domain::trace::{RunReport, RunStatus, TraceEntry, TraceEntryKind};
use crate::text::{decimal, join_comma, push_decimal, push_seq, push_str, push_string, string_of};

verus! {

// The human-readable report of a run and of a plan.

pub open spec fn status_text(status: RunStatus) -> Seq<char> {
    match status {
        RunStatus::Succeeded => "succeeded"@,
        RunStatus::Failed => "failed"@,
    }
}

/// The word for a run status.
pub fn status_label(status: &RunStatus) -> (r: &'static str)
    ensures
        r@ == status_text(*status),
{
    match status {
        RunStatus::Succeeded => "succeeded",
        RunStatus::Failed => "failed",
    }
}

/// The types of events, in order.
pub open spec fn event_types(events: Seq<Event>) -> Seq<Seq<char>> {
    events.map_values(|e: Event| e.event_type@)
}

/// ` emitted <types>` where events were emitted (and their types are not all blank).
pub open spec fn emitted_text(events: Seq<Event>) -> Seq<char> {
    let e = join_comma(event_types(events));
    if e.len() == 0 {
        Seq::empty()
    } else {
        " emitted "@ + e
    }
}

fn push_event_types(out: &mut Vec<char>, events: &Vec<Event>)
    ensures
        final(out)@ == old(out)@ + join_comma(event_types(events@)),
{
    let ghost start = out@;
    let ghost ts = event_types(events@);
    let mut i: usize = 0;
    assert(ts.take(0) =~= Seq::<Seq<char>>::empty());
    assert(out@ =~= start + join_comma(ts.take(0)));
    while i < events.len()
        invariant
            i <= events@.len(),
            ts == event_types(events@),
            out@ == start + join_comma(ts.take(i as int)),
        decreases events.len() - i,
    {
        if i > 0 {
            push_str(out, ", ");
        }
        push_string(out, &events[i].event_type);
        assert(ts.take(i + 1).drop_last() =~= ts.take(i as int));
        assert(ts[i as int] == events@[i as int].event_type@);
        assert(out@ =~= start + join_comma(ts.take(i + 1)));
        i = i + 1;
    }
    assert(ts.take(i as int) =~= ts);
}

/// The suffix that names the events an effect emitted.
pub fn emitted_suffix(events: &Vec<Event>) -> (r: String)
    ensures
        r@ == emitted_text(events@),
{
    let mut types: Vec<char> = Vec::new();
    push_event_types(&mut types, events);
    assert(types@ =~= join_comma(event_types(events@)));
    if types.len() == 0 {
        String::new()
    } else {
        let mut out: Vec<char> = Vec::new();
        push_str(&mut out, " emitted ");
        push_seq(&mut out, &types);
        string_of(&out)
    }
}

pub open spec fn rest_assertion_text(a: RestAssertionObservation) -> Seq<char> {
    match a {
        RestAssertionObservation::StatusPassed { expected, .. } => "status "@ + decimal(
            expected as nat,
        ) + " passed"@,
        RestAssertionObservation::StatusFailed { expected, actual } => "status expected "@
            + decimal(expected as nat) + " failed with "@ + decimal(actual as nat),
    }
}

pub open spec fn graphql_assertion_text(a: GraphqlAssertionObservation) -> Seq<char> {
    match a {
        GraphqlAssertionObservation::StatusPassed { expected, .. } => "status "@ + decimal(
            expected as nat,
        ) + " passed"@,
        GraphqlAssertionObservation::StatusFailed { expected, actual } => "status expected "@
            + decimal(expected as nat) + " failed with "@ + decimal(actual as nat),
        GraphqlAssertionObservation::NoErrorsPassed => "no GraphQL errors"@,
        GraphqlAssertionObservation::NoErrorsFailed { errors } => decimal(errors@.len())
            + " GraphQL error(s)"@,
    }
}

pub open spec fn websocket_assertion_text(a: WebsocketAssertionObservation) -> Seq<char> {
    match a {
        WebsocketAssertionObservation::JsonFieldPassed { path } => path@ + " passed"@,
        WebsocketAssertionObservation::JsonFieldFailed { path, .. } => path@ + " failed"@,
    }
}

/// ` (<first assertion>)` where there is one.
pub open spec fn first_in_parens(texts: Seq<Seq<char>>) -> Seq<char> {
    if texts.len() > 0 {
        " ("@ + texts[0] + ")"@
    } else {
        Seq::empty()
    }
}

/// What a trace line says of an executed effect.
pub open spec fn effect_text(name: Seq<char>, o: Observation) -> Seq<char> {
    let head = "effect "@ + name;
    match o {
        Observation::EmittedEvents { events } => head + " "@ + join_comma(event_types(events@)),
        Observation::RecordedMessage { message } => "effect record \""@ + message@ + "\""@,
        Observation::AssertionPassed { path } => "effect assert "@ + path@ + " passed"@,
        Observation::AssertionFailed { path, .. } => "effect assert "@ + path@ + " failed"@,
        Observation::RestResponse { operation, response, assertions, emitted_events } => head
            + " "@ + operation.method@ + " "@ + operation.url@ + " -> "@ + decimal(
            response.status as nat,
        ) + first_in_parens(assertions@.map_values(|a| rest_assertion_text(a))) + emitted_text(
            emitted_events@,
        ),
        Observation::RestFailed { operation, message, .. } => head + " "@ + operation.method@
            + " "@ + operation.url@ + " failed: "@ + message@,
        Observation::GraphqlResponse { operation, response, assertions, emitted_events } => head
            + " "@ + match operation.operation_name {
            Some(n) => n@,
            None => "anonymous"@,
        } + " "@ + operation.url@ + " -> "@ + decimal(response.status as nat) + first_in_parens(
            assertions@.map_values(|a| graphql_assertion_text(a)),
        ) + emitted_text(emitted_events@),
        Observation::GraphqlFailed { operation, message, .. } => head + " "@ + operation.url@
            + " failed: "@ + message@,
        Observation::SnsPublish { operation, message_id, emitted_events } => head + " "@
            + operation.url@ + " -> "@ + message_id@ + emitted_text(emitted_events@),
        Observation::SqsSend { operation, message_id, emitted_events } => head + " "@
            + operation.url@ + " -> "@ + message_id@ + emitted_text(emitted_events@),
        Observation::SqsReceive { operation, messages, deleted_receipt_handles, emitted_events } =>
            head + " "@ + operation.url@ + " -> "@ + decimal(messages@.len()) + " message(s), "@
                + decimal(deleted_receipt_handles@.len()) + " deleted"@ + emitted_text(
            emitted_events@,
        ),
        Observation::AwsFailed { operation, message } => head + " "@ + operation.action@ + " "@
            + operation.url@ + " failed: "@ + message@,
        Observation::WebsocketMessage { operation, assertions, emitted_events, .. } => head + " "@
            + operation.url@ + " -> message"@ + first_in_parens(
            assertions@.map_values(|a| websocket_assertion_text(a)),
        ) + emitted_text(emitted_events@),
        Observation::WebsocketFailed { operation, message } => head + " "@ + operation.url@
            + " failed: "@ + message@,
    }
}

/// The line that a trace entry shows in the human report; the start and end of the run
/// show none.
pub open spec fn trace_text(kind: TraceEntryKind) -> Option<Seq<char>> {
    match kind {
        TraceEntryKind::EventSeeded { event } => Some("event "@ + event.event_type@ + " seeded"@),
        TraceEntryKind::EventDequeued { event } => Some("event "@ + event.event_type@),
        TraceEntryKind::HandlerMatched { on, .. } => Some("handler on "@ + on@),
        TraceEntryKind::EffectExecuted { effect, observation, .. } => Some(
            effect_text(effect_name(effect), observation),
        ),
        TraceEntryKind::HandlerSkipped { on, .. } => Some("no handler for "@ + on@),
        TraceEntryKind::RunStarted { .. } => None,
        TraceEntryKind::RunEnded { .. } => None,
    }
}

fn push_in_parens(out: &mut Vec<char>, text: &Vec<char>)
    ensures
        final(out)@ == old(out)@ + " ("@ + text@ + ")"@,
{
    push_str(out, " (");
    push_seq(out, text);
    push_str(out, ")");
}

fn rest_assertion_line(a: &RestAssertionObservation) -> (r: Vec<char>)
    ensures
        r@ == rest_assertion_text(*a),
{
    let mut out: Vec<char> = Vec::new();
    match a {
        RestAssertionObservation::StatusPassed { expected, .. } => {
            push_str(&mut out, "status ");
            push_decimal(&mut out, *expected as u64);
            push_str(&mut out, " passed");
        },
        RestAssertionObservation::StatusFailed { expected, actual } => {
            push_str(&mut out, "status expected ");
            push_decimal(&mut out, *expected as u64);
            push_str(&mut out, " failed with ");
            push_decimal(&mut out, *actual as u64);
        },
    }
    out
}

fn graphql_assertion_line(a: &GraphqlAssertionObservation) -> (r: Vec<char>)
    ensures
        r@ == graphql_assertion_text(*a),
{
    let mut out: Vec<char> = Vec::new();
    match a {
        GraphqlAssertionObservation::StatusPassed { expected, .. } => {
            push_str(&mut out, "status ");
            push_decimal(&mut out, *expected as u64);
            push_str(&mut out, " passed");
        },
        GraphqlAssertionObservation::StatusFailed { expected, actual } => {
            push_str(&mut out, "status expected ");
            push_decimal(&mut out, *expected as u64);
            push_str(&mut out, " failed with ");
            push_decimal(&mut out, *actual as u64);
        },
        GraphqlAssertionObservation::NoErrorsPassed => {
            push_str(&mut out, "no GraphQL errors");
        },
        GraphqlAssertionObservation::NoErrorsFailed { errors } => {
            push_decimal(&mut out, errors.len() as u64);
            push_str(&mut out, " GraphQL error(s)");
        },
    }
    out
}

fn websocket_assertion_line(a: &WebsocketAssertionObservation) -> (r: Vec<char>)
    ensures
        r@ == websocket_assertion_text(*a),
{
    let mut out: Vec<char> = Vec::new();
    match a {
        WebsocketAssertionObservation::JsonFieldPassed { path } => {
            push_string(&mut out, path);
            push_str(&mut out, " passed");
        },
        WebsocketAssertionObservation::JsonFieldFailed { path, .. } => {
            push_string(&mut out, path);
            push_str(&mut out, " failed");
        },
    }
    out
}

fn push_effect_head(out: &mut Vec<char>, name: &str)
    ensures
        final(out)@ == old(out)@ + ("effect "@ + name@),
{
    let ghost start = out@;
    push_str(out, "effect ");
    push_str(out, name);
    assert(out@ =~= start + ("effect "@ + name@));
}

/// The line that an executed effect shows.
fn effect_line(name: &str, o: &Observation) -> (r: Vec<char>)
    ensures
        r@ == effect_text(name@, *o),
{
    let mut out: Vec<char> = Vec::new();
    match o {
        Observation::EmittedEvents { events } => {
            push_effect_head(&mut out, name);
            push_str(&mut out, " ");
            push_event_types(&mut out, events);
        },
        Observation::RecordedMessage { message } => {
            push_str(&mut out, "effect record \"");
            push_string(&mut out, message);
            push_str(&mut out, "\"");
        },
        Observation::AssertionPassed { path } => {
            push_str(&mut out, "effect assert ");
            push_string(&mut out, path);
            push_str(&mut out, " passed");
        },
        Observation::AssertionFailed { path, .. } => {
            push_str(&mut out, "effect assert ");
            push_string(&mut out, path);
            push_str(&mut out, " failed");
        },
        Observation::RestResponse { operation, response, assertions, emitted_events } => {
            push_effect_head(&mut out, name);
            push_str(&mut out, " ");
            push_string(&mut out, &operation.method);
            push_str(&mut out, " ");
            push_string(&mut out, &operation.url);
            push_str(&mut out, " -> ");
            push_decimal(&mut out, response.status as u64);
            let ghost texts = assertions@.map_values(|a| rest_assertion_text(a));
            if assertions.len() > 0 {
                let first = rest_assertion_line(&assertions[0]);
                push_in_parens(&mut out, &first);
            }
            let ghost before = out@;
            let suffix = emitted_suffix(emitted_events);
            push_string(&mut out, &suffix);
            proof {
                if assertions@.len() > 0 {
                    assert(texts[0] == rest_assertion_text(assertions@[0]));
                }
            }
        },
        Observation::RestFailed { operation, message, .. } => {
            push_effect_head(&mut out, name);
            push_str(&mut out, " ");
            push_string(&mut out, &operation.method);
            push_str(&mut out, " ");
            push_string(&mut out, &operation.url);
            push_str(&mut out, " failed: ");
            push_string(&mut out, message);
        },
        Observation::GraphqlResponse { operation, response, assertions, emitted_events } => {
            push_effect_head(&mut out, name);
            push_str(&mut out, " ");
            match &operation.operation_name {
                Some(n) => push_string(&mut out, n),
                None => push_str(&mut out, "anonymous"),
            }
            push_str(&mut out, " ");
            push_string(&mut out, &operation.url);
            push_str(&mut out, " -> ");
            push_decimal(&mut out, response.status as u64);
            let ghost texts = assertions@.map_values(|a| graphql_assertion_text(a));
            if assertions.len() > 0 {
                let first = graphql_assertion_line(&assertions[0]);
                push_in_parens(&mut out, &first);
            }
            let suffix = emitted_suffix(emitted_events);
            push_string(&mut out, &suffix);
            proof {
                if assertions@.len() > 0 {
                    assert(texts[0] == graphql_assertion_text(assertions@[0]));
                }
            }
        },
        Observation::GraphqlFailed { operation, message, .. } => {
            push_effect_head(&mut out, name);
            push_str(&mut out, " ");
            push_string(&mut out, &operation.url);
            push_str(&mut out, " failed: ");
            push_string(&mut out, message);
        },
        Observation::SnsPublish { operation, message_id, emitted_events } => {
            push_effect_head(&mut out, name);
            push_str(&mut out, " ");
            push_string(&mut out, &operation.url);
            push_str(&mut out, " -> ");
            push_string(&mut out, message_id);
            let suffix = emitted_suffix(emitted_events);
            push_string(&mut out, &suffix);
        },
        Observation::SqsSend { operation, message_id, emitted_events } => {
            push_effect_head(&mut out, name);
            push_str(&mut out, " ");
            push_string(&mut out, &operation.url);
            push_str(&mut out, " -> ");
            push_string(&mut out, message_id);
            let suffix = emitted_suffix(emitted_events);
            push_string(&mut out, &suffix);
        },
        Observation::SqsReceive { operation, messages, deleted_receipt_handles, emitted_events } => {
            push_effect_head(&mut out, name);
            push_str(&mut out, " ");
            push_string(&mut out, &operation.url);
            push_str(&mut out, " -> ");
            push_decimal(&mut out, messages.len() as u64);
            push_str(&mut out, " message(s), ");
            push_decimal(&mut out, deleted_receipt_handles.len() as u64);
            push_str(&mut out, " deleted");
            let suffix = emitted_suffix(emitted_events);
            push_string(&mut out, &suffix);
        },
        Observation::AwsFailed { operation, message } => {
            push_effect_head(&mut out, name);
            push_str(&mut out, " ");
            push_string(&mut out, &operation.action);
            push_str(&mut out, " ");
            push_string(&mut out, &operation.url);
            push_str(&mut out, " failed: ");
            push_string(&mut out, message);
        },
        Observation::WebsocketMessage { operation, assertions, emitted_events, .. } => {
            push_effect_head(&mut out, name);
            push_str(&mut out, " ");
            push_string(&mut out, &operation.url);
            push_str(&mut out, " -> message");
            let ghost texts = assertions@.map_values(|a| websocket_assertion_text(a));
            if assertions.len() > 0 {
                let first = websocket_assertion_line(&assertions[0]);
                push_in_parens(&mut out, &first);
            }
            let suffix = emitted_suffix(emitted_events);
            push_string(&mut out, &suffix);
            proof {
                if assertions@.len() > 0 {
                    assert(texts[0] == websocket_assertion_text(assertions@[0]));
                }
            }
        },
        Observation::WebsocketFailed { operation, message } => {
            push_effect_head(&mut out, name);
            push_str(&mut out, " ");
            push_string(&mut out, &operation.url);
            push_str(&mut out, " failed: ");
            push_string(&mut out, message);
        },
    }
    assert(out@ =~= effect_text(name@, *o));
    out
}

/// The line that a trace entry shows in the human report, if any.
pub fn trace_line(kind: &TraceEntryKind) -> (r: Option<String>)
    ensures
        match r {
            Some(s) => trace_text(*kind) == Some(s@),
            None => trace_text(*kind) is None,
        },
{
    let mut out: Vec<char> = Vec::new();
    match kind {
        TraceEntryKind::EventSeeded { event } => {
            push_str(&mut out, "event ");
            push_string(&mut out, &event.event_type);
            push_str(&mut out, " seeded");
        },
        TraceEntryKind::EventDequeued { event } => {
            push_str(&mut out, "event ");
            push_string(&mut out, &event.event_type);
        },
        TraceEntryKind::HandlerMatched { on, .. } => {
            push_str(&mut out, "handler on ");
            push_string(&mut out, on);
        },
        TraceEntryKind::EffectExecuted { effect, observation, .. } => {
            out = effect_line(effect.name(), observation);
        },
        TraceEntryKind::HandlerSkipped { on, .. } => {
            push_str(&mut out, "no handler for ");
            push_string(&mut out, on);
        },
        TraceEntryKind::RunStarted { .. } => {
            return None;
        },
        TraceEntryKind::RunEnded { .. } => {
            return None;
        },
    }
    Some(string_of(&out))
}

/// The lines of the trace entries that show one, in order.
pub open spec fn trace_texts(t: Seq<TraceEntry>) -> Seq<Seq<char>>
    decreases t.len(),
{
    if t.len() == 0 {
        Seq::empty()
    } else {
        trace_texts(t.drop_last()) + match trace_text(t.last().kind) {
            Some(x) => seq![x],
            None => Seq::empty(),
        }
    }
}

/// Lines numbered from one: `<n>. <line>`.
pub open spec fn numbered(lines: Seq<Seq<char>>) -> Seq<Seq<char>> {
    Seq::new(lines.len(), |i: int| decimal((i + 1) as nat) + ". "@ + lines[i])
}

/// The human report of a run: its id, workflow, status, failure if any, then its trace.
pub open spec fn report_text(r: RunReport) -> Seq<Seq<char>> {
    seq!["Run: "@ + r.run_id@, "Workflow: "@ + r.workflow_name@, "Status: "@ + status_text(r.status)]
        + match r.failure {
        Some(f) => seq!["Failure: "@ + f.message@],
        None => Seq::empty(),
    } + seq![Seq::empty(), "Trace:"@] + numbered(trace_texts(r.trace@))
}

fn line_of(head: &str, tail: &String) -> (r: String)
    ensures
        r@ == head@ + tail@,
{
    let mut out: Vec<char> = Vec::new();
    push_str(&mut out, head);
    push_string(&mut out, tail);
    string_of(&out)
}

/// The lines of the human report of a run.
pub fn report_lines(report: &RunReport) -> (r: Vec<String>)
    ensures
        r@.map_values(|s: String| s@) == report_text(*report),
{
    let mut lines: Vec<String> = Vec::new();
    lines.push(line_of("Run: ", &report.run_id));
    lines.push(line_of("Workflow: ", &report.workflow_name));
    lines.push(line_of("Status: ", &String::from_str(status_label(&report.status))));
    match &report.failure {
        Some(f) => {
            lines.push(line_of("Failure: ", &f.message));
        },
        None => {},
    }
    lines.push(String::new());
    lines.push(String::from_str("Trace:"));
    let ghost head = lines@.map_values(|s: String| s@);
    let ghost t = report.trace@;
    let mut shown: Vec<String> = Vec::new();
    let mut i: usize = 0;
    assert(t.take(0) =~= Seq::<TraceEntry>::empty());
    while i < report.trace.len()
        invariant
            i <= t.len(),
            t == report.trace@,
            shown@.map_values(|s: String| s@) == trace_texts(t.take(i as int)),
        decreases report.trace.len() - i,
    {
        assert(t.take(i + 1).drop_last() =~= t.take(i as int));
        let ghost before = shown@;
        match trace_line(&report.trace[i].kind) {
            Some(line) => {
                shown.push(line);
                assert(shown@.map_values(|s: String| s@) =~= trace_texts(t.take(i + 1)));
            },
            None => {
                assert(shown@.map_values(|s: String| s@) =~= trace_texts(t.take(i + 1)));
            },
        }
        i = i + 1;
    }
    assert(t.take(i as int) =~= t);
    let ghost texts = trace_texts(t);
    let mut j: usize = 0;
    while j < shown.len()
        invariant
            j <= shown@.len(),
            shown@.map_values(|s: String| s@) == texts,
            lines@.map_values(|s: String| s@) == head + numbered(texts).take(j as int),
        decreases shown.len() - j,
    {
        let mut out: Vec<char> = Vec::new();
        push_decimal(&mut out, (j as u64) + 1);
        push_str(&mut out, ". ");
        push_string(&mut out, &shown[j]);
        let ghost before = lines@;
        let line = string_of(&out);
        lines.push(line);
        proof {
            assert(texts[j as int] == shown@[j as int]@);
            assert(lines@ == before.push(line));
            assert(lines@.map_values(|s: String| s@) =~= before.map_values(|s: String| s@).push(line@));
            assert(numbered(texts)[j as int] == line@);
            assert(numbered(texts).take(j + 1) =~= numbered(texts).take(j as int).push(line@));
        }
        j = j + 1;
    }
    assert(numbered(texts).take(j as int) =~= numbered(texts));
    proof {
        assert(lines@.map_values(|s: String| s@) =~= report_text(*report));
    }
    lines
}

pub open spec fn risk_text(risk: CapabilityRisk) -> Seq<char> {
    match risk {
        CapabilityRisk::Read => "read"@,
        CapabilityRisk::Write => "write"@,
        CapabilityRisk::Local => "local"@,
    }
}

/// The word for a capability risk.
pub fn risk_label(risk: CapabilityRisk) -> (r: &'static str)
    ensures
        r@ == risk_text(risk),
{
    match risk {
        CapabilityRisk::Read => "read",
        CapabilityRisk::Write => "write",
        CapabilityRisk::Local => "local",
    }
}

pub open spec fn capability_text(c: Capability) -> Seq<char> {
    "- "@ + c.id@ + " ["@ + risk_text(c.risk) + "]: "@ + c.description@
}

pub open spec fn planned_text(e: PlannedEffect) -> Seq<char> {
    "- handlers["@ + decimal(e.handler_index as nat) + "].effects["@ + decimal(
        e.effect_index as nat,
    ) + "] on "@ + e.on@ + ": "@ + e.effect_type@ + " ("@ + join_comma(
        e.capabilities@.map_values(|c: String| c@),
    ) + ")"@
}

/// A list of lines, or `- none` where it is empty.
pub open spec fn or_none(lines: Seq<Seq<char>>) -> Seq<Seq<char>> {
    if lines.len() == 0 {
        seq!["- none"@]
    } else {
        lines
    }
}

/// The human form of a plan: the workflow, the capabilities it needs, and its effects.
pub open spec fn plan_text(p: RunPlan) -> Seq<Seq<char>> {
    seq!["Workflow: "@ + p.workflow_name@, "Version: "@ + p.workflow_version@, Seq::empty(),
        "Required capabilities:"@] + or_none(
        p.required_capabilities@.map_values(|c: Capability| capability_text(c)),
    ) + seq![Seq::empty(), "Effects:"@] + or_none(
        p.effects@.map_values(|e: PlannedEffect| planned_text(e)),
    )
}

fn capability_line(c: &Capability) -> (r: String)
    ensures
        r@ == capability_text(*c),
{
    let mut out: Vec<char> = Vec::new();
    push_str(&mut out, "- ");
    push_string(&mut out, &c.id);
    push_str(&mut out, " [");
    push_str(&mut out, risk_label(c.risk));
    push_str(&mut out, "]: ");
    push_string(&mut out, &c.description);
    string_of(&out)
}

fn planned_line(e: &PlannedEffect) -> (r: String)
    ensures
        r@ == planned_text(*e),
{
    let mut out: Vec<char> = Vec::new();
    push_str(&mut out, "- handlers[");
    push_decimal(&mut out, e.handler_index as u64);
    push_str(&mut out, "].effects[");
    push_decimal(&mut out, e.effect_index as u64);
    push_str(&mut out, "] on ");
    push_string(&mut out, &e.on);
    push_str(&mut out, ": ");
    push_string(&mut out, &e.effect_type);
    push_str(&mut out, " (");
    let ghost start = out@;
    let ghost cs = e.capabilities@.map_values(|c: String| c@);
    let mut i: usize = 0;
    assert(cs.take(0) =~= Seq::<Seq<char>>::empty());
    assert(out@ =~= start + join_comma(cs.take(0)));
    while i < e.capabilities.len()
        invariant
            i <= e.capabilities@.len(),
            cs == e.capabilities@.map_values(|c: String| c@),
            out@ == start + join_comma(cs.take(i as int)),
        decreases e.capabilities.len() - i,
    {
        if i > 0 {
            push_str(&mut out, ", ");
        }
        push_string(&mut out, &e.capabilities[i]);
        assert(cs.take(i + 1).drop_last() =~= cs.take(i as int));
        assert(out@ =~= start + join_comma(cs.take(i + 1)));
        i = i + 1;
    }
    assert(cs.take(i as int) =~= cs);
    push_str(&mut out, ")");
    assert(out@ =~= planned_text(*e));
    string_of(&out)
}

fn push_line(lines: &mut Vec<String>, line: String)
    ensures
        final(lines)@.map_values(|s: String| s@) == old(lines)@.map_values(|s: String| s@).push(line@),
{
    let ghost before = lines@;
    lines.push(line);
    assert(lines@.map_values(|s: String| s@) =~= before.map_values(|s: String| s@).push(line@));
}

/// The lines of the human form of a plan.
pub fn plan_lines(plan: &RunPlan) -> (r: Vec<String>)
    ensures
        r@.map_values(|s: String| s@) == plan_text(*plan),
{
    let mut lines: Vec<String> = Vec::new();
    push_line(&mut lines, line_of("Workflow: ", &plan.workflow_name));
    push_line(&mut lines, line_of("Version: ", &plan.workflow_version));
    push_line(&mut lines, String::new());
    push_line(&mut lines, String::from_str("Required capabilities:"));
    let ghost a = lines@.map_values(|s: String| s@);
    let ghost caps = plan.required_capabilities@.map_values(|c: Capability| capability_text(c));
    if plan.required_capabilities.len() == 0 {
        push_line(&mut lines, String::from_str("- none"));
    } else {
        let mut i: usize = 0;
        assert(a + caps.take(0) =~= a);
        while i < plan.required_capabilities.len()
            invariant
                i <= plan.required_capabilities@.len(),
                caps == plan.required_capabilities@.map_values(|c: Capability| capability_text(c)),
                lines@.map_values(|s: String| s@) == a + caps.take(i as int),
            decreases plan.required_capabilities.len() - i,
        {
            let line = capability_line(&plan.required_capabilities[i]);
            push_line(&mut lines, line);
            assert(caps.take(i + 1) =~= caps.take(i as int).push(caps[i as int]));
            assert(a + caps.take(i + 1) =~= (a + caps.take(i as int)).push(caps[i as int]));
            i = i + 1;
        }
        assert(caps.take(i as int) =~= caps);
    }
    assert(lines@.map_values(|s: String| s@) =~= a + or_none(caps));
    push_line(&mut lines, String::new());
    push_line(&mut lines, String::from_str("Effects:"));
    let ghost b = lines@.map_values(|s: String| s@);
    let ghost effs = plan.effects@.map_values(|e: PlannedEffect| planned_text(e));
    if plan.effects.len() == 0 {
        push_line(&mut lines, String::from_str("- none"));
    } else {
        let mut i: usize = 0;
        assert(b + effs.take(0) =~= b);
        while i < plan.effects.len()
            invariant
                i <= plan.effects@.len(),
                effs == plan.effects@.map_values(|e: PlannedEffect| planned_text(e)),
                lines@.map_values(|s: String| s@) == b + effs.take(i as int),
            decreases plan.effects.len() - i,
        {
            let line = planned_line(&plan.effects[i]);
            push_line(&mut lines, line);
            assert(effs.take(i + 1) =~= effs.take(i as int).push(effs[i as int]));
            assert(b + effs.take(i + 1) =~= (b + effs.take(i as int)).push(effs[i as int]));
            i = i + 1;
        }
        assert(effs.take(i as int) =~= effs);
    }
    assert(lines@.map_values(|s: String| s@) =~= b + or_none(effs));
    assert(lines@.map_values(|s: String| s@) =~= plan_text(*plan));
    lines
}

} // verus!

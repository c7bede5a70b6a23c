use vstd::prelude::*;
use vstd::string::*;

use super::websocket::{build_websocket_request, sent_of, websocket_request, ws_reply};
use super::aws::{aws_reply, aws_request, build_aws_request, read_aws_reply, url_path, url_path_exec};
use super::error::{engine_error_text, EngineError};
use super::shape::{
    follows_handlers, handling_complete, handling_places, handling_state, last_dequeued,
    lemma_dequeue, lemma_effect_done, lemma_follow_other, lemma_handler_done, lemma_handlers_done,
    lemma_matched, lemma_skipped, dequeued_events, lemma_queue_order, lemma_queue_order_push,
    lemma_queue_push, queue_views, queued_events, effects_recorded, lemma_effects_other,
    lemma_effect_recorded,
};
use super::run_state::{
    failed_effect_text, lemma_ended, lemma_ended_at_effect, lemma_inv_skip, lemma_record,
    lemma_step_count_push, next_sequence, report_ok, step_count, entry_passed, RunState,
};
use super::http::{
    body_view, build_graphql_request, build_rest_request, fallback_graphql_operation,
    fallback_rest_operation, graphql_fallback_url, graphql_request, http_response, models_map,
    parse_http_response, request_view, rest_fallback, rest_failed_text, rest_request,
    utf8_lossy, BodyV, HttpRequest,
};
use crate::domain::effect::{
    effect_name, method_text, AssertEffect, Effect, GraphqlEffect, JsonPathSelector, RestEffect,
    WebsocketEffect,
};
use crate::domain::environment::RuntimeEnvironment;
use crate::domain::event::{same_event, Event, EventCause};
use crate::domain::observation::{
    AwsOperationObservation, WebsocketOperationObservation, WebsocketAssertionObservation,
    WebsocketReceivedObservation, WebsocketSentObservation, GraphqlAssertionObservation, GraphqlOperationObservation, GraphqlResponseObservation,
    Observation, RestAssertionObservation, RestBody, RestOperationObservation,
    RestResponseObservation,
};
use crate::domain::plan::{
    cap_view, effect_capabilities, effect_capability_views, effects_caps, handlers_caps,
    plan_workflow, CapView, Capability, CapabilityRisk,
};
use crate::domain::trace::{RunReport, RunStatus, TraceEntry, TraceEntryKind, TraceFailure};
use crate::domain::workflow::{Handler, Workflow};
use crate::json::{
    json_equal, json_get, json_get_exec, json_text, lookup_payload_path, payload_lookup, JsonV,
    JsonValue,
};
use crate::jsonpath::{jsonpath_error, jsonpath_query, jsonpath_values};
use crate::map::StrMap;
use crate::text::{
    chars_of, decimal, push_decimal, push_str, push_string, str_eq, string_of,
};
use std::collections::VecDeque;

verus! {

/// Guards against runaway workflows.
#[derive(Debug, Clone, Copy)]
pub struct ExecutionLimits {
    pub max_events: usize,
    pub max_steps: usize,
    pub max_depth: u32,
}

impl Default for ExecutionLimits {
    fn default() -> (r: Self)
        ensures
            r.max_events == 1000,
            r.max_steps == 2000,
            r.max_depth == 100,
    {
        ExecutionLimits { max_events: 1_000, max_steps: 2_000, max_depth: 100 }
    }
}

/// Which write capabilities a run may use: all of them, or exactly the listed ones.
#[derive(Debug, Clone)]
pub struct ExecutionPolicy {
    pub allow_all_writes: bool,
    pub allowed_capabilities: Vec<String>,
}

/// Whether a policy lets a capability through: read and local ones always pass.
pub open spec fn policy_allows(p: ExecutionPolicy, id: Seq<char>, risk: CapabilityRisk) -> bool {
    risk != CapabilityRisk::Write || p.allow_all_writes || exists|i: int|
        0 <= i < p.allowed_capabilities@.len() && (#[trigger] p.allowed_capabilities@[i])@ == id
}

impl ExecutionPolicy {
    /// Approves every write capability.
    pub fn allow_all() -> (p: Self)
        ensures
            p.allow_all_writes,
            p.allowed_capabilities@.len() == 0,
    {
        ExecutionPolicy { allow_all_writes: true, allowed_capabilities: Vec::new() }
    }

    /// Approves no write capability.
    pub fn deny_write() -> (p: Self)
        ensures
            !p.allow_all_writes,
            p.allowed_capabilities@.len() == 0,
    {
        ExecutionPolicy { allow_all_writes: false, allowed_capabilities: Vec::new() }
    }

    /// Approves exactly the listed write capabilities.
    pub fn allow_capabilities(capabilities: Vec<String>) -> (p: Self)
        ensures
            !p.allow_all_writes,
            p.allowed_capabilities == capabilities,
    {
        ExecutionPolicy { allow_all_writes: false, allowed_capabilities: capabilities }
    }

    /// Whether this policy lets the capability through.
    pub fn allows(&self, capability: &Capability) -> (r: bool)
        ensures
            r == policy_allows(*self, capability.id@, capability.risk),
    {
        if capability.risk != CapabilityRisk::Write || self.allow_all_writes {
            return true;
        }
        let mut i: usize = 0;
        while i < self.allowed_capabilities.len()
            invariant
                i <= self.allowed_capabilities@.len(),
                forall|j: int|
                    0 <= j < i ==> (#[trigger] self.allowed_capabilities@[j])@ != capability.id@,
            decreases self.allowed_capabilities.len() - i,
        {
            if str_eq(self.allowed_capabilities[i].as_str(), capability.id.as_str()) {
                return true;
            }
            i = i + 1;
        }
        false
    }
}

/// An environment with no name and no services, values or secret references.
pub open spec fn empty_environment(env: RuntimeEnvironment) -> bool {
    &&& env.name is None
    &&& env.services.items().len() == 0 && env.services.wf()
    &&& env.values.items().len() == 0 && env.values.wf()
    &&& env.secret_refs.items().len() == 0 && env.secret_refs.wf()
}

/// A runner made by `Runner::new` is, as far as a run can tell, the one that
/// `Runner::with_environment` makes from the same limits and the default environment: the
/// same limits and policy, and an environment with nothing in it.
pub proof fn law_new_is_with_default_environment(
    a: Runner,
    b: Runner,
    limits: ExecutionLimits,
    default_env: RuntimeEnvironment,
)
    requires
        a.limits == limits && a.policy.allow_all_writes && a.policy.allowed_capabilities@.len()
            == 0 && empty_environment(a.environment),
        b.limits == limits && b.environment == default_env && b.policy.allow_all_writes
            && b.policy.allowed_capabilities@.len() == 0,
        empty_environment(default_env),
    ensures
        a.limits == b.limits,
        a.policy.allow_all_writes == b.policy.allow_all_writes,
        a.policy.allowed_capabilities@.len() == b.policy.allowed_capabilities@.len(),
        a.environment.name == b.environment.name,
        a.environment.services.items() == b.environment.services.items(),
        a.environment.values.items() == b.environment.values.items(),
        a.environment.secret_refs.items() == b.environment.secret_refs.items(),
{
    assert(a.environment.services.items() =~= b.environment.services.items());
    assert(a.environment.values.items() =~= b.environment.values.items());
    assert(a.environment.secret_refs.items() =~= b.environment.secret_refs.items());
}

/// Runs workflows: a deterministic, serial event loop under limits and a policy.
#[derive(Debug, Clone)]
pub struct Runner {
    pub limits: ExecutionLimits,
    pub environment: RuntimeEnvironment,
    pub policy: ExecutionPolicy,
}

impl Runner {
    /// A runner with an empty environment that approves every capability.
    pub fn new(limits: ExecutionLimits) -> (r: Self)
        ensures
            r.limits == limits,
            r.policy.allow_all_writes,
            r.policy.allowed_capabilities@.len() == 0,
            empty_environment(r.environment),
    {
        Runner { limits, environment: RuntimeEnvironment::default(), policy: ExecutionPolicy::allow_all() }
    }

    /// A runner with the given environment that approves every capability.
    pub fn with_environment(limits: ExecutionLimits, environment: RuntimeEnvironment) -> (r: Self)
        ensures
            r.limits == limits,
            r.environment == environment,
            r.policy.allow_all_writes,
            r.policy.allowed_capabilities@.len() == 0,
    {
        Runner { limits, environment, policy: ExecutionPolicy::allow_all() }
    }

    /// A runner with the given environment and policy.
    pub fn with_environment_and_policy(
        limits: ExecutionLimits,
        environment: RuntimeEnvironment,
        policy: ExecutionPolicy,
    ) -> (r: Self)
        ensures
            r.limits == limits,
            r.environment == environment,
            r.policy == policy,
    {
        Runner { limits, environment, policy }
    }
}

impl Default for Runner {
    fn default() -> (r: Self)
        ensures
            r.limits.max_events == 1000,
            r.limits.max_steps == 2000,
            r.limits.max_depth == 100,
            r.policy.allow_all_writes,
            r.policy.allowed_capabilities@.len() == 0,
            empty_environment(r.environment),
    {
        Runner::new(ExecutionLimits::default())
    }
}

// ---------------------------------------------------------------------------------------
// Assertions and observations
// ---------------------------------------------------------------------------------------

/// The observation of an assertion on a payload.
pub open spec fn assertion_observed(o: Observation, a: AssertEffect, payload: JsonV) -> bool {
    match payload_lookup(payload, a.path@) {
        Some(actual) if actual == a.equals@ => o matches Observation::AssertionPassed { path }
            && path@ == a.path@,
        _ => o matches Observation::AssertionFailed { path, expected, actual }
            && path@ == a.path@ && expected@ == a.equals@ && match actual {
            Some(v) => payload_lookup(payload, a.path@) == Some(v@),
            None => payload_lookup(payload, a.path@) is None,
        },
    }
}

/// Evaluates an assertion against an event payload.
pub fn evaluate_assertion(assertion: &AssertEffect, payload: &JsonValue) -> (o: Observation)
    ensures
        assertion_observed(o, *assertion, payload@),
{
    let actual = lookup_payload_path(payload, assertion.path.as_str());
    let passed = match &actual {
        Some(v) => json_equal(v, &assertion.equals),
        None => false,
    };
    if passed {
        Observation::AssertionPassed { path: assertion.path.clone() }
    } else {
        Observation::AssertionFailed {
            path: assertion.path.clone(),
            expected: assertion.equals.clone(),
            actual,
        }
    }
}

/// Whether an observation fails the run: a failed assertion, a failed call, a failed
/// status expectation, or GraphQL errors.
pub open spec fn failed_observation(o: Observation) -> bool {
    match o {
        Observation::AssertionFailed { .. } => true,
        Observation::RestResponse { assertions, .. } => exists|i: int|
            0 <= i < assertions@.len() && (#[trigger] assertions@[i]) is StatusFailed,
        Observation::RestFailed { .. } => true,
        Observation::GraphqlResponse { assertions, .. } => exists|i: int|
            0 <= i < assertions@.len() && ((#[trigger] assertions@[i]) is StatusFailed
                || assertions@[i] is NoErrorsFailed),
        Observation::GraphqlFailed { .. } => true,
        Observation::AwsFailed { .. } => true,
        Observation::WebsocketFailed { .. } => true,
        Observation::WebsocketMessage { assertions, .. } => exists|i: int|
            0 <= i < assertions@.len() && (#[trigger] assertions@[i]) is JsonFieldFailed,
        _ => false,
    }
}

/// Whether an observation fails the run.
#[verifier::loop_isolation(false)]
pub fn observation_failed(observation: &Observation) -> (r: bool)
    ensures
        r == failed_observation(*observation),
{
    match observation {
        Observation::AssertionFailed { .. } => true,
        Observation::RestResponse { assertions, .. } => {
            let mut i: usize = 0;
            while i < assertions.len()
                invariant
                    i <= assertions@.len(),
                    forall|j: int| 0 <= j < i ==> !((#[trigger] assertions@[j]) is StatusFailed),
                decreases assertions.len() - i,
            {
                if let RestAssertionObservation::StatusFailed { .. } = assertions[i] {
                    return true;
                }
                i = i + 1;
            }
            false
        },
        Observation::RestFailed { .. } => true,
        Observation::GraphqlResponse { assertions, .. } => {
            let mut i: usize = 0;
            while i < assertions.len()
                invariant
                    i <= assertions@.len(),
                    forall|j: int|
                        0 <= j < i ==> !((#[trigger] assertions@[j]) is StatusFailed
                            || assertions@[j] is NoErrorsFailed),
                decreases assertions.len() - i,
            {
                match &assertions[i] {
                    GraphqlAssertionObservation::StatusFailed { .. } => {
                        return true;
                    },
                    GraphqlAssertionObservation::NoErrorsFailed { .. } => {
                        return true;
                    },
                    _ => {},
                }
                i = i + 1;
            }
            false
        },
        Observation::GraphqlFailed { .. } => true,
        Observation::AwsFailed { .. } => true,
        Observation::WebsocketFailed { .. } => true,
        Observation::WebsocketMessage { assertions, .. } => {
            let mut i: usize = 0;
            while i < assertions.len()
                invariant
                    i <= assertions@.len(),
                    forall|j: int| 0 <= j < i ==> !((#[trigger] assertions@[j]) is JsonFieldFailed),
                decreases assertions.len() - i,
            {
                if let WebsocketAssertionObservation::JsonFieldFailed { .. } = assertions[i] {
                    return true;
                }
                i = i + 1;
            }
            false
        },
        _ => false,
    }
}

/// The status assertion of a REST response, where the effect expects a status.
pub fn evaluate_rest_assertions(rest: &RestEffect, actual_status: u16) -> (r: Vec<
    RestAssertionObservation,
>)
    ensures
        match rest.expect.status {
            None => r@.len() == 0,
            Some(expected) => r@.len() == 1 && r@[0] == if expected == actual_status {
                RestAssertionObservation::StatusPassed { expected, actual: actual_status }
            } else {
                RestAssertionObservation::StatusFailed { expected, actual: actual_status }
            },
        },
{
    let mut r: Vec<RestAssertionObservation> = Vec::new();
    match rest.expect.status {
        Some(expected) => {
            if expected == actual_status {
                r.push(RestAssertionObservation::StatusPassed { expected, actual: actual_status });
            } else {
                r.push(RestAssertionObservation::StatusFailed { expected, actual: actual_status });
            }
        },
        None => {},
    }
    r
}

/// The assertions of a GraphQL response: the expected status, where there is one, then
/// whether the response has errors.
pub fn evaluate_graphql_assertions(
    graphql: &GraphqlEffect,
    response: &GraphqlResponseObservation,
) -> (r: Vec<GraphqlAssertionObservation>)
    ensures
        r@.len() == if graphql.expect.status is Some {
            2int
        } else {
            1int
        },
        match graphql.expect.status {
            Some(expected) => if expected == response.status {
                r@[0] matches GraphqlAssertionObservation::StatusPassed { expected: e, actual: a }
                    && e == expected && a == response.status
            } else {
                r@[0] matches GraphqlAssertionObservation::StatusFailed { expected: e, actual: a }
                    && e == expected && a == response.status
            },
            None => true,
        },
        response.errors@.len() == 0 ==> r@.last() is NoErrorsPassed,
        response.errors@.len() > 0 ==> (r@.last() matches GraphqlAssertionObservation::NoErrorsFailed { errors }
            && errors@.len() == response.errors@.len() && forall|i: int|
            0 <= i < errors@.len() ==> (#[trigger] errors@[i])@ == response.errors@[i]@),
{
    let mut r: Vec<GraphqlAssertionObservation> = Vec::new();
    match graphql.expect.status {
        Some(expected) => {
            if expected == response.status {
                r.push(
                    GraphqlAssertionObservation::StatusPassed { expected, actual: response.status },
                );
            } else {
                r.push(
                    GraphqlAssertionObservation::StatusFailed { expected, actual: response.status },
                );
            }
        },
        None => {},
    }
    if response.errors.len() == 0 {
        r.push(GraphqlAssertionObservation::NoErrorsPassed);
    } else {
        let errors = clone_values(&response.errors);
        r.push(GraphqlAssertionObservation::NoErrorsFailed { errors });
    }
    r
}

/// Copies of the values, in order.
pub fn clone_values(vs: &Vec<JsonValue>) -> (r: Vec<JsonValue>)
    ensures
        r@.len() == vs@.len(),
        forall|i: int| 0 <= i < r@.len() ==> (#[trigger] r@[i])@ == vs@[i]@,
{
    let mut r: Vec<JsonValue> = Vec::new();
    let mut i: usize = 0;
    while i < vs.len()
        invariant
            i <= vs@.len(),
            r@.len() == i,
            forall|j: int| 0 <= j < i ==> (#[trigger] r@[j])@ == vs@[j]@,
        decreases vs.len() - i,
    {
        r.push(vs[i].clone());
        i = i + 1;
    }
    r
}

// ---------------------------------------------------------------------------------------
// Documents that emissions select from
// ---------------------------------------------------------------------------------------

pub open spec fn body_json(b: RestBody) -> JsonV {
    match b {
        RestBody::Json { value } => value@,
        RestBody::Text { value } => JsonV::Str(value@),
        RestBody::Empty => JsonV::Null,
    }
}

pub open spec fn headers_json(h: StrMap<String>) -> JsonV {
    JsonV::Object(h.items().map_values(|e: (String, String)| (e.0@, JsonV::Str(e.1@))))
}

/// The document that REST emissions select from: body, headers and status.
pub open spec fn rest_document(r: RestResponseObservation) -> JsonV {
    JsonV::Object(
        seq![
            ("body"@, body_json(r.body)),
            ("headers"@, headers_json(r.headers)),
            ("status"@, JsonV::Number(decimal(r.status as nat))),
        ],
    )
}

pub open spec fn opt_json(v: Option<JsonValue>) -> JsonV {
    match v {
        Some(x) => x@,
        None => JsonV::Null,
    }
}

/// The document that GraphQL emissions select from: data, errors, extensions, headers, status.
pub open spec fn graphql_document(r: GraphqlResponseObservation) -> JsonV {
    JsonV::Object(
        seq![
            ("data"@, opt_json(r.data)),
            ("errors"@, JsonV::Array(r.errors@.map_values(|v: JsonValue| v@))),
            ("extensions"@, opt_json(r.extensions)),
            ("headers"@, headers_json(r.headers)),
            ("status"@, JsonV::Number(decimal(r.status as nat))),
        ],
    )
}

fn headers_value(headers: &StrMap<String>) -> (r: JsonValue)
    ensures
        r@ == headers_json(*headers),
{
    let entries = headers.entries();
    let mut members: Vec<(String, JsonValue)> = Vec::new();
    let mut i: usize = 0;
    while i < entries.len()
        invariant
            i <= entries@.len(),
            entries@ == headers.items(),
            members@.len() == i,
            forall|j: int|
                0 <= j < i ==> (#[trigger] members@[j]).0@ == entries@[j].0@ && members@[j].1@
                    == JsonV::Str(entries@[j].1@),
        decreases entries.len() - i,
    {
        members.push((entries[i].0.clone(), JsonValue::String(entries[i].1.clone())));
        i = i + 1;
    }
    proof {
        crate::json::lemma_object_view(members);
        assert(crate::json::members_view(members@) =~= headers.items().map_values(
            |e: (String, String)| (e.0@, JsonV::Str(e.1@)),
        ));
    }
    JsonValue::Object(members)
}

fn option_value(v: &Option<JsonValue>) -> (r: JsonValue)
    ensures
        r@ == opt_json(*v),
{
    match v {
        Some(x) => x.clone(),
        None => JsonValue::Null,
    }
}

/// The document that REST emissions select from.
pub fn rest_extraction_document(response: &RestResponseObservation) -> (r: JsonValue)
    ensures
        r@ == rest_document(*response),
{
    let body = match &response.body {
        RestBody::Json { value } => value.clone(),
        RestBody::Text { value } => JsonValue::String(value.clone()),
        RestBody::Empty => JsonValue::Null,
    };
    let members = vec![
        (String::from_str("body"), body),
        (String::from_str("headers"), headers_value(&response.headers)),
        (String::from_str("status"), JsonValue::Number(crate::text::decimal_string(response.status as u64))),
    ];
    proof {
        crate::json::lemma_object_view(members);
        assert(crate::json::members_view(members@) =~= rest_document(*response)->Object_0);
    }
    JsonValue::Object(members)
}

/// The document that GraphQL emissions select from.
pub fn graphql_extraction_document(response: &GraphqlResponseObservation) -> (r: JsonValue)
    ensures
        r@ == graphql_document(*response),
{
    let errors = clone_values(&response.errors);
    let members = vec![
        (String::from_str("data"), option_value(&response.data)),
        (String::from_str("errors"), JsonValue::Array(errors)),
        (String::from_str("extensions"), option_value(&response.extensions)),
        (String::from_str("headers"), headers_value(&response.headers)),
        (String::from_str("status"), JsonValue::Number(crate::text::decimal_string(response.status as u64))),
    ];
    proof {
        crate::json::lemma_array_view(errors);
        assert(crate::json::items_view(errors@) =~= response.errors@.map_values(|v: JsonValue| v@));
        crate::json::lemma_object_view(members);
        assert(crate::json::members_view(members@) =~= graphql_document(*response)->Object_0);
    }
    JsonValue::Object(members)
}

/// What a JSONPath selector selects in a document: nothing, the one value, or all the
/// values as an array; or the text of the error where the selector is not JSONPath.
pub open spec fn selection(document: JsonV, path: Seq<char>) -> Result<Option<JsonV>, Seq<char>> {
    match jsonpath_error(path) {
        Some(e) => Err("failed to parse JSONPath '"@ + path + "': "@ + e),
        None => {
            let vs = jsonpath_values(path, document);
            if vs.len() == 0 {
                Ok(None)
            } else if vs.len() == 1 {
                Ok(Some(vs[0]))
            } else {
                Ok(Some(JsonV::Array(vs)))
            }
        },
    }
}

/// Selects a value from a document with a JSONPath selector.
pub fn select_json_path_value(document: &JsonValue, selector: &JsonPathSelector) -> (r: Result<
    Option<JsonValue>,
    String,
>)
    ensures
        match r {
            Ok(Some(v)) => selection(document@, selector.from@) == Ok::<Option<JsonV>, Seq<char>>(
                Some(v@),
            ),
            Ok(None) => selection(document@, selector.from@) == Ok::<Option<JsonV>, Seq<char>>(
                None,
            ),
            Err(m) => selection(document@, selector.from@) == Err::<Option<JsonV>, Seq<char>>(m@),
        },
{
    match jsonpath_query(selector.from.as_str(), document) {
        Err(e) => {
            let mut m: Vec<char> = Vec::new();
            push_str(&mut m, "failed to parse JSONPath '");
            push_string(&mut m, &selector.from);
            push_str(&mut m, "': ");
            push_string(&mut m, &e);
            Err(string_of(&m))
        },
        Ok(mut values) => {
            let ghost vv = values@.map_values(|v: JsonValue| v@);
            if values.len() == 0 {
                Ok(None)
            } else if values.len() == 1 {
                let v = values.pop().unwrap();
                assert(vv[0] == v@);
                Ok(Some(v))
            } else {
                let r = JsonValue::Array(values);
                proof {
                    crate::json::lemma_array_view(values);
                    assert(crate::json::items_view(values@) =~= vv);
                }
                Ok(Some(r))
            }
        },
    }
}

/// Whether a GraphQL response holds the parts of its JSON body: `data` and `extensions` as
/// the body has them, and the items of `errors` where that is an array, else none.
pub open spec fn graphql_parts(g: GraphqlResponseObservation, value: JsonV) -> bool {
    &&& (g.data is Some <==> json_get(value, "data"@) is Some)
    &&& opt_json(g.data) == match json_get(value, "data"@) {
        Some(d) => d,
        None => JsonV::Null,
    }
    &&& (g.extensions is Some <==> json_get(value, "extensions"@) is Some)
    &&& opt_json(g.extensions) == match json_get(value, "extensions"@) {
        Some(d) => d,
        None => JsonV::Null,
    }
    &&& JsonV::Array(g.errors@.map_values(|v: JsonValue| v@)) == match json_get(value, "errors"@) {
        Some(JsonV::Array(items)) => JsonV::Array(items),
        _ => JsonV::Array(Seq::empty()),
    }
}

/// A GraphQL response read from an HTTP response with a JSON body.
pub fn graphql_response_from_http(operation: &str, response: RestResponseObservation) -> (r: Result<
    GraphqlResponseObservation,
    EngineError,
>)
    ensures
        match r {
            Ok(g) => response.body matches RestBody::Json { value } && g.status == response.status
                && g.headers == response.headers && graphql_parts(g, value@),
            Err(e) => !(response.body is Json) && engine_error_text(e) == "failed to execute GraphQL operation "@
                + operation@ + ": "@ + "GraphQL response body was not JSON"@,
        },
{
    let value = match response.body {
        RestBody::Json { value } => value,
        _ => {
            return Err(EngineError::GraphqlRequestFailed {
                operation: operation.to_owned(),
                message: String::from_str("GraphQL response body was not JSON"),
            });
        },
    };
    let data = json_get_exec(&value, &chars_of("data"));
    let extensions = json_get_exec(&value, &chars_of("extensions"));
    let errors = match json_get_exec(&value, &chars_of("errors")) {
        Some(JsonValue::Array(items)) => {
            proof {
                crate::json::lemma_array_view(items);
                assert(crate::json::items_view(items@) =~= items@.map_values(|v: JsonValue| v@));
            }
            items
        },
        _ => Vec::new(),
    };
    let r = GraphqlResponseObservation {
        status: response.status,
        headers: response.headers,
        data,
        errors,
        extensions,
    };
    proof {
        reveal(graphql_parts);
        if r.errors@.len() == 0 {
            assert(r.errors@.map_values(|v: JsonValue| v@) =~= Seq::<JsonV>::empty());
        }
    }
    Ok(r)
}


// ---------------------------------------------------------------------------------------
// Emitted events
// ---------------------------------------------------------------------------------------

/// The id of the `n`th event that a run creates.
pub open spec fn event_id_text(n: nat) -> Seq<char> {
    "event-"@ + decimal(n)
}

/// The events that an effect emits are caused by the event it ran for and its trace entry,
/// one level deeper, within the depth limit, numbered on from the events created before.
pub open spec fn emitted_ok(
    evs: Seq<Event>,
    event: Event,
    trace_id: Seq<char>,
    created_before: nat,
    limits: ExecutionLimits,
) -> bool {
    forall|k: int|
        0 <= k < evs.len() ==> {
            let e = #[trigger] evs[k];
            &&& e.caused_by matches Some(c) && c.event_id@ == event.id@ && c.trace_entry_id@
                == trace_id
            &&& e.depth == event.depth + 1
            &&& e.depth <= limits.max_depth
            &&& e.sequence == created_before + k + 1
            &&& e.sequence <= limits.max_events
            &&& e.id@ == event_id_text(e.sequence as nat)
        }
}

/// The payload members that selectors pick from a document; or, for the first selector
/// that fails, whether it is invalid, its query, and the error text.
pub open spec fn selected_payload(doc: JsonV, fields: Seq<(String, JsonPathSelector)>) -> Result<
    Seq<(Seq<char>, JsonV)>,
    (bool, Seq<char>, Seq<char>),
>
    decreases fields.len(),
{
    if fields.len() == 0 {
        Ok(Seq::empty())
    } else {
        match selected_payload(doc, fields.drop_last()) {
            Err(e) => Err(e),
            Ok(p) => {
                let f = fields.last();
                match selection(doc, f.1.from@) {
                    Err(m) => Err((true, f.1.from@, m)),
                    Ok(None) => Err((false, f.1.from@, Seq::empty())),
                    Ok(Some(v)) => Ok(p.push((f.0@, v))),
                }
            },
        }
    }
}

/// The text of an emission error.
pub open spec fn emission_error_text(
    graphql: bool,
    event_type: Seq<char>,
    e: (bool, Seq<char>, Seq<char>),
) -> Seq<char> {
    let kind = if graphql {
        "failed to emit GraphQL event "@
    } else {
        "failed to emit REST event "@
    };
    if e.0 {
        kind + event_type + ": JSONPath '"@ + e.1 + "' is invalid: "@ + e.2
    } else {
        kind + event_type + ": JSONPath '"@ + e.1 + "' did not match"@
    }
}

/// The event that one emission creates, or the text of the error that stops it.
pub open spec fn emission_event(
    event_type: Seq<char>,
    fields: Seq<(String, JsonPathSelector)>,
    doc: JsonV,
    event: Event,
    trace_id: Seq<char>,
    created: nat,
    limits: ExecutionLimits,
    graphql: bool,
) -> Result<crate::domain::event::EventV, Seq<char>> {
    if created >= limits.max_events {
        Err("max event count exceeded: limit is "@ + decimal(limits.max_events as nat))
    } else if event.depth + 1 > limits.max_depth {
        Err("max event depth exceeded: limit is "@ + decimal(limits.max_depth as nat))
    } else {
        match selected_payload(doc, fields) {
            Err(e) => Err(emission_error_text(graphql, event_type, e)),
            Ok(p) => Ok(
                crate::domain::event::EventV {
                    id: event_id_text(created + 1),
                    event_type,
                    payload: JsonV::Object(p),
                    caused_by: Some((event.id@, trace_id)),
                    sequence: (created + 1) as u64,
                    depth: (event.depth + 1) as u32,
                },
            ),
        }
    }
}

/// Creates the event of one emission.
#[verifier::loop_isolation(false)]
fn emit_one(
    event_type: &String,
    fields: &StrMap<JsonPathSelector>,
    doc: &JsonValue,
    event: &Event,
    trace_entry_id: &str,
    created_events: &mut usize,
    limits: &ExecutionLimits,
    graphql: bool,
) -> (r: Result<Event, EngineError>)
    ensures
        match r {
            Ok(e) => emission_event(
                event_type@,
                fields.items(),
                doc@,
                *event,
                trace_entry_id@,
                *old(created_events) as nat,
                *limits,
                graphql,
            ) == Ok::<crate::domain::event::EventV, Seq<char>>(e@) && *final(created_events)
                == *old(created_events) + 1,
            Err(err) => emission_event(
                event_type@,
                fields.items(),
                doc@,
                *event,
                trace_entry_id@,
                *old(created_events) as nat,
                *limits,
                graphql,
            ) == Err::<crate::domain::event::EventV, Seq<char>>(engine_error_text(err))
                && *final(created_events) == *old(created_events),
        },
{
    if *created_events >= limits.max_events {
        return Err(EngineError::MaxEventCountExceeded { limit: limits.max_events });
    }
    if event.depth as u64 + 1 > limits.max_depth as u64 {
        return Err(EngineError::MaxDepthExceeded { limit: limits.max_depth });
    }
    let entries = fields.entries();
    let mut members: Vec<(String, JsonValue)> = Vec::new();
    let mut i: usize = 0;
    assert(entries@.take(0) =~= Seq::<(String, JsonPathSelector)>::empty());
    assert(crate::json::members_view(members@) =~= Seq::<(Seq<char>, JsonV)>::empty());
    while i < entries.len()
        invariant
            i <= entries@.len(),
            entries@ == fields.items(),
            members@.len() == i,
            selected_payload(doc@, entries@.take(i as int)) == Ok::<
                Seq<(Seq<char>, JsonV)>,
                (bool, Seq<char>, Seq<char>),
            >(crate::json::members_view(members@)),
        decreases entries.len() - i,
    {
        assert(entries@.take(i + 1).drop_last() =~= entries@.take(i as int));
        assert(entries@.take(i + 1).last() == entries@[i as int]);
        let selected = select_json_path_value(doc, &entries[i].1);
        match selected {
            Err(message) => {
                proof {
                    lemma_selected_err_prefix(doc@, entries@, i + 1);
                }
                return Err(
                    if graphql {
                        EngineError::GraphqlEmissionPathInvalid {
                            event_type: event_type.clone(),
                            path: entries[i].1.from.clone(),
                            message,
                        }
                    } else {
                        EngineError::RestEmissionPathInvalid {
                            event_type: event_type.clone(),
                            path: entries[i].1.from.clone(),
                            message,
                        }
                    },
                );
            },
            Ok(None) => {
                proof {
                    lemma_selected_err_prefix(doc@, entries@, i + 1);
                }
                return Err(
                    if graphql {
                        EngineError::GraphqlEmissionPathMissing {
                            event_type: event_type.clone(),
                            path: entries[i].1.from.clone(),
                        }
                    } else {
                        EngineError::RestEmissionPathMissing {
                            event_type: event_type.clone(),
                            path: entries[i].1.from.clone(),
                        }
                    },
                );
            },
            Ok(Some(value)) => {
                let ghost before = members@;
                members.push((entries[i].0.clone(), value));
                assert(crate::json::members_view(members@) =~= crate::json::members_view(
                    before,
                ).push((members@[i as int].0@, members@[i as int].1@)));
            },
        }
        i = i + 1;
    }
    assert(entries@.take(i as int) =~= entries@);
    *created_events = *created_events + 1;
    let payload = JsonValue::Object(members);
    proof {
        crate::json::lemma_object_view(members);
    }
    Ok(new_event(*created_events, event_type, payload, event, trace_entry_id))
}

proof fn lemma_selected_err_prefix(doc: JsonV, s: Seq<(String, JsonPathSelector)>, k: int)
    requires
        0 <= k <= s.len(),
        selected_payload(doc, s.take(k)) is Err,
    ensures
        selected_payload(doc, s) == selected_payload(doc, s.take(k)),
    decreases s.len() - k,
{
    if k < s.len() {
        assert(s.take(k + 1).drop_last() =~= s.take(k));
        lemma_selected_err_prefix(doc, s, k + 1);
    } else {
        assert(s.take(k) =~= s);
    }
}

/// The `created`th event of a run, caused by `event` through the trace entry `trace_entry_id`.
fn new_event(
    created: usize,
    event_type: &String,
    payload: JsonValue,
    event: &Event,
    trace_entry_id: &str,
) -> (e: Event)
    requires
        event.depth < u32::MAX,
    ensures
        e@.id == event_id_text(created as nat),
        e@.event_type == event_type@,
        e@.payload == payload@,
        e@.caused_by == Some((event.id@, trace_entry_id@)),
        e.sequence == created,
        e.depth == event.depth + 1,
{
    let mut id: Vec<char> = Vec::new();
    push_str(&mut id, "event-");
    push_decimal(&mut id, created as u64);
    Event {
        id: string_of(&id),
        event_type: event_type.clone(),
        payload,
        caused_by: Some(
            EventCause { event_id: event.id.clone(), trace_entry_id: trace_entry_id.to_owned() },
        ),
        sequence: created as u64,
        depth: event.depth + 1,
    }
}

/// The events of a list of emissions, in order, or the text of the first error.
pub open spec fn emissions_events(
    emits: Seq<(Seq<char>, Seq<(String, JsonPathSelector)>)>,
    doc: JsonV,
    event: Event,
    trace_id: Seq<char>,
    created: nat,
    limits: ExecutionLimits,
    graphql: bool,
) -> Result<Seq<crate::domain::event::EventV>, Seq<char>>
    decreases emits.len(),
{
    if emits.len() == 0 {
        Ok(Seq::empty())
    } else {
        match emissions_events(emits.drop_last(), doc, event, trace_id, created, limits, graphql) {
            Err(m) => Err(m),
            Ok(p) => match emission_event(
                emits.last().0,
                emits.last().1,
                doc,
                event,
                trace_id,
                created + p.len(),
                limits,
                graphql,
            ) {
                Err(m) => Err(m),
                Ok(e) => Ok(p.push(e)),
            },
        }
    }
}

pub open spec fn rest_emits(r: RestEffect) -> Seq<(Seq<char>, Seq<(String, JsonPathSelector)>)> {
    r.emits@.map_values(|e: crate::domain::effect::RestEventEmission| (e.event_type@, e.payload.items()))
}

pub open spec fn graphql_emits(g: GraphqlEffect) -> Seq<(Seq<char>, Seq<(String, JsonPathSelector)>)> {
    g.emits@.map_values(
        |e: crate::domain::effect::GraphqlEventEmission| (e.event_type@, e.payload.items()),
    )
}

proof fn lemma_emissions_err_prefix(
    emits: Seq<(Seq<char>, Seq<(String, JsonPathSelector)>)>,
    k: int,
    doc: JsonV,
    event: Event,
    trace_id: Seq<char>,
    created: nat,
    limits: ExecutionLimits,
    graphql: bool,
)
    requires
        0 <= k <= emits.len(),
        emissions_events(emits.take(k), doc, event, trace_id, created, limits, graphql) is Err,
    ensures
        emissions_events(emits, doc, event, trace_id, created, limits, graphql) == emissions_events(
            emits.take(k),
            doc,
            event,
            trace_id,
            created,
            limits,
            graphql,
        ),
    decreases emits.len() - k,
{
    if k < emits.len() {
        assert(emits.take(k + 1).drop_last() =~= emits.take(k));
        lemma_emissions_err_prefix(emits, k + 1, doc, event, trace_id, created, limits, graphql);
    } else {
        assert(emits.take(k) =~= emits);
    }
}

proof fn lemma_emissions_ok(
    emits: Seq<(Seq<char>, Seq<(String, JsonPathSelector)>)>,
    doc: JsonV,
    event: Event,
    trace_id: Seq<char>,
    created: nat,
    limits: ExecutionLimits,
    graphql: bool,
)
    requires
        emissions_events(emits, doc, event, trace_id, created, limits, graphql) is Ok,
    ensures
        ({
            let evs = emissions_events(emits, doc, event, trace_id, created, limits, graphql)->Ok_0;
            &&& evs.len() == emits.len()
            &&& forall|k: int|
                0 <= k < evs.len() ==> {
                    let e = #[trigger] evs[k];
                    &&& e.caused_by == Some((event.id@, trace_id))
                    &&& e.depth == event.depth + 1
                    &&& e.depth <= limits.max_depth
                    &&& e.sequence == created + k + 1
                    &&& e.sequence <= limits.max_events
                    &&& e.id == event_id_text(e.sequence as nat)
                }
        }),
    decreases emits.len(),
{
    if emits.len() > 0 {
        lemma_emissions_ok(emits.drop_last(), doc, event, trace_id, created, limits, graphql);
    }
}

/// The events that a list of emissions creates.
#[verifier::loop_isolation(false)]
fn emit_all(
    emits: &Vec<(&String, &StrMap<JsonPathSelector>)>,
    doc: &JsonValue,
    event: &Event,
    trace_entry_id: &str,
    created_events: &mut usize,
    limits: &ExecutionLimits,
    graphql: bool,
    Ghost(spec_emits): Ghost<Seq<(Seq<char>, Seq<(String, JsonPathSelector)>)>>,
) -> (r: Result<Vec<Event>, EngineError>)
    requires
        spec_emits.len() == emits@.len(),
        forall|k: int|
            0 <= k < emits@.len() ==> (#[trigger] spec_emits[k]) == (emits@[k].0@, emits@[k].1.items()),
    ensures
        match r {
            Ok(evs) => emissions_events(
                spec_emits,
                doc@,
                *event,
                trace_entry_id@,
                *old(created_events) as nat,
                *limits,
                graphql,
            ) == Ok::<Seq<crate::domain::event::EventV>, Seq<char>>(evs@.map_values(|e: Event| e@))
                && *final(created_events) == *old(created_events) + evs@.len(),
            Err(err) => emissions_events(
                spec_emits,
                doc@,
                *event,
                trace_entry_id@,
                *old(created_events) as nat,
                *limits,
                graphql,
            ) == Err::<Seq<crate::domain::event::EventV>, Seq<char>>(engine_error_text(err)),
        },
{
    let ghost c0 = *created_events as nat;
    let mut out: Vec<Event> = Vec::new();
    let mut i: usize = 0;
    assert(spec_emits.take(0) =~= Seq::<(Seq<char>, Seq<(String, JsonPathSelector)>)>::empty());
    assert(out@.map_values(|e: Event| e@) =~= Seq::<crate::domain::event::EventV>::empty());
    while i < emits.len()
        invariant
            i <= emits@.len(),
            spec_emits.len() == emits@.len(),
            forall|k: int|
                0 <= k < emits@.len() ==> (#[trigger] spec_emits[k]) == (emits@[k].0@, emits@[k].1.items()),
            emissions_events(spec_emits.take(i as int), doc@, *event, trace_entry_id@, c0, *limits, graphql)
                == Ok::<Seq<crate::domain::event::EventV>, Seq<char>>(out@.map_values(|e: Event| e@)),
            *created_events == c0 + out@.len(),
            out@.len() == i,
        decreases emits.len() - i,
    {
        assert(spec_emits.take(i + 1).drop_last() =~= spec_emits.take(i as int));
        assert(spec_emits.take(i + 1).last() == spec_emits[i as int]);
        match emit_one(emits[i].0, emits[i].1, doc, event, trace_entry_id, created_events, limits, graphql) {
            Ok(e) => {
                let ghost before = out@;
                out.push(e);
                assert(out@.map_values(|e: Event| e@) =~= before.map_values(|e: Event| e@).push(e@));
            },
            Err(err) => {
                proof {
                    lemma_emissions_err_prefix(spec_emits, i + 1, doc@, *event, trace_entry_id@, c0, *limits, graphql);
                }
                return Err(err);
            },
        }
        i = i + 1;
    }
    assert(spec_emits.take(i as int) =~= spec_emits);
    Ok(out)
}


// ---------------------------------------------------------------------------------------
// Failure messages
// ---------------------------------------------------------------------------------------

/// The first failed status assertion of a REST response.
pub open spec fn first_rest_failure(a: Seq<RestAssertionObservation>) -> Option<(u16, u16)>
    decreases a.len(),
{
    if a.len() == 0 {
        None
    } else {
        match a[0] {
            RestAssertionObservation::StatusFailed { expected, actual } => Some((expected, actual)),
            _ => first_rest_failure(a.drop_first()),
        }
    }
}

/// The first failed assertion of a GraphQL response: a status (expected, actual), or a
/// count of errors.
pub open spec fn first_graphql_failure(a: Seq<GraphqlAssertionObservation>) -> Option<
    Result<(u16, u16), nat>,
>
    decreases a.len(),
{
    if a.len() == 0 {
        None
    } else {
        match a[0] {
            GraphqlAssertionObservation::StatusFailed { expected, actual } => Some(
                Ok((expected, actual)),
            ),
            GraphqlAssertionObservation::NoErrorsFailed { errors } => Some(Err(errors@.len())),
            _ => first_graphql_failure(a.drop_first()),
        }
    }
}

pub open spec fn status_suffix(status: Option<u16>) -> Seq<char> {
    match status {
        Some(s) => " returned status "@ + decimal(s as nat),
        None => Seq::empty(),
    }
}

pub open spec fn operation_label(name: Option<String>) -> Seq<char> {
    match name {
        Some(n) => n@,
        None => "anonymous operation"@,
    }
}

/// The message with which a failed observation fails the run.
pub open spec fn failure_text(o: Observation) -> Seq<char> {
    match o {
        Observation::AssertionFailed { path, expected, actual } =>
            "assertion failed during workflow run: path "@ + path@ + " expected "@ + json_text(
                expected@,
            ) + ", actual "@ + match actual {
                Some(v) => json_text(v@),
                None => "<missing>"@,
            },
        Observation::RestResponse { operation, response, assertions, .. } => match first_rest_failure(
            assertions@,
        ) {
            Some((e, a)) => "REST assertion failed during workflow run: event-triggered handler executed "@
                + operation.method@ + " "@ + operation.url@ + "; status expected "@ + decimal(
                e as nat,
            ) + ", actual "@ + decimal(a as nat),
            None => "REST effect failed during workflow run: "@ + operation.method@ + " "@
                + operation.url@ + " returned status "@ + decimal(response.status as nat),
        },
        Observation::RestFailed { operation, message, status } =>
            "REST effect failed during workflow run: "@ + operation.method@ + " "@ + operation.url@
                + status_suffix(status) + ": "@ + message@,
        Observation::GraphqlResponse { operation, response, assertions, .. } =>
            match first_graphql_failure(assertions@) {
            Some(Ok((e, a))) => "GraphQL assertion failed during workflow run: "@ + operation_label(
                operation.operation_name,
            ) + " at "@ + operation.url@ + "; status expected "@ + decimal(e as nat)
                + ", actual "@ + decimal(a as nat),
            Some(Err(n)) => "GraphQL operation "@ + operation_label(operation.operation_name)
                + " at "@ + operation.url@ + " returned "@ + decimal(n) + " error(s)"@,
            None => "GraphQL effect failed during workflow run: "@ + operation.url@
                + " returned status "@ + decimal(response.status as nat),
        },
        Observation::GraphqlFailed { operation, message, status } =>
            "GraphQL effect failed during workflow run: "@ + operation.url@ + status_suffix(status)
                + ": "@ + message@,
        Observation::AwsFailed { operation, message } => "AWS effect failed during workflow run: "@
            + operation.action@ + " "@ + operation.url@ + ": "@ + message@,
        Observation::WebsocketFailed { operation, message } =>
            "WebSocket effect failed during workflow run: "@ + operation.url@ + ": "@ + message@,
        Observation::WebsocketMessage { operation, assertions, .. } => match first_ws_failure(
            assertions@,
        ) {
            Some((path, expected, actual)) => "WebSocket expectation failed during workflow run: "@
                + operation.url@ + ": path "@ + path + " expected "@ + json_text(expected)
                + ", actual "@ + match actual {
                Some(v) => json_text(v),
                None => "<missing>"@,
            },
            None => "workflow run failed"@,
        },
        _ => "workflow run failed"@,
    }
}

fn push_status_suffix(out: &mut Vec<char>, status: Option<u16>)
    ensures
        final(out)@ == old(out)@ + status_suffix(status),
{
    match status {
        Some(s) => {
            push_str(out, " returned status ");
            push_decimal(out, s as u64);
        },
        None => {},
    }
}

fn push_operation_label(out: &mut Vec<char>, name: &Option<String>)
    ensures
        final(out)@ == old(out)@ + operation_label(*name),
{
    match name {
        Some(n) => push_string(out, n),
        None => push_str(out, "anonymous operation"),
    }
}

/// The first failed expectation of a WebSocket message: its path, the value expected and
/// the value selected.
pub open spec fn first_ws_failure(a: Seq<WebsocketAssertionObservation>) -> Option<
    (Seq<char>, JsonV, Option<JsonV>),
>
    decreases a.len(),
{
    if a.len() == 0 {
        None
    } else {
        match a[0] {
            WebsocketAssertionObservation::JsonFieldFailed { path, expected, actual } => Some(
                (path@, expected@, opt_json_view(actual)),
            ),
            _ => first_ws_failure(a.drop_first()),
        }
    }
}

/// The text of the first failed expectation of a WebSocket message.
fn push_ws_failure(out: &mut Vec<char>, url: &String, assertions: &Vec<WebsocketAssertionObservation>)
    ensures
        final(out)@ == old(out)@ + match first_ws_failure(assertions@) {
            Some((path, expected, actual)) => "WebSocket expectation failed during workflow run: "@
                + url@ + ": path "@ + path + " expected "@ + json_text(expected) + ", actual "@
                + match actual {
                Some(v) => json_text(v),
                None => "<missing>"@,
            },
            None => "workflow run failed"@,
        },
{
    let mut i: usize = 0;
    assert(assertions@.subrange(0, assertions@.len() as int) =~= assertions@);
    while i < assertions.len()
        invariant
            i <= assertions@.len(),
            *out == *old(out),
            first_ws_failure(assertions@) == first_ws_failure(
                assertions@.subrange(i as int, assertions@.len() as int),
            ),
        decreases assertions.len() - i,
    {
        let ghost rest = assertions@.subrange(i as int, assertions@.len() as int);
        assert(rest.drop_first() =~= assertions@.subrange(i + 1, assertions@.len() as int));
        assert(rest[0] == assertions@[i as int]);
        if let WebsocketAssertionObservation::JsonFieldFailed { path, expected, actual } = &assertions[i] {
            push_str(out, "WebSocket expectation failed during workflow run: ");
            push_string(out, url);
            push_str(out, ": path ");
            push_string(out, path);
            push_str(out, " expected ");
            let e = expected.to_json_text();
            push_string(out, &e);
            push_str(out, ", actual ");
            match actual {
                Some(v) => {
                    let a = v.to_json_text();
                    push_string(out, &a);
                },
                None => push_str(out, "<missing>"),
            }
            return;
        }
        i = i + 1;
    }
    assert(assertions@.subrange(i as int, assertions@.len() as int) =~= Seq::<WebsocketAssertionObservation>::empty());
    push_str(out, "workflow run failed");
}

/// The message with which a failed observation fails the run.
pub fn observation_failure_message(observation: &Observation) -> (r: String)
    ensures
        r@ == failure_text(*observation),
{
    let mut out: Vec<char> = Vec::new();
    match observation {
        Observation::AssertionFailed { path, expected, actual } => {
            push_str(&mut out, "assertion failed during workflow run: path ");
            push_string(&mut out, path);
            push_str(&mut out, " expected ");
            let e = expected.to_json_text();
            push_string(&mut out, &e);
            push_str(&mut out, ", actual ");
            match actual {
                Some(v) => {
                    let a = v.to_json_text();
                    push_string(&mut out, &a);
                },
                None => push_str(&mut out, "<missing>"),
            }
        },
        Observation::RestResponse { operation, response, assertions, .. } => {
            let mut i: usize = 0;
            let mut found: Option<(u16, u16)> = None;
            assert(assertions@.subrange(0, assertions@.len() as int) =~= assertions@);
            while i < assertions.len()
                invariant
                    i <= assertions@.len(),
                    found is None ==> first_rest_failure(assertions@) == first_rest_failure(
                        assertions@.subrange(i as int, assertions@.len() as int),
                    ),
                    found is Some ==> first_rest_failure(assertions@) == found,
                decreases assertions.len() - i,
            {
                if found.is_none() {
                    assert(assertions@.subrange(i as int, assertions@.len() as int).drop_first()
                        =~= assertions@.subrange(i + 1, assertions@.len() as int));
                    if let RestAssertionObservation::StatusFailed { expected, actual } = assertions[i] {
                        found = Some((expected, actual));
                    }
                }
                i = i + 1;
            }
            proof {
                if found is None {
                    assert(assertions@.subrange(i as int, assertions@.len() as int).len() == 0);
                }
            }
            match found {
                Some((e, a)) => {
                    push_str(&mut out, "REST assertion failed during workflow run: event-triggered handler executed ");
                    push_string(&mut out, &operation.method);
                    push_str(&mut out, " ");
                    push_string(&mut out, &operation.url);
                    push_str(&mut out, "; status expected ");
                    push_decimal(&mut out, e as u64);
                    push_str(&mut out, ", actual ");
                    push_decimal(&mut out, a as u64);
                },
                None => {
                    push_str(&mut out, "REST effect failed during workflow run: ");
                    push_string(&mut out, &operation.method);
                    push_str(&mut out, " ");
                    push_string(&mut out, &operation.url);
                    push_str(&mut out, " returned status ");
                    push_decimal(&mut out, response.status as u64);
                },
            }
        },
        Observation::RestFailed { operation, message, status } => {
            push_str(&mut out, "REST effect failed during workflow run: ");
            push_string(&mut out, &operation.method);
            push_str(&mut out, " ");
            push_string(&mut out, &operation.url);
            push_status_suffix(&mut out, *status);
            push_str(&mut out, ": ");
            push_string(&mut out, message);
        },
        Observation::GraphqlResponse { operation, response, assertions, .. } => {
            let mut i: usize = 0;
            let mut found: Option<Result<(u16, u16), usize>> = None;
            assert(assertions@.subrange(0, assertions@.len() as int) =~= assertions@);
            while i < assertions.len()
                invariant
                    i <= assertions@.len(),
                    found is None ==> first_graphql_failure(assertions@) == first_graphql_failure(
                        assertions@.subrange(i as int, assertions@.len() as int),
                    ),
                    found matches Some(Ok(p)) ==> first_graphql_failure(assertions@) == Some(
                        Ok::<(u16, u16), nat>(p),
                    ),
                    found matches Some(Err(n)) ==> first_graphql_failure(assertions@) == Some(
                        Err::<(u16, u16), nat>(n as nat),
                    ),
                decreases assertions.len() - i,
            {
                if found.is_none() {
                    assert(assertions@.subrange(i as int, assertions@.len() as int).drop_first()
                        =~= assertions@.subrange(i + 1, assertions@.len() as int));
                    match &assertions[i] {
                        GraphqlAssertionObservation::StatusFailed { expected, actual } => {
                            found = Some(Ok((*expected, *actual)));
                        },
                        GraphqlAssertionObservation::NoErrorsFailed { errors } => {
                            found = Some(Err(errors.len()));
                        },
                        _ => {},
                    }
                }
                i = i + 1;
            }
            proof {
                if found is None {
                    assert(assertions@.subrange(i as int, assertions@.len() as int).len() == 0);
                }
            }
            match found {
                Some(Ok((e, a))) => {
                    push_str(&mut out, "GraphQL assertion failed during workflow run: ");
                    push_operation_label(&mut out, &operation.operation_name);
                    push_str(&mut out, " at ");
                    push_string(&mut out, &operation.url);
                    push_str(&mut out, "; status expected ");
                    push_decimal(&mut out, e as u64);
                    push_str(&mut out, ", actual ");
                    push_decimal(&mut out, a as u64);
                },
                Some(Err(n)) => {
                    push_str(&mut out, "GraphQL operation ");
                    push_operation_label(&mut out, &operation.operation_name);
                    push_str(&mut out, " at ");
                    push_string(&mut out, &operation.url);
                    push_str(&mut out, " returned ");
                    push_decimal(&mut out, n as u64);
                    push_str(&mut out, " error(s)");
                },
                None => {
                    push_str(&mut out, "GraphQL effect failed during workflow run: ");
                    push_string(&mut out, &operation.url);
                    push_str(&mut out, " returned status ");
                    push_decimal(&mut out, response.status as u64);
                },
            }
        },
        Observation::GraphqlFailed { operation, message, status } => {
            push_str(&mut out, "GraphQL effect failed during workflow run: ");
            push_string(&mut out, &operation.url);
            push_status_suffix(&mut out, *status);
            push_str(&mut out, ": ");
            push_string(&mut out, message);
        },
        Observation::AwsFailed { operation, message } => {
            push_str(&mut out, "AWS effect failed during workflow run: ");
            push_string(&mut out, &operation.action);
            push_str(&mut out, " ");
            push_string(&mut out, &operation.url);
            push_str(&mut out, ": ");
            push_string(&mut out, message);
        },
        Observation::WebsocketFailed { operation, message } => {
            push_str(&mut out, "WebSocket effect failed during workflow run: ");
            push_string(&mut out, &operation.url);
            push_str(&mut out, ": ");
            push_string(&mut out, message);
        },
        Observation::WebsocketMessage { operation, assertions, .. } => {
            push_ws_failure(&mut out, &operation.url, assertions);
        },
        _ => push_str(&mut out, "workflow run failed"),
    }
    proof {
        assert(out@ =~= failure_text(*observation));
    }
    string_of(&out)
}


// ---------------------------------------------------------------------------------------
// HTTP effects
// ---------------------------------------------------------------------------------------

/// The reply to an HTTP request: the raw bytes of the response, or the text of the
/// transport error that kept it from coming.
#[derive(Debug, Clone)]
pub enum HttpReply {
    Received(Vec<u8>),
    Failed(String),
}

/// What a reply says: the status, headers and body of the response, or the text of the
/// error that the call fails with.
pub open spec fn reply_response(operation: Seq<char>, reply: HttpReply) -> Result<
    (u16, Map<Seq<char>, Seq<char>>, BodyV),
    Seq<char>,
> {
    match reply {
        HttpReply::Received(bytes) => http_response(operation, utf8_lossy(bytes@)),
        HttpReply::Failed(message) => Err(rest_failed_text(operation, message@)),
    }
}

/// Reads the response of an HTTP request from its reply.
pub fn read_reply(operation: &str, reply: &HttpReply) -> (r: Result<RestResponseObservation, EngineError>)
    ensures
        match r {
            Ok(resp) => reply_response(operation@, *reply) matches Ok(v) && v.0 == resp.status
                && models_map(resp.headers, v.1) && body_view(resp.body) == v.2,
            Err(e) => reply_response(operation@, *reply) == Err::<
                (u16, Map<Seq<char>, Seq<char>>, BodyV),
                Seq<char>,
            >(engine_error_text(e)),
        },
{
    match reply {
        HttpReply::Received(bytes) => parse_http_response(operation, bytes.as_slice()),
        HttpReply::Failed(message) => Err(
            EngineError::RestRequestFailed { operation: operation.to_owned(), message: message.clone() },
        ),
    }
}

fn clone_opt(s: &Option<String>) -> (r: Option<String>)
    ensures
        r == *s,
{
    match s {
        Some(x) => Some(x.clone()),
        None => None,
    }
}

/// The emissions of a REST effect, by reference.
pub(crate) fn rest_emission_refs(rest: &RestEffect) -> (r: Vec<(&String, &StrMap<JsonPathSelector>)>)
    ensures
        r@.len() == rest_emits(*rest).len(),
        forall|k: int|
            0 <= k < r@.len() ==> (#[trigger] rest_emits(*rest)[k]) == (r@[k].0@, r@[k].1.items()),
{
    let mut r: Vec<(&String, &StrMap<JsonPathSelector>)> = Vec::new();
    let mut i: usize = 0;
    while i < rest.emits.len()
        invariant
            i <= rest.emits@.len(),
            r@.len() == i,
            forall|k: int|
                0 <= k < i ==> (#[trigger] rest_emits(*rest)[k]) == (r@[k].0@, r@[k].1.items()),
        decreases rest.emits.len() - i,
    {
        r.push((&rest.emits[i].event_type, &rest.emits[i].payload));
        i = i + 1;
    }
    r
}

/// The emissions of a GraphQL effect, by reference.
pub(crate) fn graphql_emission_refs(graphql: &GraphqlEffect) -> (r: Vec<(&String, &StrMap<JsonPathSelector>)>)
    ensures
        r@.len() == graphql_emits(*graphql).len(),
        forall|k: int|
            0 <= k < r@.len() ==> (#[trigger] graphql_emits(*graphql)[k]) == (r@[k].0@, r@[k].1.items()),
{
    let mut r: Vec<(&String, &StrMap<JsonPathSelector>)> = Vec::new();
    let mut i: usize = 0;
    while i < graphql.emits.len()
        invariant
            i <= graphql.emits@.len(),
            r@.len() == i,
            forall|k: int|
                0 <= k < i ==> (#[trigger] graphql_emits(*graphql)[k]) == (r@[k].0@, r@[k].1.items()),
        decreases graphql.emits.len() - i,
    {
        r.push((&graphql.emits[i].event_type, &graphql.emits[i].payload));
        i = i + 1;
    }
    r
}

/// The status assertions that a REST effect makes of a status.
pub open spec fn rest_assertions(rest: RestEffect, status: u16) -> Seq<RestAssertionObservation> {
    match rest.expect.status {
        None => Seq::empty(),
        Some(expected) => seq![
            if expected == status {
                RestAssertionObservation::StatusPassed { expected, actual: status }
            } else {
                RestAssertionObservation::StatusFailed { expected, actual: status }
            },
        ],
    }
}

/// The outcome of a REST effect whose request to `url` got `response`: the response with
/// its status assertion and the events that the emissions select from it; or the error
/// that stops an emission.
pub open spec fn rest_response_result(
    r: Result<Observation, EngineError>,
    rest: RestEffect,
    event: Event,
    trace_id: Seq<char>,
    before: nat,
    after: nat,
    url: Seq<char>,
    response: RestResponseObservation,
    limits: ExecutionLimits,
) -> bool {
    let evs = emissions_events(
        rest_emits(rest),
        rest_document(response),
        event,
        trace_id,
        before,
        limits,
        false,
    );
    match r {
        Ok(o) => o matches Observation::RestResponse {
            operation,
            response: resp,
            assertions,
            emitted_events,
        } && operation.service == rest.service && operation.method@ == method_text(rest.method)
            && operation.url@ == url && resp == response && assertions@ == rest_assertions(
            rest,
            response.status,
        ) && evs == Ok::<Seq<crate::domain::event::EventV>, Seq<char>>(
            emitted_events@.map_values(|e: Event| e@),
        ) && after == before + emitted_events@.len(),
        Err(e) => evs == Err::<Seq<crate::domain::event::EventV>, Seq<char>>(engine_error_text(e)),
    }
}

/// The outcome of a GraphQL effect whose request to `url` got `response`: the response
/// with its assertions and the events that the emissions select from it; or the error
/// that stops an emission.
pub open spec fn graphql_response_result(
    r: Result<Observation, EngineError>,
    graphql: GraphqlEffect,
    event: Event,
    trace_id: Seq<char>,
    before: nat,
    after: nat,
    url: Seq<char>,
    response: GraphqlResponseObservation,
    limits: ExecutionLimits,
) -> bool {
    let evs = emissions_events(
        graphql_emits(graphql),
        graphql_document(response),
        event,
        trace_id,
        before,
        limits,
        true,
    );
    match r {
        Ok(o) => o matches Observation::GraphqlResponse {
            operation,
            response: resp,
            assertions,
            emitted_events,
        } && operation.service == graphql.service && operation.operation_name
            == graphql.operation_name && operation.url@ == url && resp == response
            && graphql_assertions_of(assertions@, graphql, response) && evs == Ok::<
            Seq<crate::domain::event::EventV>,
            Seq<char>,
        >(emitted_events@.map_values(|e: Event| e@)) && after == before + emitted_events@.len(),
        Err(e) => evs == Err::<Seq<crate::domain::event::EventV>, Seq<char>>(engine_error_text(e)),
    }
}

impl Runner {
    /// The observation of a REST effect whose request to `url` got `response`: the
    /// status assertion and the events that the emissions select from the response.
    pub fn rest_response_observation(
        &self,
        rest: &RestEffect,
        event: &Event,
        trace_entry_id: &str,
        created_events: &mut usize,
        url: &String,
        response: RestResponseObservation,
    ) -> (r: Result<Observation, EngineError>)
        ensures
            rest_response_result(
                r,
                *rest,
                *event,
                trace_entry_id@,
                *old(created_events) as nat,
                *final(created_events) as nat,
                url@,
                response,
                self.limits,
            ),
    {
        let assertions = evaluate_rest_assertions(rest, response.status);
        let document = rest_extraction_document(&response);
        let refs = rest_emission_refs(rest);
        let emitted_events = emit_all(
            &refs,
            &document,
            event,
            trace_entry_id,
            created_events,
            &self.limits,
            false,
            Ghost(rest_emits(*rest)),
        )?;
        let operation = RestOperationObservation {
            service: clone_opt(&rest.service),
            method: rest.method.as_str().to_owned(),
            url: url.clone(),
        };
        assert(assertions@ =~= rest_assertions(*rest, response.status));
        Ok(Observation::RestResponse { operation, response, assertions, emitted_events })
    }

    /// The observation of a GraphQL effect whose request to `url` got `response`: the
    /// status and no-errors assertions and the events that the emissions select.
    pub fn graphql_response_observation(
        &self,
        graphql: &GraphqlEffect,
        event: &Event,
        trace_entry_id: &str,
        created_events: &mut usize,
        url: &String,
        response: GraphqlResponseObservation,
    ) -> (r: Result<Observation, EngineError>)
        ensures
            graphql_response_result(
                r,
                *graphql,
                *event,
                trace_entry_id@,
                *old(created_events) as nat,
                *final(created_events) as nat,
                url@,
                response,
                self.limits,
            ),
    {
        let assertions = evaluate_graphql_assertions(graphql, &response);
        let document = graphql_extraction_document(&response);
        let refs = graphql_emission_refs(graphql);
        let emitted_events = emit_all(
            &refs,
            &document,
            event,
            trace_entry_id,
            created_events,
            &self.limits,
            true,
            Ghost(graphql_emits(*graphql)),
        )?;
        let operation = GraphqlOperationObservation {
            service: clone_opt(&graphql.service),
            operation_name: clone_opt(&graphql.operation_name),
            url: url.clone(),
        };
        Ok(Observation::GraphqlResponse { operation, response, assertions, emitted_events })
    }
}

/// The assertions of a GraphQL response: the expected status, where there is one, then
/// whether the response has errors.
pub open spec fn graphql_assertions_of(
    a: Seq<GraphqlAssertionObservation>,
    graphql: GraphqlEffect,
    response: GraphqlResponseObservation,
) -> bool {
    &&& a.len() == if graphql.expect.status is Some {
        2int
    } else {
        1int
    }
    &&& match graphql.expect.status {
        Some(expected) => if expected == response.status {
            a[0] matches GraphqlAssertionObservation::StatusPassed { expected: e, actual: s }
                && e == expected && s == response.status
        } else {
            a[0] matches GraphqlAssertionObservation::StatusFailed { expected: e, actual: s }
                && e == expected && s == response.status
        },
        None => true,
    }
    &&& response.errors@.len() == 0 ==> a.last() is NoErrorsPassed
    &&& response.errors@.len() > 0 ==> (a.last() matches GraphqlAssertionObservation::NoErrorsFailed {
        errors,
    } && errors@.len() == response.errors@.len() && forall|i: int|
        0 <= i < errors@.len() ==> (#[trigger] errors@[i])@ == response.errors@[i]@)
}

/// Where an effect stands: done, with its observation or the error that stops the run; or
/// waiting for the reply to an HTTP request.
#[derive(Debug)]
pub enum EffectStep {
    Done(Result<Observation, EngineError>),
    Awaiting(HttpRequest),
}

/// A REST effect run for an event against the replies received so far: a request that
/// cannot be built fails the effect without a call; otherwise the next reply, where there
/// is one, is read, and a response is observed as `rest_response_result` says.
pub open spec fn rest_step(
    r: EffectStep,
    rest: RestEffect,
    event: Event,
    trace_id: Seq<char>,
    before: nat,
    after: nat,
    replies: Seq<HttpReply>,
    used_before: nat,
    used_after: nat,
    env: RuntimeEnvironment,
    limits: ExecutionLimits,
) -> bool {
    match rest_request(rest, event.payload@, env) {
        Err(m) => {
            &&& used_after == used_before
            &&& after == before
            &&& r matches EffectStep::Done(
            Ok(Observation::RestFailed { operation, message, status }),
        ) && operation.service == rest.service && (operation.method@, operation.url@)
            == rest_fallback(rest, event.payload@, env) && message@ == m && status is None
        },
        Ok(req) => if used_before >= replies.len() {
            &&& used_after == used_before
            &&& after == before
            &&& r matches EffectStep::Awaiting(q) && request_view(q) == req
        } else {
            used_after == used_before + 1 && match reply_response(
                req.operation,
                replies[used_before as int],
            ) {
                Err(m) => after == before && (r matches EffectStep::Done(
                    Ok(Observation::RestFailed { operation, message, status }),
                ) && operation.service == rest.service && operation.method@ == method_text(
                    rest.method,
                ) && operation.url@ == req.url && message@ == m && status is None),
                Ok(v) => r matches EffectStep::Done(res) && exists|resp: RestResponseObservation|
                    resp.status == v.0 && models_map(resp.headers, v.1) && body_view(resp.body)
                        == v.2 && #[trigger] rest_response_result(
                        res,
                        rest,
                        event,
                        trace_id,
                        before,
                        after,
                        req.url,
                        resp,
                        limits,
                    ),
            }
        },
    }
}

pub open spec fn graphql_not_json_text(operation: Seq<char>) -> Seq<char> {
    "failed to execute GraphQL operation "@ + operation + ": "@ + "GraphQL response body was not JSON"@
}

/// A GraphQL effect run for an event against the replies received so far, as `rest_step`
/// for REST; a response whose body is not JSON fails the effect with its status.
pub open spec fn graphql_step(
    r: EffectStep,
    graphql: GraphqlEffect,
    event: Event,
    trace_id: Seq<char>,
    before: nat,
    after: nat,
    replies: Seq<HttpReply>,
    used_before: nat,
    used_after: nat,
    env: RuntimeEnvironment,
    limits: ExecutionLimits,
) -> bool {
    match graphql_request(graphql, event.payload@, env) {
        Err(m) => used_after == used_before && after == before && (r matches EffectStep::Done(
            Ok(Observation::GraphqlFailed { operation, message, status }),
        ) && operation.service == graphql.service && operation.operation_name
            == graphql.operation_name && operation.url@ == graphql_fallback_url(
            graphql,
            event.payload@,
            env,
        ) && message@ == m && status is None),
        Ok(req) => if used_before >= replies.len() {
            &&& used_after == used_before
            &&& after == before
            &&& r matches EffectStep::Awaiting(q) && request_view(q) == req
        } else {
            used_after == used_before + 1 && match reply_response(
                req.operation,
                replies[used_before as int],
            ) {
                Err(m) => after == before && (r matches EffectStep::Done(
                    Ok(Observation::GraphqlFailed { operation, message, status }),
                ) && operation.service == graphql.service && operation.operation_name
                    == graphql.operation_name && operation.url@ == req.url && message@ == m
                    && status is None),
                Ok(v) => match v.2 {
                    BodyV::Json(j) => r matches EffectStep::Done(res) && exists|
                        g: GraphqlResponseObservation,
                    |
                        g.status == v.0 && models_map(g.headers, v.1) && graphql_parts(g, j)
                            && #[trigger] graphql_response_result(
                            res,
                            graphql,
                            event,
                            trace_id,
                            before,
                            after,
                            req.url,
                            g,
                            limits,
                        ),
                    _ => after == before && (r matches EffectStep::Done(
                        Ok(Observation::GraphqlFailed { operation, message, status }),
                    ) && operation.service == graphql.service && operation.operation_name
                        == graphql.operation_name && operation.url@ == req.url && message@
                        == graphql_not_json_text(req.operation) && status == Some(v.0)),
                },
            }
        },
    }
}

impl Runner {
    /// Runs a REST effect for an event, taking the next reply where the call needs one.
    pub fn execute_rest_effect(
        &self,
        rest: &RestEffect,
        event: &Event,
        trace_entry_id: &str,
        created_events: &mut usize,
        replies: &Vec<HttpReply>,
        used: &mut usize,
    ) -> (r: EffectStep)
        requires
            *old(used) <= replies@.len(),
        ensures
            rest_step(
                r,
                *rest,
                *event,
                trace_entry_id@,
                *old(created_events) as nat,
                *final(created_events) as nat,
                replies@,
                *old(used) as nat,
                *final(used) as nat,
                self.environment,
                self.limits,
            ),
            r matches EffectStep::Done(Ok(o)) ==> emitted_ok(
                emitted_of(o),
                *event,
                trace_entry_id@,
                *old(created_events) as nat,
                self.limits,
            ) && *final(created_events) == *old(created_events) + emitted_of(o).len(),
            r is Awaiting ==> *final(created_events) == *old(created_events),
    {
        let request = match build_rest_request(rest, &event.payload, &self.environment) {
            Ok(request) => request,
            Err(error) => {
                return EffectStep::Done(
                    Ok(
                        Observation::RestFailed {
                            operation: fallback_rest_operation(rest, &event.payload, &self.environment),
                            message: error.message(),
                            status: None,
                        },
                    ),
                );
            },
        };
        if *used >= replies.len() {
            return EffectStep::Awaiting(request);
        }
        let reply = &replies[*used];
        *used = *used + 1;
        let response = match read_reply(request.operation.as_str(), reply) {
            Ok(response) => response,
            Err(error) => {
                return EffectStep::Done(
                    Ok(
                        Observation::RestFailed {
                            operation: RestOperationObservation {
                                service: clone_opt(&rest.service),
                                method: rest.method.as_str().to_owned(),
                                url: request.url,
                            },
                            message: error.message(),
                            status: None,
                        },
                    ),
                );
            },
        };
        let ghost resp = response;
        let r = self.rest_response_observation(
            rest,
            event,
            trace_entry_id,
            created_events,
            &request.url,
            response,
        );
        proof {
            let v = reply_response(request.operation@, *reply)->Ok_0;
            assert(resp.status == v.0 && models_map(resp.headers, v.1) && body_view(resp.body) == v.2);
            assert(rest_response_result(
                r,
                *rest,
                *event,
                trace_entry_id@,
                *old(created_events) as nat,
                *created_events as nat,
                request_view(request).url,
                resp,
                self.limits,
            ));
            if r is Ok {
                lemma_emissions_ok(
                    rest_emits(*rest),
                    rest_document(resp),
                    *event,
                    trace_entry_id@,
                    *old(created_events) as nat,
                    self.limits,
                    false,
                );
                lemma_emitted_ok_of_views(
                    emitted_of(r->Ok_0),
                    emissions_events(
                        rest_emits(*rest),
                        rest_document(resp),
                        *event,
                        trace_entry_id@,
                        *old(created_events) as nat,
                        self.limits,
                        false,
                    )->Ok_0,
                    *event,
                    trace_entry_id@,
                    *old(created_events) as nat,
                    self.limits,
                );
            }
        }
        EffectStep::Done(r)
    }

    /// Runs a GraphQL effect for an event, taking the next reply where the call needs one.
    pub fn execute_graphql_effect(
        &self,
        graphql: &GraphqlEffect,
        event: &Event,
        trace_entry_id: &str,
        created_events: &mut usize,
        replies: &Vec<HttpReply>,
        used: &mut usize,
    ) -> (r: EffectStep)
        requires
            *old(used) <= replies@.len(),
        ensures
            graphql_step(
                r,
                *graphql,
                *event,
                trace_entry_id@,
                *old(created_events) as nat,
                *final(created_events) as nat,
                replies@,
                *old(used) as nat,
                *final(used) as nat,
                self.environment,
                self.limits,
            ),
            r matches EffectStep::Done(Ok(o)) ==> emitted_ok(
                emitted_of(o),
                *event,
                trace_entry_id@,
                *old(created_events) as nat,
                self.limits,
            ) && *final(created_events) == *old(created_events) + emitted_of(o).len(),
            r is Awaiting ==> *final(created_events) == *old(created_events),
    {
        let request = match build_graphql_request(graphql, &event.payload, &self.environment) {
            Ok(request) => request,
            Err(error) => {
                return EffectStep::Done(
                    Ok(
                        Observation::GraphqlFailed {
                            operation: fallback_graphql_operation(
                                graphql,
                                &event.payload,
                                &self.environment,
                            ),
                            message: error.message(),
                            status: None,
                        },
                    ),
                );
            },
        };
        if *used >= replies.len() {
            return EffectStep::Awaiting(request);
        }
        let reply = &replies[*used];
        *used = *used + 1;
        let raw = match read_reply(request.operation.as_str(), reply) {
            Ok(response) => response,
            Err(error) => {
                return EffectStep::Done(
                    Ok(
                        Observation::GraphqlFailed {
                            operation: GraphqlOperationObservation {
                                service: clone_opt(&graphql.service),
                                operation_name: clone_opt(&graphql.operation_name),
                                url: request.url,
                            },
                            message: error.message(),
                            status: None,
                        },
                    ),
                );
            },
        };
        let status = raw.status;
        let response = match graphql_response_from_http(request.operation.as_str(), raw) {
            Ok(response) => response,
            Err(error) => {
                return EffectStep::Done(
                    Ok(
                        Observation::GraphqlFailed {
                            operation: GraphqlOperationObservation {
                                service: clone_opt(&graphql.service),
                                operation_name: clone_opt(&graphql.operation_name),
                                url: request.url,
                            },
                            message: error.message(),
                            status: Some(status),
                        },
                    ),
                );
            },
        };
        let ghost g = response;
        let r = self.graphql_response_observation(
            graphql,
            event,
            trace_entry_id,
            created_events,
            &request.url,
            response,
        );
        proof {
            let v = reply_response(request.operation@, *reply)->Ok_0;
            assert(g.status == v.0 && models_map(g.headers, v.1));
            assert(graphql_response_result(
                r,
                *graphql,
                *event,
                trace_entry_id@,
                *old(created_events) as nat,
                *created_events as nat,
                request_view(request).url,
                g,
                self.limits,
            ));
            if r is Ok {
                lemma_emissions_ok(
                    graphql_emits(*graphql),
                    graphql_document(g),
                    *event,
                    trace_entry_id@,
                    *old(created_events) as nat,
                    self.limits,
                    true,
                );
                lemma_emitted_ok_of_views(
                    emitted_of(r->Ok_0),
                    emissions_events(
                        graphql_emits(*graphql),
                        graphql_document(g),
                        *event,
                        trace_entry_id@,
                        *old(created_events) as nat,
                        self.limits,
                        true,
                    )->Ok_0,
                    *event,
                    trace_entry_id@,
                    *old(created_events) as nat,
                    self.limits,
                );
            }
        }
        EffectStep::Done(r)
    }
}

/// The events that an observation carries out of its effect.
pub open spec fn emitted_of(o: Observation) -> Seq<Event> {
    match o {
        Observation::EmittedEvents { events } => events@,
        Observation::RestResponse { emitted_events, .. } => emitted_events@,
        Observation::GraphqlResponse { emitted_events, .. } => emitted_events@,
        Observation::SnsPublish { emitted_events, .. } => emitted_events@,
        Observation::SqsSend { emitted_events, .. } => emitted_events@,
        Observation::WebsocketMessage { emitted_events, .. } => emitted_events@,
        _ => Seq::empty(),
    }
}

proof fn lemma_emitted_ok_of_views(
    evs: Seq<Event>,
    views: Seq<crate::domain::event::EventV>,
    event: Event,
    trace_id: Seq<char>,
    created: nat,
    limits: ExecutionLimits,
)
    requires
        views == evs.map_values(|e: Event| e@),
        forall|k: int|
            0 <= k < views.len() ==> {
                let e = #[trigger] views[k];
                &&& e.caused_by == Some((event.id@, trace_id))
                &&& e.depth == event.depth + 1
                &&& e.depth <= limits.max_depth
                &&& e.sequence == created + k + 1
                &&& e.sequence <= limits.max_events
                &&& e.id == event_id_text(e.sequence as nat)
            },
    ensures
        emitted_ok(evs, event, trace_id, created, limits),
{
    assert forall|k: int| 0 <= k < evs.len() implies {
        let e = #[trigger] evs[k];
        &&& e.caused_by matches Some(c) && c.event_id@ == event.id@ && c.trace_entry_id@
            == trace_id
        &&& e.depth == event.depth + 1
        &&& e.depth <= limits.max_depth
        &&& e.sequence == created + k + 1
        &&& e.sequence <= limits.max_events
        &&& e.id@ == event_id_text(e.sequence as nat)
    } by {
        assert(views[k] == evs[k]@);
    }
}

/// The event that an emit effect creates, or the text of the limit that stops it.
pub open spec fn emitted_event(
    event_type: Seq<char>,
    payload: JsonV,
    event: Event,
    trace_id: Seq<char>,
    created: nat,
    limits: ExecutionLimits,
) -> Result<crate::domain::event::EventV, Seq<char>> {
    if created >= limits.max_events {
        Err("max event count exceeded: limit is "@ + decimal(limits.max_events as nat))
    } else if event.depth + 1 > limits.max_depth {
        Err("max event depth exceeded: limit is "@ + decimal(limits.max_depth as nat))
    } else {
        Ok(
            crate::domain::event::EventV {
                id: event_id_text(created + 1),
                event_type,
                payload,
                caused_by: Some((event.id@, trace_id)),
                sequence: (created + 1) as u64,
                depth: (event.depth + 1) as u32,
            },
        )
    }
}

/// The text with which this runner answers an effect that it cannot run.
pub open spec fn unsupported_text(name: Seq<char>) -> Seq<char> {
    "effect type "@ + name + " is not supported by this runner"@
}

/// An effect run for an event: what each kind of effect observes, which replies it takes,
/// and how many events it creates.
/// The emissions of an SNS publish.
pub open spec fn sns_emits(e: crate::domain::effect::SnsPublishEffect) -> Seq<(Seq<char>, Seq<(String, JsonPathSelector)>)> {
    e.emits@.map_values(|m: crate::domain::effect::SnsEventEmission| (m.event_type@, m.payload.items()))
}

/// The emissions of an SQS send.
pub open spec fn sqs_send_emits(e: crate::domain::effect::SqsSendEffect) -> Seq<(Seq<char>, Seq<(String, JsonPathSelector)>)> {
    e.emits@.map_values(|m: crate::domain::effect::SqsEventEmission| (m.event_type@, m.payload.items()))
}

/// The document that the emissions of an AWS send select from: the message id.
pub open spec fn message_id_document(id: Seq<char>) -> JsonV {
    JsonV::Object(seq![("message_id"@, JsonV::Str(id))])
}

/// Whether an AWS operation names the service, the action and the URL.
pub open spec fn aws_operation_is(
    o: AwsOperationObservation,
    service: Option<String>,
    action: Seq<char>,
    url: Seq<char>,
) -> bool {
    o.service == service && o.action@ == action && o.url@ == url
}

/// An SNS publish or SQS send run for an event against the replies received so far: a
/// request that cannot be built fails the effect; without a reply left, the run waits for
/// the request; else the reply gives the message id, from which the emissions are made,
/// or fails the effect.
pub open spec fn aws_send_step(
    r: EffectStep,
    action: Seq<char>,
    endpoint_url: Option<String>,
    service: Option<String>,
    path: Option<Seq<char>>,
    fields: Seq<(Seq<char>, Seq<char>)>,
    message_field: Seq<char>,
    message: JsonV,
    emits: Seq<(Seq<char>, Seq<(String, JsonPathSelector)>)>,
    event: Event,
    trace_id: Seq<char>,
    before: nat,
    after: nat,
    replies: Seq<HttpReply>,
    used_before: nat,
    used_after: nat,
    env: RuntimeEnvironment,
    limits: ExecutionLimits,
    sqs: bool,
) -> bool {
    match aws_request(action, endpoint_url, service, path, fields, message_field, message, event.payload@, env) {
        Err(m) => {
            &&& used_after == used_before
            &&& after == before
            &&& r matches EffectStep::Done(Ok(Observation::AwsFailed { operation, message: t }))
                && aws_operation_is(
                operation,
                service,
                action,
                match endpoint_url {
                    Some(u) => u@,
                    None => "<unbound>"@,
                },
            ) && t@ == m
        },
        Ok(req) => if used_before >= replies.len() {
            &&& used_after == used_before
            &&& after == before
            &&& r matches EffectStep::Awaiting(q) && request_view(q) == req
        } else {
            used_after == used_before + 1 && match aws_reply(action, replies[used_before as int]) {
                Err(m) => after == before && (r matches EffectStep::Done(
                    Ok(Observation::AwsFailed { operation, message: t }),
                ) && aws_operation_is(operation, service, action, req.url) && t@ == m),
                Ok(id) => match emissions_events(
                    emits,
                    message_id_document(id),
                    event,
                    trace_id,
                    before,
                    limits,
                    false,
                ) {
                    Err(m) => r matches EffectStep::Done(Err(e)) && engine_error_text(e) == m,
                    Ok(evs) => after == before + evs.len() && (if sqs {
                        r matches EffectStep::Done(
                            Ok(Observation::SqsSend { operation, message_id, emitted_events }),
                        ) && aws_operation_is(operation, service, action, req.url) && message_id@
                            == id && emitted_events@.map_values(|e: Event| e@) == evs
                    } else {
                        r matches EffectStep::Done(
                            Ok(Observation::SnsPublish { operation, message_id, emitted_events }),
                        ) && aws_operation_is(operation, service, action, req.url) && message_id@
                            == id && emitted_events@.map_values(|e: Event| e@) == evs
                    }),
                },
            }
        },
    }
}

pub open spec fn effect_step(
    r: EffectStep,
    effect: Effect,
    event: Event,
    trace_id: Seq<char>,
    before: nat,
    after: nat,
    replies: Seq<HttpReply>,
    used_before: nat,
    used_after: nat,
    env: RuntimeEnvironment,
    limits: ExecutionLimits,
) -> bool {
    match effect {
        Effect::Emit { event_type, payload } => used_after == used_before && match emitted_event(
            event_type@,
            payload@,
            event,
            trace_id,
            before,
            limits,
        ) {
            Ok(ev) => after == before + 1 && (r matches EffectStep::Done(
                Ok(Observation::EmittedEvents { events }),
            ) && events@.len() == 1 && events@[0]@ == ev),
            Err(m) => after == before && (r matches EffectStep::Done(Err(e)) && engine_error_text(e)
                == m),
        },
        Effect::Record { message } => used_after == used_before && after == before && (r matches EffectStep::Done(
            Ok(Observation::RecordedMessage { message: m }),
        ) && m@ == message@),
        Effect::Assert(a) => used_after == used_before && after == before && (r matches EffectStep::Done(Ok(o))
            && assertion_observed(o, a, event.payload@)),
        Effect::Rest(rest) => rest_step(
            r,
            rest,
            event,
            trace_id,
            before,
            after,
            replies,
            used_before,
            used_after,
            env,
            limits,
        ),
        Effect::Graphql(g) => graphql_step(
            r,
            g,
            event,
            trace_id,
            before,
            after,
            replies,
            used_before,
            used_after,
            env,
            limits,
        ),
        Effect::SnsPublish(sns) => aws_send_step(
            r,
            "Publish"@,
            sns.endpoint_url,
            sns.service,
            None,
            seq![("TopicArn"@, sns.topic_arn@)],
            "Message"@,
            sns.message@,
            sns_emits(sns),
            event,
            trace_id,
            before,
            after,
            replies,
            used_before,
            used_after,
            env,
            limits,
            false,
        ),
        Effect::SqsSend(sqs) => aws_send_step(
            r,
            "SendMessage"@,
            sqs.endpoint_url,
            sqs.service,
            Some(url_path(sqs.queue_url@)),
            seq![("QueueUrl"@, sqs.queue_url@)],
            "MessageBody"@,
            sqs.message@,
            sqs_send_emits(sqs),
            event,
            trace_id,
            before,
            after,
            replies,
            used_before,
            used_after,
            env,
            limits,
            true,
        ),
        Effect::Websocket(ws) => websocket_step(
            r,
            ws,
            event,
            trace_id,
            before,
            after,
            replies,
            used_before,
            used_after,
            env,
            limits,
        ),
        _ => used_after == used_before && after == before && (r matches EffectStep::Done(Ok(o))
            && match o {
            Observation::AwsFailed { message, .. } => message@ == unsupported_text(
                effect_name(effect),
            ),
            Observation::WebsocketFailed { message, .. } => message@ == unsupported_text(
                effect_name(effect),
            ),
            _ => false,
        }),
    }
}

// ---------------------------------------------------------------------------------------
// WebSocket effects
// ---------------------------------------------------------------------------------------

/// The emissions of a WebSocket effect.
pub open spec fn ws_emits(e: WebsocketEffect) -> Seq<(Seq<char>, Seq<(String, JsonPathSelector)>)> {
    e.emits@.map_values(|m: crate::domain::effect::WebsocketEventEmission| (m.event_type@, m.payload.items()))
}

/// The view of an optional JSON value.
pub open spec fn opt_json_view(o: Option<JsonValue>) -> Option<JsonV> {
    match o {
        Some(j) => Some(j@),
        None => None,
    }
}

/// What a JSONPath selects in the message received, where it was JSON: its one value, or
/// nothing.
pub open spec fn ws_selected(received: Option<JsonV>, path: Seq<char>) -> Option<JsonV> {
    match received {
        Some(doc) => match selection(doc, path) {
            Ok(Some(v)) => Some(v),
            _ => None,
        },
        None => None,
    }
}

/// Whether an assertion records the expectation that `path` selects `expected` in the
/// message received: passed where it does, else failed with what it selected.
pub open spec fn ws_assertion_is(
    a: WebsocketAssertionObservation,
    path: Seq<char>,
    expected: JsonV,
    received: Option<JsonV>,
) -> bool {
    if ws_selected(received, path) == Some(expected) {
        a matches WebsocketAssertionObservation::JsonFieldPassed { path: p } && p@ == path
    } else {
        a matches WebsocketAssertionObservation::JsonFieldFailed { path: p, expected: e, actual }
            && p@ == path && e@ == expected && match actual {
            Some(v) => ws_selected(received, path) == Some(v@),
            None => ws_selected(received, path) is None,
        }
    }
}

/// Whether every expectation holds of the message received.
pub open spec fn ws_expectations_met(expect: Seq<(String, JsonValue)>, received: Option<JsonV>) -> bool {
    forall|k: int| 0 <= k < expect.len() ==> ws_selected(received, (#[trigger] expect[k]).0@) == Some(expect[k].1@)
}

/// Whether a WebSocket operation names the effect's service and session, and the URL.
pub open spec fn ws_operation_is(o: WebsocketOperationObservation, ws: WebsocketEffect, url: Seq<char>) -> bool {
    o.service == ws.service && o.session == ws.session && o.url@ == url
}

/// What a WebSocket exchange gives once a message came back: the message observed, JSON
/// where its text parses, with one assertion per expectation; where all expectations hold,
/// the events that the emissions select from it (from its JSON, or from its text as a JSON
/// string), or the engine error of the emission that failed; where one does not hold, no
/// event.
pub open spec fn ws_exchange_result(
    res: Result<Observation, EngineError>,
    ws: WebsocketEffect,
    event: Event,
    trace_id: Seq<char>,
    before: nat,
    after: nat,
    url: Seq<char>,
    sent: (Option<JsonV>, Seq<char>),
    text: Seq<char>,
    limits: ExecutionLimits,
) -> bool {
    let received = crate::json::json_parse(text);
    let doc = match received {
        Some(j) => j,
        None => JsonV::Str(text),
    };
    let expect = ws.expect.json.items();
    let evs = emissions_events(ws_emits(ws), doc, event, trace_id, before, limits, false);
    let met = ws_expectations_met(expect, received);
    match res {
        Ok(o) => o matches Observation::WebsocketMessage {
            operation,
            sent: s,
            received: rv,
            assertions,
            emitted_events,
        } && ws_operation_is(operation, ws, url) && match s {
            WebsocketSentObservation::Json { value } => sent.0 == Some(value@),
            WebsocketSentObservation::Text { value } => sent.0 is None && value@ == sent.1,
        } && match rv {
            WebsocketReceivedObservation::Json { value } => received == Some(value@),
            WebsocketReceivedObservation::Text { value } => received is None && value@ == text,
        } && assertions@.len() == expect.len() && (forall|k: int|
            0 <= k < expect.len() ==> ws_assertion_is(
                #[trigger] assertions@[k],
                expect[k].0@,
                expect[k].1@,
                received,
            )) && if met {
            evs == Ok::<Seq<crate::domain::event::EventV>, Seq<char>>(
                emitted_events@.map_values(|e: Event| e@),
            ) && after == before + emitted_events@.len()
        } else {
            emitted_events@.len() == 0 && after == before
        },
        Err(e) => met && (evs matches Err(m) && engine_error_text(e) == m),
    }
}

/// A WebSocket effect run for an event against the replies received so far: an exchange
/// that cannot be built fails the effect; without a reply left, the run waits for the
/// exchange; otherwise it takes the next reply, the message that came back, and a reply that
/// is a failure fails the effect.
pub open spec fn websocket_step(
    r: EffectStep,
    ws: WebsocketEffect,
    event: Event,
    trace_id: Seq<char>,
    before: nat,
    after: nat,
    replies: Seq<HttpReply>,
    used_before: nat,
    used_after: nat,
    env: RuntimeEnvironment,
    limits: ExecutionLimits,
) -> bool {
    match websocket_request(ws, event.payload@, env) {
        Err(m) => {
            &&& used_after == used_before
            &&& after == before
            &&& r matches EffectStep::Done(Ok(Observation::WebsocketFailed { operation, message }))
                && ws_operation_is(
                operation,
                ws,
                match ws.url {
                    Some(u) => u@,
                    None => "<unbound>"@,
                },
            ) && message@ == m
        },
        Ok(req) => if used_before >= replies.len() {
            &&& used_after == used_before
            &&& after == before
            &&& r matches EffectStep::Awaiting(q) && request_view(q) == req
        } else {
            used_after == used_before + 1 && match ws_reply(replies[used_before as int]) {
                Err(m) => after == before && (r matches EffectStep::Done(
                    Ok(Observation::WebsocketFailed { operation, message }),
                ) && ws_operation_is(operation, ws, req.url) && message@ == m),
                Ok(text) => r matches EffectStep::Done(res) && ws_exchange_result(
                    res,
                    ws,
                    event,
                    trace_id,
                    before,
                    after,
                    req.url,
                    sent_of(ws.send, event.payload@, env)->Ok_0,
                    text,
                    limits,
                ),
            }
        },
    }
}

/// The emissions of a WebSocket effect, by reference.
fn ws_emission_refs(ws: &WebsocketEffect) -> (r: Vec<(&String, &StrMap<JsonPathSelector>)>)
    ensures
        r@.len() == ws_emits(*ws).len(),
        forall|k: int|
            0 <= k < r@.len() ==> (#[trigger] ws_emits(*ws)[k]) == (r@[k].0@, r@[k].1.items()),
{
    let mut r: Vec<(&String, &StrMap<JsonPathSelector>)> = Vec::new();
    let mut i: usize = 0;
    while i < ws.emits.len()
        invariant
            i <= ws.emits@.len(),
            r@.len() == i,
            forall|k: int|
                0 <= k < i ==> (#[trigger] ws_emits(*ws)[k]) == (r@[k].0@, r@[k].1.items()),
        decreases ws.emits.len() - i,
    {
        r.push((&ws.emits[i].event_type, &ws.emits[i].payload));
        i = i + 1;
    }
    r
}

/// The assertions of a WebSocket effect's expectations on the message received, and whether
/// all of them hold.
fn ws_assertions(
    expect: &StrMap<JsonValue>,
    received: &Option<JsonValue>,
) -> (r: (Vec<WebsocketAssertionObservation>, bool))
    ensures
        r.0@.len() == expect.items().len(),
        forall|k: int|
            0 <= k < expect.items().len() ==> ws_assertion_is(
                #[trigger] r.0@[k],
                expect.items()[k].0@,
                expect.items()[k].1@,
                match *received {
                    Some(j) => Some(j@),
                    None => None,
                },
            ),
        r.1 == ws_expectations_met(
            expect.items(),
            match *received {
                Some(j) => Some(j@),
                None => None,
            },
        ),
{
    let ghost rv = opt_json_view(*received);
    let entries = expect.entries();
    let mut out: Vec<WebsocketAssertionObservation> = Vec::new();
    let mut met = true;
    let mut i: usize = 0;
    while i < entries.len()
        invariant
            entries@ == expect.items(),
            rv == opt_json_view(*received),
            i <= entries@.len(),
            out@.len() == i,
            forall|k: int|
                0 <= k < i ==> ws_assertion_is(#[trigger] out@[k], entries@[k].0@, entries@[k].1@, rv),
            met == (forall|k: int| 0 <= k < i ==> ws_selected(rv, (#[trigger] entries@[k]).0@) == Some(entries@[k].1@)),
        decreases entries.len() - i,
    {
        let path = &entries[i].0;
        let expected = &entries[i].1;
        let selector = JsonPathSelector { from: path.clone() };
        assert(selector.from@ == path@);
        let selected: Option<JsonValue> = match received {
            Some(doc) => {
                let picked = select_json_path_value(doc, &selector);
                proof {
                    assert(rv == Some(doc@));
                }
                match picked {
                    Ok(Some(v)) => Some(v),
                    _ => None,
                }
            },
            None => None,
        };
        assert(ws_selected(rv, path@) == opt_json_view(selected));
        let ok = match &selected {
            Some(v) => json_equal(v, expected),
            None => false,
        };
        if ok {
            out.push(WebsocketAssertionObservation::JsonFieldPassed { path: path.clone() });
        } else {
            met = false;
            out.push(
                WebsocketAssertionObservation::JsonFieldFailed {
                    path: path.clone(),
                    expected: expected.clone(),
                    actual: selected,
                },
            );
        }
        i = i + 1;
    }
    (out, met)
}

impl Runner {
    /// Runs a WebSocket effect for an event, taking the next reply, the message that came
    /// back, where the exchange needs one.
    fn execute_websocket(
        &self,
        ws: &WebsocketEffect,
        event: &Event,
        trace_entry_id: &str,
        created_events: &mut usize,
        replies: &Vec<HttpReply>,
        used: &mut usize,
    ) -> (r: EffectStep)
        requires
            *old(used) <= replies@.len(),
        ensures
            websocket_step(
                r,
                *ws,
                *event,
                trace_entry_id@,
                *old(created_events) as nat,
                *final(created_events) as nat,
                replies@,
                *old(used) as nat,
                *final(used) as nat,
                self.environment,
                self.limits,
            ),
            r matches EffectStep::Done(Ok(o)) ==> emitted_ok(
                emitted_of(o),
                *event,
                trace_entry_id@,
                *old(created_events) as nat,
                self.limits,
            ) && *final(created_events) == *old(created_events) + emitted_of(o).len(),
            r is Awaiting ==> *final(created_events) == *old(created_events),
    {
        let (request, value) = match build_websocket_request(ws, &event.payload, &self.environment) {
            Ok(p) => p,
            Err(m) => {
                return EffectStep::Done(
                    Ok(
                        Observation::WebsocketFailed {
                            operation: WebsocketOperationObservation {
                                service: clone_opt(&ws.service),
                                session: clone_opt(&ws.session),
                                url: unbound_or(&ws.url),
                            },
                            message: m,
                        },
                    ),
                );
            },
        };
        if *used >= replies.len() {
            return EffectStep::Awaiting(request);
        }
        let reply = &replies[*used];
        *used = *used + 1;
        let text = match reply {
            HttpReply::Received(bytes) => super::http::text_of_bytes(bytes.as_slice()),
            HttpReply::Failed(m) => {
                let mut out: Vec<char> = Vec::new();
                push_str(&mut out, "WebSocket exchange failed: ");
                push_string(&mut out, m);
                proof {
                    reveal_strlit("WebSocket exchange failed: ");
                }
                return EffectStep::Done(
                    Ok(
                        Observation::WebsocketFailed {
                            operation: WebsocketOperationObservation {
                                service: clone_opt(&ws.service),
                                session: clone_opt(&ws.session),
                                url: request.url,
                            },
                            message: string_of(&out),
                        },
                    ),
                );
            },
        };
        let received = JsonValue::parse(text.as_str());
        let sent = match value {
            Some(v) => WebsocketSentObservation::Json { value: v },
            None => WebsocketSentObservation::Text {
                value: match &request.body {
                    Some(b) => b.clone(),
                    None => String::new(),
                },
            },
        };
        let (assertions, met) = ws_assertions(&ws.expect.json, &received);
        let operation = WebsocketOperationObservation {
            service: clone_opt(&ws.service),
            session: clone_opt(&ws.session),
            url: request.url,
        };
        let ghost rv = opt_json_view(received);
        let rec = match &received {
            Some(j) => WebsocketReceivedObservation::Json { value: j.clone() },
            None => WebsocketReceivedObservation::Text { value: text.clone() },
        };
        if !met {
            return EffectStep::Done(
                Ok(
                    Observation::WebsocketMessage {
                        operation,
                        sent,
                        received: rec,
                        assertions,
                        emitted_events: Vec::new(),
                    },
                ),
            );
        }
        let doc = match received {
            Some(j) => j,
            None => JsonValue::String(text),
        };
        let refs = ws_emission_refs(ws);
        let ghost emits = ws_emits(*ws);
        let ghost c0 = *created_events as nat;
        match emit_all(&refs, &doc, event, trace_entry_id, created_events, &self.limits, false, Ghost(emits)) {
            Err(e) => EffectStep::Done(Err(e)),
            Ok(events) => {
                proof {
                    lemma_emissions_ok(emits, doc@, *event, trace_entry_id@, c0, self.limits, false);
                    lemma_emitted_ok_of_views(
                        events@,
                        events@.map_values(|e: Event| e@),
                        *event,
                        trace_entry_id@,
                        c0,
                        self.limits,
                    );
                }
                EffectStep::Done(
                    Ok(
                        Observation::WebsocketMessage {
                            operation,
                            sent,
                            received: rec,
                            assertions,
                            emitted_events: events,
                        },
                    ),
                )
            },
        }
    }
}

/// The emissions of an SNS publish, by reference.
fn sns_emission_refs(sns: &crate::domain::effect::SnsPublishEffect) -> (r: Vec<(&String, &StrMap<JsonPathSelector>)>)
    ensures
        r@.len() == sns_emits(*sns).len(),
        forall|k: int|
            0 <= k < r@.len() ==> (#[trigger] sns_emits(*sns)[k]) == (r@[k].0@, r@[k].1.items()),
{
    let mut r: Vec<(&String, &StrMap<JsonPathSelector>)> = Vec::new();
    let mut i: usize = 0;
    while i < sns.emits.len()
        invariant
            i <= sns.emits@.len(),
            r@.len() == i,
            forall|k: int|
                0 <= k < i ==> (#[trigger] sns_emits(*sns)[k]) == (r@[k].0@, r@[k].1.items()),
        decreases sns.emits.len() - i,
    {
        r.push((&sns.emits[i].event_type, &sns.emits[i].payload));
        i = i + 1;
    }
    r
}

/// The emissions of an SQS effect, by reference.
fn sqs_emission_refs(emits: &Vec<crate::domain::effect::SqsEventEmission>) -> (r: Vec<(&String, &StrMap<JsonPathSelector>)>)
    ensures
        r@.len() == emits@.len(),
        forall|k: int|
            0 <= k < r@.len() ==> (emits@[k].event_type@, emits@[k].payload.items()) == (
                #[trigger] r@[k].0@,
                r@[k].1.items(),
            ),
{
    let mut r: Vec<(&String, &StrMap<JsonPathSelector>)> = Vec::new();
    let mut i: usize = 0;
    while i < emits.len()
        invariant
            i <= emits@.len(),
            r@.len() == i,
            forall|k: int|
                0 <= k < i ==> (emits@[k].event_type@, emits@[k].payload.items()) == (
                    #[trigger] r@[k].0@,
                    r@[k].1.items(),
                ),
        decreases emits.len() - i,
    {
        r.push((&emits[i].event_type, &emits[i].payload));
        i = i + 1;
    }
    r
}

fn unbound_or(url: &Option<String>) -> (r: String)
    ensures
        r@ == match url {
            Some(u) => u@,
            None => "<unbound>"@,
        },
{
    match url {
        Some(u) => u.clone(),
        None => String::from_str("<unbound>"),
    }
}

fn unsupported_message(effect: &Effect) -> (r: String)
    ensures
        r@ == unsupported_text(effect_name(*effect)),
{
    let mut out: Vec<char> = Vec::new();
    push_str(&mut out, "effect type ");
    push_str(&mut out, effect.name());
    push_str(&mut out, " is not supported by this runner");
    string_of(&out)
}

impl Runner {
    /// Runs an SNS publish or an SQS send for an event, taking the next reply where the
    /// call needs one.
    fn execute_aws_send(
        &self,
        action: &str,
        endpoint_url: &Option<String>,
        service: &Option<String>,
        path: Option<Vec<char>>,
        fields: Vec<(Vec<char>, Vec<char>)>,
        message_field: &str,
        message: &JsonValue,
        refs: &Vec<(&String, &StrMap<JsonPathSelector>)>,
        Ghost(emits): Ghost<Seq<(Seq<char>, Seq<(String, JsonPathSelector)>)>>,
        event: &Event,
        trace_entry_id: &str,
        created_events: &mut usize,
        replies: &Vec<HttpReply>,
        used: &mut usize,
        sqs: bool,
    ) -> (r: EffectStep)
        requires
            *old(used) <= replies@.len(),
            emits.len() == refs@.len(),
            forall|k: int|
                0 <= k < refs@.len() ==> (#[trigger] emits[k]) == (refs@[k].0@, refs@[k].1.items()),
        ensures
            aws_send_step(
                r,
                action@,
                *endpoint_url,
                *service,
                match path {
                    Some(p) => Some(p@),
                    None => None,
                },
                fields@.map_values(|f: (Vec<char>, Vec<char>)| (f.0@, f.1@)),
                message_field@,
                message@,
                emits,
                *event,
                trace_entry_id@,
                *old(created_events) as nat,
                *final(created_events) as nat,
                replies@,
                *old(used) as nat,
                *final(used) as nat,
                self.environment,
                self.limits,
                sqs,
            ),
            r matches EffectStep::Done(Ok(o)) ==> emitted_ok(
                emitted_of(o),
                *event,
                trace_entry_id@,
                *old(created_events) as nat,
                self.limits,
            ) && *final(created_events) == *old(created_events) + emitted_of(o).len(),
            r is Awaiting ==> *final(created_events) == *old(created_events),
    {
        let ghost fv = fields@.map_values(|f: (Vec<char>, Vec<char>)| (f.0@, f.1@));
        let request = match build_aws_request(
            action,
            endpoint_url,
            service,
            path,
            fields,
            message_field,
            message,
            &event.payload,
            &self.environment,
        ) {
            Ok(request) => request,
            Err(m) => {
                return EffectStep::Done(
                    Ok(
                        Observation::AwsFailed {
                            operation: AwsOperationObservation {
                                service: clone_opt(service),
                                action: action.to_owned(),
                                url: unbound_or(endpoint_url),
                            },
                            message: m,
                        },
                    ),
                );
            },
        };
        if *used >= replies.len() {
            return EffectStep::Awaiting(request);
        }
        let reply = &replies[*used];
        *used = *used + 1;
        let id = match read_aws_reply(action, reply) {
            Ok(id) => id,
            Err(m) => {
                return EffectStep::Done(
                    Ok(
                        Observation::AwsFailed {
                            operation: AwsOperationObservation {
                                service: clone_opt(service),
                                action: action.to_owned(),
                                url: request.url,
                            },
                            message: m,
                        },
                    ),
                );
            },
        };
        let members = vec![(String::from_str("message_id"), JsonValue::String(id.clone()))];
        let doc = JsonValue::object(members);
        proof {
            crate::json::lemma_object_view(members);
            reveal_strlit("message_id");
            assert(crate::json::members_view(members@) =~= seq![("message_id"@, JsonV::Str(id@))]);
            assert(doc@ == message_id_document(id@));
        }
        let ghost c0 = *created_events as nat;
        match emit_all(refs, &doc, event, trace_entry_id, created_events, &self.limits, false, Ghost(emits)) {
            Err(e) => EffectStep::Done(Err(e)),
            Ok(events) => {
                proof {
                    lemma_emissions_ok(emits, doc@, *event, trace_entry_id@, c0, self.limits, false);
                    lemma_emitted_ok_of_views(
                        events@,
                        events@.map_values(|e: Event| e@),
                        *event,
                        trace_entry_id@,
                        c0,
                        self.limits,
                    );
                }
                let operation = AwsOperationObservation {
                    service: clone_opt(service),
                    action: action.to_owned(),
                    url: request.url,
                };
                if sqs {
                    EffectStep::Done(Ok(Observation::SqsSend { operation, message_id: id, emitted_events: events }))
                } else {
                    EffectStep::Done(Ok(Observation::SnsPublish { operation, message_id: id, emitted_events: events }))
                }
            },
        }
    }

    /// Runs one effect for an event: emit, record and assert effects at once; REST and
    /// GraphQL effects against the replies received so far.
    fn execute_effect(
        &self,
        effect: &Effect,
        event: &Event,
        trace_entry_id: &str,
        created_events: &mut usize,
        replies: &Vec<HttpReply>,
        used: &mut usize,
    ) -> (r: EffectStep)
        requires
            *old(used) <= replies@.len(),
        ensures
            effect_step(
                r,
                *effect,
                *event,
                trace_entry_id@,
                *old(created_events) as nat,
                *final(created_events) as nat,
                replies@,
                *old(used) as nat,
                *final(used) as nat,
                self.environment,
                self.limits,
            ),
            *old(used) <= *final(used) <= replies@.len(),
            r is Awaiting ==> *final(used) == *old(used) && *old(used) == replies@.len()
                && *final(created_events) == *old(created_events),
            r matches EffectStep::Done(Ok(o)) ==> emitted_ok(
                emitted_of(o),
                *event,
                trace_entry_id@,
                *old(created_events) as nat,
                self.limits,
            ) && *final(created_events) == *old(created_events) + emitted_of(o).len(),
    {
        match effect {
            Effect::Emit { event_type, payload } => {
                if *created_events >= self.limits.max_events {
                    return EffectStep::Done(
                        Err(EngineError::MaxEventCountExceeded { limit: self.limits.max_events }),
                    );
                }
                if event.depth as u64 + 1 > self.limits.max_depth as u64 {
                    return EffectStep::Done(
                        Err(EngineError::MaxDepthExceeded { limit: self.limits.max_depth }),
                    );
                }
                *created_events = *created_events + 1;
                let emitted = new_event(
                    *created_events,
                    event_type,
                    payload.clone(),
                    event,
                    trace_entry_id,
                );
                let events = vec![emitted];
                EffectStep::Done(Ok(Observation::EmittedEvents { events }))
            },
            Effect::Record { message } => EffectStep::Done(
                Ok(Observation::RecordedMessage { message: message.clone() }),
            ),
            Effect::Assert(assertion) => EffectStep::Done(
                Ok(evaluate_assertion(assertion, &event.payload)),
            ),
            Effect::Rest(rest) => self.execute_rest_effect(
                rest,
                event,
                trace_entry_id,
                created_events,
                replies,
                used,
            ),
            Effect::Graphql(graphql) => self.execute_graphql_effect(
                graphql,
                event,
                trace_entry_id,
                created_events,
                replies,
                used,
            ),
            Effect::SnsPublish(sns) => {
                let refs = sns_emission_refs(sns);
                let fields = vec![(chars_of("TopicArn"), chars_of(sns.topic_arn.as_str()))];
                proof {
                    reveal_strlit("TopicArn");
                    assert(fields@.map_values(|f: (Vec<char>, Vec<char>)| (f.0@, f.1@)) =~= seq![
                        ("TopicArn"@, sns.topic_arn@),
                    ]);
                }
                self.execute_aws_send(
                    "Publish",
                    &sns.endpoint_url,
                    &sns.service,
                    None,
                    fields,
                    "Message",
                    &sns.message,
                    &refs,
                    Ghost(sns_emits(*sns)),
                    event,
                    trace_entry_id,
                    created_events,
                    replies,
                    used,
                    false,
                )
            },
            Effect::SqsSend(sqs) => {
                let refs = sqs_emission_refs(&sqs.emits);
                let fields = vec![(chars_of("QueueUrl"), chars_of(sqs.queue_url.as_str()))];
                proof {
                    assert(fields@.map_values(|f: (Vec<char>, Vec<char>)| (f.0@, f.1@)) =~= seq![
                        ("QueueUrl"@, sqs.queue_url@),
                    ]);
                }
                let path = url_path_exec(sqs.queue_url.as_str());
                self.execute_aws_send(
                    "SendMessage",
                    &sqs.endpoint_url,
                    &sqs.service,
                    Some(path),
                    fields,
                    "MessageBody",
                    &sqs.message,
                    &refs,
                    Ghost(sqs_send_emits(*sqs)),
                    event,
                    trace_entry_id,
                    created_events,
                    replies,
                    used,
                    true,
                )
            },
            Effect::SqsReceive(sqs) => EffectStep::Done(
                Ok(
                    Observation::AwsFailed {
                        operation: AwsOperationObservation {
                            service: clone_opt(&sqs.service),
                            action: String::from_str("ReceiveMessage"),
                            url: unbound_or(&sqs.endpoint_url),
                        },
                        message: unsupported_message(effect),
                    },
                ),
            ),
            Effect::Websocket(ws) => self.execute_websocket(ws, event, trace_entry_id, created_events, replies, used),
        }
    }
}

// ---------------------------------------------------------------------------------------
// Execution policy
// ---------------------------------------------------------------------------------------

/// The id of the first capability in the list that the policy denies.
pub open spec fn first_denied(caps: Seq<CapView>, policy: ExecutionPolicy) -> Option<Seq<char>>
    decreases caps.len(),
{
    if caps.len() == 0 {
        None
    } else {
        match first_denied(caps.drop_last(), policy) {
            Some(id) => Some(id),
            None => if policy_allows(policy, caps.last().0, caps.last().1) {
                None
            } else {
                Some(caps.last().0)
            },
        }
    }
}

proof fn lemma_first_denied_prefix(a: Seq<CapView>, b: Seq<CapView>, policy: ExecutionPolicy)
    requires
        first_denied(a, policy) is Some,
    ensures
        first_denied(a + b, policy) == first_denied(a, policy),
    decreases b.len(),
{
    if b.len() == 0 {
        assert(a + b =~= a);
    } else {
        assert((a + b).drop_last() =~= a + b.drop_last());
        lemma_first_denied_prefix(a, b.drop_last(), policy);
    }
}

proof fn lemma_handlers_caps_step(hs: Seq<Handler>, h: int)
    requires
        0 <= h < hs.len(),
    ensures
        handlers_caps(hs.take(h + 1)) == handlers_caps(hs.take(h)) + effects_caps(hs[h].effects@),
{
    assert(hs.take(h + 1).drop_last() =~= hs.take(h));
}

proof fn lemma_effects_caps_step(es: Seq<Effect>, x: int)
    requires
        0 <= x < es.len(),
    ensures
        effects_caps(es.take(x + 1)) == effects_caps(es.take(x)) + effect_capability_views(es[x]),
{
    assert(es.take(x + 1).drop_last() =~= es.take(x));
}

impl Runner {
    /// The first capability, in handler and effect order, that the policy denies.
    #[verifier::loop_isolation(false)]
    pub fn denied_capability(&self, workflow: &Workflow) -> (r: Option<String>)
        ensures
            match r {
                Some(id) => first_denied(handlers_caps(workflow.handlers@), self.policy) == Some(
                    id@,
                ),
                None => first_denied(handlers_caps(workflow.handlers@), self.policy) is None,
            },
    {
        let ghost hs = workflow.handlers@;
        let mut h: usize = 0;
        assert(hs.take(0) =~= Seq::<Handler>::empty());
        while h < workflow.handlers.len()
            invariant
                hs == workflow.handlers@,
                h <= hs.len(),
                first_denied(handlers_caps(hs.take(h as int)), self.policy) is None,
            decreases hs.len() - h,
        {
            let effects = &workflow.handlers[h].effects;
            let ghost es = effects@;
            let ghost base = handlers_caps(hs.take(h as int));
            let mut x: usize = 0;
            assert(es.take(0) =~= Seq::<Effect>::empty());
            assert(base + effects_caps(es.take(0)) =~= base);
            while x < effects.len()
                invariant
                    hs == workflow.handlers@,
                    h < hs.len(),
                    es == effects@,
                    es == hs[h as int].effects@,
                    base == handlers_caps(hs.take(h as int)),
                    x <= es.len(),
                    first_denied(base + effects_caps(es.take(x as int)), self.policy) is None,
                decreases es.len() - x,
            {
                let caps = effect_capabilities(&effects[x]);
                let ghost cv = effect_capability_views(es[x as int]);
                let ghost acc = base + effects_caps(es.take(x as int));
                let mut c: usize = 0;
                assert(acc + cv.take(0) =~= acc);
                while c < caps.len()
                    invariant
                        caps@.len() == cv.len(),
                        forall|i: int| 0 <= i < caps@.len() ==> cap_view(#[trigger] caps@[i]) == cv[i],
                        c <= cv.len(),
                        first_denied(acc + cv.take(c as int), self.policy) is None,
                    decreases cv.len() - c,
                {
                    let ghost prefix = acc + cv.take(c as int);
                    assert(acc + cv.take(c + 1) =~= prefix.push(cv[c as int]));
                    assert((acc + cv.take(c + 1)).drop_last() =~= prefix);
                    if !self.policy.allows(&caps[c]) {
                        proof {
                            assert(cap_view(caps@[c as int]) == cv[c as int]);
                            lemma_effects_caps_step(es, x as int);
                            let full = acc + cv;
                            assert(acc + cv =~= (acc + cv.take(c + 1)) + cv.skip(c + 1));
                            lemma_first_denied_prefix(acc + cv.take(c + 1), cv.skip(c + 1), self.policy);
                            assert(base + effects_caps(es.take(x + 1)) =~= full);
                            lemma_first_denied_prefix(full, effects_caps(es.skip(x + 1)), self.policy);
                            lemma_effects_split(es, x + 1);
                            assert(base + effects_caps(es) =~= full + effects_caps(es.skip(x + 1)));
                            lemma_handlers_caps_step(hs, h as int);
                            lemma_handlers_split(hs, h + 1);
                            assert(handlers_caps(hs.take(h + 1)) == base + effects_caps(es));
                            assert(handlers_caps(hs) =~= handlers_caps(hs.take(h + 1))
                                + handlers_caps(hs.skip(h + 1)));
                            lemma_first_denied_prefix(
                                handlers_caps(hs.take(h + 1)),
                                handlers_caps(hs.skip(h + 1)),
                                self.policy,
                            );
                        }
                        return Some(caps[c].id.clone());
                    }
                    c = c + 1;
                }
                proof {
                    assert(cv.take(c as int) =~= cv);
                    lemma_effects_caps_step(es, x as int);
                    assert(base + effects_caps(es.take(x + 1)) =~= acc + cv);
                }
                x = x + 1;
            }
            proof {
                assert(es.take(x as int) =~= es);
                lemma_handlers_caps_step(hs, h as int);
            }
            h = h + 1;
        }
        assert(hs.take(h as int) =~= hs);
        None
    }
}

proof fn lemma_effects_split(es: Seq<Effect>, k: int)
    requires
        0 <= k <= es.len(),
    ensures
        effects_caps(es) == effects_caps(es.take(k)) + effects_caps(es.skip(k)),
    decreases es.len(),
{
    if es.len() == k {
        assert(es.take(k) =~= es);
        assert(es.skip(k) =~= Seq::<Effect>::empty());
        assert(effects_caps(es) + Seq::<CapView>::empty() =~= effects_caps(es));
    } else {
        lemma_effects_split(es.drop_last(), k);
        assert(es.drop_last().take(k) =~= es.take(k));
        assert(es.skip(k).drop_last() =~= es.drop_last().skip(k));
        assert(es.skip(k).last() == es.last());
    }
}

proof fn lemma_handlers_split(hs: Seq<Handler>, k: int)
    requires
        0 <= k <= hs.len(),
    ensures
        handlers_caps(hs) == handlers_caps(hs.take(k)) + handlers_caps(hs.skip(k)),
    decreases hs.len(),
{
    if hs.len() == k {
        assert(hs.take(k) =~= hs);
        assert(hs.skip(k) =~= Seq::<Handler>::empty());
        assert(handlers_caps(hs) + Seq::<CapView>::empty() =~= handlers_caps(hs));
    } else {
        lemma_handlers_split(hs.drop_last(), k);
        assert(hs.drop_last().take(k) =~= hs.take(k));
        assert(hs.skip(k).drop_last() =~= hs.drop_last().skip(k));
        assert(hs.skip(k).last() == hs.last());
    }
}

// ---------------------------------------------------------------------------------------
// The run
// ---------------------------------------------------------------------------------------

/// Whether an effect, run for an event with the given payload, sends a request and so takes
/// one of the replies received: a REST, GraphQL, SNS publish or SQS send effect whose request
/// can be built.
pub open spec fn takes_reply(effect: Effect, payload: JsonV, env: RuntimeEnvironment) -> bool {
    match effect {
        Effect::Rest(rest) => rest_request(rest, payload, env) is Ok,
        Effect::Graphql(g) => graphql_request(g, payload, env) is Ok,
        Effect::SnsPublish(sns) => aws_request(
            "Publish"@,
            sns.endpoint_url,
            sns.service,
            None,
            seq![("TopicArn"@, sns.topic_arn@)],
            "Message"@,
            sns.message@,
            payload,
            env,
        ) is Ok,
        Effect::SqsSend(sqs) => aws_request(
            "SendMessage"@,
            sqs.endpoint_url,
            sqs.service,
            Some(url_path(sqs.queue_url@)),
            seq![("QueueUrl"@, sqs.queue_url@)],
            "MessageBody"@,
            sqs.message@,
            payload,
            env,
        ) is Ok,
        Effect::Websocket(ws) => websocket_request(ws, payload, env) is Ok,
        _ => false,
    }
}

/// Whether the entry at `i` records an executed effect that took a reply, for the event
/// dequeued last before it.
pub open spec fn took_reply_at(t: Seq<TraceEntry>, i: int, hs: Seq<Handler>, env: RuntimeEnvironment) -> bool {
    match t[i].kind {
        TraceEntryKind::EffectExecuted { handler_index, effect_index, .. } => match last_dequeued(t.take(i + 1)) {
            Some(d) => match t[d].kind {
                TraceEntryKind::EventDequeued { event } => takes_reply(
                    hs[handler_index as int].effects@[effect_index as int],
                    event.payload@,
                    env,
                ),
                _ => false,
            },
            None => false,
        },
        _ => false,
    }
}

/// How many of the replies received the effects recorded in a trace took, in order.
pub open spec fn replies_taken(t: Seq<TraceEntry>, hs: Seq<Handler>, env: RuntimeEnvironment) -> nat
    decreases t.len(),
{
    if t.len() == 0 {
        0
    } else {
        replies_taken(t.drop_last(), hs, env) + if took_reply_at(t, t.len() - 1, hs, env) {
            1nat
        } else {
            0nat
        }
    }
}

/// Recording an entry adds to the replies taken only where it records an effect that took one.
proof fn lemma_taken_push(t: Seq<TraceEntry>, e: TraceEntry, hs: Seq<Handler>, env: RuntimeEnvironment)
    ensures
        replies_taken(t.push(e), hs, env) == replies_taken(t, hs, env) + if took_reply_at(
            t.push(e),
            t.len() as int,
            hs,
            env,
        ) {
            1nat
        } else {
            0nat
        },
        !(e.kind is EffectExecuted) ==> replies_taken(t.push(e), hs, env) == replies_taken(t, hs, env),
{
    assert(t.push(e).drop_last() =~= t);
}

/// An executed effect recorded after the event dequeued at `d` took a reply exactly where its
/// effect takes one for that event.
proof fn lemma_took_effect(
    t: Seq<TraceEntry>,
    e: TraceEntry,
    hs: Seq<Handler>,
    env: RuntimeEnvironment,
    d: int,
    h: int,
    x: int,
    ev: Event,
)
    requires
        last_dequeued(t) == Some(d),
        0 <= d < t.len(),
        t[d].kind matches TraceEntryKind::EventDequeued { event } && event@ == ev@,
        e.kind matches TraceEntryKind::EffectExecuted { handler_index, effect_index, .. }
            && handler_index == h && effect_index == x,
    ensures
        took_reply_at(t.push(e), t.len() as int, hs, env) == takes_reply(
            hs[h].effects@[x],
            ev.payload@,
            env,
        ),
{
    let u = t.push(e);
    assert(u.take(t.len() as int + 1) =~= u);
    assert(u.drop_last() =~= t);
    assert(u[d] == t[d]);
}

/// An effect that is done takes a reply exactly where its effect takes one for the event.
proof fn lemma_step_takes(
    o: Observation,
    effect: Effect,
    event: Event,
    trace_id: Seq<char>,
    before: nat,
    after: nat,
    replies: Seq<HttpReply>,
    used_before: nat,
    used_after: nat,
    env: RuntimeEnvironment,
    limits: ExecutionLimits,
)
    requires
        effect_step(EffectStep::Done(Ok(o)), effect, event, trace_id, before, after, replies, used_before, used_after, env, limits),
    ensures
        used_after == used_before + if takes_reply(effect, event.payload@, env) {
            1nat
        } else {
            0nat
        },
{
}

/// Whether a trace records its start only first, and seeded events only among the `k`
/// entries after it.
pub open spec fn opens_once(t: Seq<TraceEntry>, k: int) -> bool {
    forall|i: int|
        1 <= i < t.len() ==> !((#[trigger] t[i]).kind is RunStarted) && (i > k ==> !(t[i].kind is EventSeeded))
}

/// Recording an entry that starts nothing, and seeds only among the first `k`, keeps a trace
/// opened once.
proof fn lemma_opens_push(t: Seq<TraceEntry>, e: TraceEntry, k: int)
    requires
        opens_once(t, k),
        t.len() >= 1,
        !(e.kind is RunStarted),
        e.kind is EventSeeded ==> t.len() <= k,
    ensures
        opens_once(t.push(e), k),
{
    assert forall|i: int| 1 <= i < t.push(e).len() implies !((#[trigger] t.push(e)[i]).kind is RunStarted) && (i
        > k ==> !(t.push(e)[i].kind is EventSeeded)) by {
        if i < t.len() {
            assert(t.push(e)[i] == t[i]);
        }
    }
}

/// An effect takes at most one of the replies received.
proof fn lemma_step_uses_one_reply(
    r: EffectStep,
    effect: Effect,
    event: Event,
    trace_id: Seq<char>,
    before: nat,
    after: nat,
    replies: Seq<HttpReply>,
    used_before: nat,
    used_after: nat,
    env: RuntimeEnvironment,
    limits: ExecutionLimits,
)
    requires
        effect_step(r, effect, event, trace_id, before, after, replies, used_before, used_after, env, limits),
    ensures
        used_after <= used_before + 1,
{
}

/// Where a run stands: finished with its report, or waiting for the reply to an HTTP
/// request that no reply given so far answers.
#[derive(Debug)]
pub enum RunProgress {
    Finished(RunReport),
    Awaiting(HttpRequest),
}

/// Whether `q` is the request that effect `x` of handler `h` sends for an event once all the
/// replies received have been used: a run waits for a reply only where it has run out of
/// them, and only for the request of one of its HTTP effects.
pub open spec fn awaits_reply(
    q: HttpRequest,
    hs: Seq<Handler>,
    replies: Seq<HttpReply>,
    env: RuntimeEnvironment,
    limits: ExecutionLimits,
    h: int,
    x: int,
    ev: Event,
    trace_id: Seq<char>,
    before: nat,
    after: nat,
    used_after: nat,
) -> bool {
    &&& 0 <= h < hs.len()
    &&& 0 <= x < hs[h].effects@.len()
    &&& effect_step(
        EffectStep::Awaiting(q),
        hs[h].effects@[x],
        ev,
        trace_id,
        before,
        after,
        replies,
        replies.len(),
        used_after,
        env,
        limits,
    )
}

/// Whether `t` is the trace that a run has recorded when it comes to effect `x` of handler
/// `h` for event `ev`: each executed effect records what its effect gave with the replies
/// received, the handlers are followed, and `ev`, dequeued last at `d`, has been handled by
/// the matching handlers before `h` and by the effects of `h` before `x`.
pub open spec fn reached_effect(
    t: Seq<TraceEntry>,
    hs: Seq<Handler>,
    replies: Seq<HttpReply>,
    env: RuntimeEnvironment,
    limits: ExecutionLimits,
    d: int,
    h: int,
    x: int,
    ev: Event,
) -> bool {
    &&& effects_recorded(t, hs, replies, env, limits)
    &&& handling_state(
        t,
        hs,
        d,
        ev.id@,
        ev.event_type@,
        handling_places(hs, ev.event_type@, h) + seq![(h, -1)] + Seq::new(x as nat, |k: int| (h, k)),
    )
    &&& t[d].kind matches TraceEntryKind::EventDequeued { event } && event@ == ev@
}

/// Why a finished run failed: the policy denied a capability; the run took as many steps as
/// its limit allows; an effect it came to, after the trace recorded so far, ended in an engine
/// error, which the failure gives with the id that the effect's entry would have had; or the
/// effect that the entry before the end records failed.
#[verifier::opaque]
pub open spec fn failed_for(
    report: RunReport,
    denied: bool,
    hs: Seq<Handler>,
    replies: Seq<HttpReply>,
    env: RuntimeEnvironment,
    limits: ExecutionLimits,
) -> bool {
    let t = report.trace@.drop_last();
    ||| denied
    ||| report.failure matches Some(f) && f.trace_entry_id is None && f.message@ == engine_error_text(
        EngineError::MaxStepCountExceeded { limit: limits.max_steps },
    ) && step_count(t) == limits.max_steps
    ||| report.failure matches Some(f) && f.trace_entry_id matches Some(tid) && exists|
        d: int,
        h: int,
        x: int,
        ev: Event,
        before: nat,
        after: nat,
        u1: nat,
        e: EngineError,
    |
        #![trigger reached_effect(t, hs, replies, env, limits, d, h, x, ev), effect_step(EffectStep::Done(Err(e)), hs[h].effects@[x], ev, tid@, before, after, replies, replies_taken(t, hs, env), u1, env, limits)]
        reached_effect(t, hs, replies, env, limits, d, h, x, ev) && 0 <= h < hs.len() && 0 <= x
            < hs[h].effects@.len() && effect_step(
            EffectStep::Done(Err(e)),
            hs[h].effects@[x],
            ev,
            tid@,
            before,
            after,
            replies,
            replies_taken(t, hs, env),
            u1,
            env,
            limits,
        ) && f.message@ == engine_error_text(e)
    ||| report.trace@.len() >= 2 && !entry_passed(report.trace@[report.trace@.len() - 2])
}

/// A run refused by its policy failed for a reason.
proof fn lemma_failed_denied(report: RunReport, hs: Seq<Handler>, replies: Seq<HttpReply>, env: RuntimeEnvironment, limits: ExecutionLimits)
    ensures
        failed_for(report, true, hs, replies, env, limits),
{
    reveal(failed_for);
}

/// A run that stopped at its step limit failed for a reason.
proof fn lemma_failed_steps(
    report: RunReport,
    denied: bool,
    hs: Seq<Handler>,
    replies: Seq<HttpReply>,
    env: RuntimeEnvironment,
    limits: ExecutionLimits,
)
    requires
        report.failure matches Some(f) && f.trace_entry_id is None && f.message@ == engine_error_text(
            EngineError::MaxStepCountExceeded { limit: limits.max_steps },
        ),
        step_count(report.trace@.drop_last()) == limits.max_steps,
    ensures
        failed_for(report, denied, hs, replies, env, limits),
{
    reveal(failed_for);
}

/// A run stopped by an engine error of the effect it came to failed for a reason.
proof fn lemma_failed_error(
    report: RunReport,
    denied: bool,
    hs: Seq<Handler>,
    replies: Seq<HttpReply>,
    env: RuntimeEnvironment,
    limits: ExecutionLimits,
    tid: Seq<char>,
    d: int,
    h: int,
    x: int,
    ev: Event,
    before: nat,
    after: nat,
    u1: nat,
    e: EngineError,
)
    requires
        report.failure matches Some(f) && f.trace_entry_id matches Some(i) && i@ == tid
            && f.message@ == engine_error_text(e),
        reached_effect(report.trace@.drop_last(), hs, replies, env, limits, d, h, x, ev),
        0 <= h < hs.len(),
        0 <= x < hs[h].effects@.len(),
        effect_step(
            EffectStep::Done(Err(e)),
            hs[h].effects@[x],
            ev,
            tid,
            before,
            after,
            replies,
            replies_taken(report.trace@.drop_last(), hs, env),
            u1,
            env,
            limits,
        ),
    ensures
        failed_for(report, denied, hs, replies, env, limits),
{
    reveal(failed_for);
}

/// A run whose last executed effect failed failed for a reason.
proof fn lemma_failed_entry(
    report: RunReport,
    denied: bool,
    hs: Seq<Handler>,
    replies: Seq<HttpReply>,
    env: RuntimeEnvironment,
    limits: ExecutionLimits,
)
    requires
        report.trace@.len() >= 2,
        !entry_passed(report.trace@[report.trace@.len() - 2]),
    ensures
        failed_for(report, denied, hs, replies, env, limits),
{
    reveal(failed_for);
}

/// A run whose workflow has no REST, GraphQL, SNS publish, SQS send or WebSocket effect never
/// waits for a reply: it always finishes with its report.
pub proof fn law_runs_without_http_finish(
    q: HttpRequest,
    hs: Seq<Handler>,
    replies: Seq<HttpReply>,
    env: RuntimeEnvironment,
    limits: ExecutionLimits,
    h: int,
    x: int,
    ev: Event,
    trace_id: Seq<char>,
    before: nat,
    after: nat,
    used_after: nat,
)
    requires
        forall|i: int, j: int|
            0 <= i < hs.len() && 0 <= j < hs[i].effects@.len() ==> !(#[trigger] hs[i].effects@[j] is Rest)
                && !(hs[i].effects@[j] is Graphql) && !(hs[i].effects@[j] is SnsPublish) && !(
                hs[i].effects@[j] is SqsSend) && !(hs[i].effects@[j] is Websocket),
    ensures
        !awaits_reply(q, hs, replies, env, limits, h, x, ev, trace_id, before, after, used_after),
{
    if 0 <= h < hs.len() && 0 <= x < hs[h].effects@.len() {
        assert(!(hs[h].effects@[x] is Rest) && !(hs[h].effects@[x] is Graphql) && !(
            hs[h].effects@[x] is SnsPublish) && !(hs[h].effects@[x] is SqsSend) && !(
            hs[h].effects@[x] is Websocket));
    }
}

/// The message with which a policy refuses a run.
pub open spec fn denial_text(id: Seq<char>) -> Seq<char> {
    "execution policy denies write capability "@ + id + "; approve it to run this workflow"@
}

/// A trace entry that records the seeding of `seed` as the `n`th event of the run.
pub open spec fn seeded_as(e: TraceEntry, seed: Event, n: nat) -> bool {
    e.kind matches TraceEntryKind::EventSeeded { event } && event@ == (crate::domain::event::EventV {
        sequence: n as u64,
        ..seed@
    })
}

/// The copies of the events that an observation carries out of its effect.
fn emitted_events_of(o: &Observation) -> (r: Vec<Event>)
    ensures
        r@.len() == emitted_of(*o).len(),
        forall|k: int| 0 <= k < r@.len() ==> (#[trigger] r@[k])@ == emitted_of(*o)[k]@,
{
    let events = match o {
        Observation::EmittedEvents { events } => events,
        Observation::RestResponse { emitted_events, .. } => emitted_events,
        Observation::GraphqlResponse { emitted_events, .. } => emitted_events,
        Observation::SnsPublish { emitted_events, .. } => emitted_events,
        Observation::SqsSend { emitted_events, .. } => emitted_events,
        Observation::WebsocketMessage { emitted_events, .. } => emitted_events,
        _ => {
            return Vec::new();
        },
    };
    let mut r: Vec<Event> = Vec::new();
    let mut i: usize = 0;
    while i < events.len()
        invariant
            i <= events@.len(),
            events@ == emitted_of(*o),
            r@.len() == i,
            forall|k: int| 0 <= k < i ==> (#[trigger] r@[k])@ == events@[k]@,
        decreases events.len() - i,
    {
        r.push(events[i].clone());
        i = i + 1;
    }
    r
}

/// The message with which a failed effect fails the run.
fn failed_effect_message(event_id: &String, handler_index: usize, effect_index: usize, observation: &Observation) -> (r: String)
    ensures
        r@ == "event "@ + event_id@ + " triggered handler "@ + decimal(handler_index as nat)
            + " effect "@ + decimal(effect_index as nat) + ": "@ + failure_text(*observation),
{
    let mut out: Vec<char> = Vec::new();
    push_str(&mut out, "event ");
    push_string(&mut out, event_id);
    push_str(&mut out, " triggered handler ");
    push_decimal(&mut out, handler_index as u64);
    push_str(&mut out, " effect ");
    push_decimal(&mut out, effect_index as u64);
    push_str(&mut out, ": ");
    let m = observation_failure_message(observation);
    push_string(&mut out, &m);
    string_of(&out)
}

impl Runner {
    /// Whether another step may run after `processed_steps` steps.
    pub fn check_step_limit(&self, processed_steps: usize) -> (r: Result<(), EngineError>)
        ensures
            match r {
                Ok(()) => processed_steps < self.limits.max_steps,
                Err(e) => processed_steps >= self.limits.max_steps && e
                    == (EngineError::MaxStepCountExceeded { limit: self.limits.max_steps }),
            },
    {
        if processed_steps >= self.limits.max_steps {
            Err(EngineError::MaxStepCountExceeded { limit: self.limits.max_steps })
        } else {
            Ok(())
        }
    }

    /// Runs a workflow, as the run with id `run_id` that has got `replies` to its first
    /// HTTP requests: checks the policy, seeds the events, then takes events off the queue
    /// one at a time, runs the effects of each handler for the event's type in handler
    /// order, and queues the events they emit, until the queue is empty, a limit is hit,
    /// an effect fails, or a request has no reply yet.
    ///
    /// A finished report keeps what every report keeps; a refused run fails at once with
    /// the first denied capability; the seeds open the trace in order; each dequeued event
    /// is handled by exactly the handlers for its type, in order, each running all its
    /// effects in order, or is skipped, before the next event is dequeued; each executed
    /// effect records what that effect gives for the event; and events are dequeued in the
    /// order they were queued, all of them where the run succeeds.
    #[verifier::loop_isolation(false)]
    #[verifier::rlimit(100)]
    pub fn run(&self, workflow: &Workflow, run_id: &str, replies: &Vec<HttpReply>) -> (r: RunProgress)
        ensures
            replies@.len() >= self.limits.max_steps ==> r is Finished,
            r matches RunProgress::Finished(report) ==> opens_once(
                report.trace@,
                workflow.seed_events@.len() as int,
            ),
            r matches RunProgress::Finished(report) ==> (report.status == RunStatus::Failed
                ==> failed_for(
                report,
                first_denied(handlers_caps(workflow.handlers@), self.policy) is Some,
                workflow.handlers@,
                replies@,
                self.environment,
                self.limits,
            )),
            r matches RunProgress::Finished(report) ==> replies_taken(
                report.trace@,
                workflow.handlers@,
                self.environment,
            ) <= replies@.len(),
            r matches RunProgress::Finished(report) ==> report_ok(
                report,
                run_id@,
                workflow.name@,
                self.limits,
            ),
            first_denied(handlers_caps(workflow.handlers@), self.policy) matches Some(id) ==> (
            r matches RunProgress::Finished(report) && report.status == RunStatus::Failed
                && report.trace@.len() == 2 && (report.failure matches Some(f)
                && f.trace_entry_id is None && f.message@ == denial_text(id))),
            first_denied(handlers_caps(workflow.handlers@), self.policy) is None ==> (
            r matches RunProgress::Finished(report) ==> report.trace@.len()
                >= workflow.seed_events@.len() + 2 && forall|i: int|
                0 <= i < workflow.seed_events@.len() ==> seeded_as(
                    #[trigger] report.trace@[i + 1],
                    workflow.seed_events@[i],
                    (i + 1) as nat,
                )),
            r matches RunProgress::Finished(report) ==> follows_handlers(
                report.trace@,
                workflow.handlers@,
            ) && (report.status == RunStatus::Succeeded ==> handling_complete(
                report.trace@.drop_last(),
                workflow.handlers@,
            )),
            r matches RunProgress::Awaiting(q) ==> exists|
                t: Seq<TraceEntry>,
                d: int,
                h: int,
                x: int,
                ev: Event,
                trace_id: Seq<char>,
                before: nat,
                after: nat,
                used_after: nat,
            |
                #![trigger reached_effect(t, workflow.handlers@, replies@, self.environment, self.limits, d, h, x, ev), awaits_reply(q, workflow.handlers@, replies@, self.environment, self.limits, h, x, ev, trace_id, before, after, used_after)]
                reached_effect(
                    t,
                    workflow.handlers@,
                    replies@,
                    self.environment,
                    self.limits,
                    d,
                    h,
                    x,
                    ev,
                ) && replies_taken(t, workflow.handlers@, self.environment) == replies@.len()
                    && t.len() >= workflow.seed_events@.len() + 1 && (forall|k: int|
                    0 <= k < workflow.seed_events@.len() ==> seeded_as(
                        #[trigger] t[k + 1],
                        workflow.seed_events@[k],
                        (k + 1) as nat,
                    )) && awaits_reply(
                    q,
                    workflow.handlers@,
                    replies@,
                    self.environment,
                    self.limits,
                    h,
                    x,
                    ev,
                    trace_id,
                    before,
                    after,
                    used_after,
                ),
            r matches RunProgress::Finished(report) ==> effects_recorded(
                report.trace@,
                workflow.handlers@,
                replies@,
                self.environment,
                self.limits,
            ),
            r matches RunProgress::Finished(report) ==> dequeued_events(report.trace@).is_prefix_of(
                queued_events(report.trace@),
            ) && (report.status == RunStatus::Succeeded ==> dequeued_events(report.trace@)
                == queued_events(report.trace@)),
    {
        let limits = self.limits;
        let ghost hs = workflow.handlers@;
        let mut state = RunState::new(run_id.to_owned(), workflow.name.clone());
        let ghost t0 = state.trace@;
        state.push_trace(
            TraceEntryKind::RunStarted { run_id: run_id.to_owned(), workflow_name: workflow.name.clone() },
        );
        proof {
            lemma_record(t0, 0, state.trace@.last(), limits);
            assert(state.trace@ == t0.push(state.trace@.last()));
            lemma_follow_other(t0, state.trace@.last(), hs);

            lemma_effects_other(t0, state.trace@.last(), hs, replies@, self.environment, self.limits);
            lemma_taken_push(t0, state.trace@.last(), hs, self.environment);
            assert(opens_once(state.trace@, workflow.seed_events@.len() as int));
            lemma_step_count_push(t0, state.trace@.last());
            lemma_queue_push(t0, state.trace@.last());
        }
        match self.denied_capability(workflow) {
            Some(capability) => {
                let error = EngineError::CapabilityDenied { capability };
                let ghost t = state.trace@;
                let ghost next = state.next_trace_sequence;
                let report = state.fail(None, error.message());
                proof {
                    lemma_ended(report, t, next, run_id@, workflow.name@, limits);
                    assert(report.trace@ == t.push(report.trace@.last()));
                    lemma_follow_other(t, report.trace@.last(), hs);

                    lemma_effects_other(t, report.trace@.last(), hs, replies@, self.environment, self.limits);
                    lemma_taken_push(t, report.trace@.last(), hs, self.environment);
                    lemma_opens_push(t, report.trace@.last(), workflow.seed_events@.len() as int);
                    lemma_step_count_push(t, report.trace@.last());
                    lemma_queue_order(t, Seq::empty());
                    lemma_queue_order_push(t, report.trace@.last());
                }
                proof { lemma_failed_denied(report, hs, replies@, self.environment, self.limits); }
                return RunProgress::Finished(report);
            },
            None => {},
        }
        let mut queue: VecDeque<Event> = VecDeque::new();
        let mut created: usize = 0;
        let mut i: usize = 0;
        let ghost seeds = workflow.seed_events@;
        while i < workflow.seed_events.len()
            invariant
                seeds == workflow.seed_events@,
                i <= seeds.len(),
                created == i,
                state.inv(limits),
                state.trace@.len() == i + 1,
                state.trace@[0].kind matches TraceEntryKind::RunStarted { run_id: r, workflow_name: w }
                    && r@ == run_id@ && w@ == workflow.name@,
                state.run_id@ == run_id@,
                state.workflow_name@ == workflow.name@,
                step_count(state.trace@) == 0,
                forall|k: int| 0 <= k < i ==> seeded_as(#[trigger] state.trace@[k + 1], seeds[k], (k + 1) as nat),
                hs == workflow.handlers@,
                effects_recorded(state.trace@, hs, replies@, self.environment, self.limits),
                follows_handlers(state.trace@, hs),
                last_dequeued(state.trace@) is None,
                replies_taken(state.trace@, hs, self.environment) == 0,
                opens_once(state.trace@, workflow.seed_events@.len() as int),
                dequeued_events(state.trace@) + queue_views(queue@) == queued_events(state.trace@),
            decreases seeds.len() - i,
        {
            let mut event = workflow.seed_events[i].clone();
            created = created + 1;
            event.sequence = created as u64;
            let ghost t = state.trace@;
            let ghost next = state.next_trace_sequence;
            state.push_trace(TraceEntryKind::EventSeeded { event: event.clone() });
            proof {
                lemma_record(t, next, state.trace@.last(), limits);
                assert(state.trace@ == t.push(state.trace@.last()));
                lemma_follow_other(t, state.trace@.last(), hs);

                lemma_effects_other(t, state.trace@.last(), hs, replies@, self.environment, self.limits);
                lemma_taken_push(t, state.trace@.last(), hs, self.environment);
                lemma_opens_push(t, state.trace@.last(), workflow.seed_events@.len() as int);
                lemma_step_count_push(t, state.trace@.last());
                lemma_queue_push(t, state.trace@.last());
                assert forall|k: int| 0 <= k < i + 1 implies seeded_as(
                    #[trigger] state.trace@[k + 1],
                    seeds[k],
                    (k + 1) as nat,
                ) by {
                    if k < i {
                        assert(state.trace@[k + 1] == t[k + 1]);
                    }
                }
            }
            let ghost qv0 = queue_views(queue@);
            queue.push_back(event);
            proof {
                assert(queue_views(queue@) =~= qv0 + seq![event@]);
                assert(dequeued_events(state.trace@) + queue_views(queue@) == queued_events(state.trace@));
            }
            i = i + 1;
        }
        let ghost seeded = state.trace@;
        let mut processed: usize = 0;
        let mut used: usize = 0;
        loop
            invariant
                state.inv(limits),
                state.trace@.len() >= seeds.len() + 1,
                state.trace@[0].kind matches TraceEntryKind::RunStarted { run_id: r, workflow_name: w }
                    && r@ == run_id@ && w@ == workflow.name@,
                state.run_id@ == run_id@,
                state.workflow_name@ == workflow.name@,
                forall|k: int| 0 <= k < seeds.len() ==> seeded_as(#[trigger] state.trace@[k + 1], seeds[k], (k + 1) as nat),
                step_count(state.trace@) == processed,
                processed <= limits.max_steps,
                used <= replies@.len(),
                used <= processed,
                used == replies_taken(state.trace@, hs, self.environment),
                opens_once(state.trace@, workflow.seed_events@.len() as int),
                hs == workflow.handlers@,
                effects_recorded(state.trace@, hs, replies@, self.environment, self.limits),
                follows_handlers(state.trace@, hs),
                handling_complete(state.trace@, hs),
                dequeued_events(state.trace@) + queue_views(queue@) == queued_events(state.trace@),
            decreases limits.max_steps - processed,
        {
            let ghost q_old = queue@;
            let event = match queue.pop_front() {
                Some(event) => event,
                None => {
                    break;
                },
            };
            if let Err(error) = self.check_step_limit(processed) {
                let ghost t = state.trace@;
                let ghost next = state.next_trace_sequence;
                let report = state.fail(None, error.message());
                proof {
                    lemma_ended(report, t, next, run_id@, workflow.name@, limits);
                    assert forall|k: int| 0 <= k < seeds.len() implies seeded_as(#[trigger] report.trace@[k + 1], seeds[k], (k + 1) as nat) by {
                        assert(report.trace@[k + 1] == t[k + 1]);
                    }
                    assert(report.trace@ == t.push(report.trace@.last()));
                    lemma_follow_other(t, report.trace@.last(), hs);

                    lemma_effects_other(t, report.trace@.last(), hs, replies@, self.environment, self.limits);
                    lemma_taken_push(t, report.trace@.last(), hs, self.environment);
                    lemma_opens_push(t, report.trace@.last(), workflow.seed_events@.len() as int);
                    lemma_step_count_push(t, report.trace@.last());
                    assert(queue_views(q_old) =~= seq![event@] + queue_views(queue@));
                    lemma_queue_order(t, seq![event@] + queue_views(queue@));
                    lemma_queue_order_push(t, report.trace@.last());
                }
                proof { lemma_failed_steps(report, first_denied(handlers_caps(workflow.handlers@), self.policy) is Some, hs, replies@, self.environment, self.limits); }
                return RunProgress::Finished(report);
            }
            processed = processed + 1;
            let ghost p0 = processed;
            let ghost t = state.trace@;
            let ghost next = state.next_trace_sequence;
            state.push_trace(TraceEntryKind::EventDequeued { event: event.clone() });
            let ghost d = t.len() as int;
            let ghost id = event.id@;
            let ghost ty = event.event_type@;
            proof {
                lemma_record(t, next, state.trace@.last(), limits);
                assert(state.trace@ == t.push(state.trace@.last()));
                lemma_dequeue(t, state.trace@.last(), hs);
                lemma_effects_other(t, state.trace@.last(), hs, replies@, self.environment, self.limits);
                lemma_taken_push(t, state.trace@.last(), hs, self.environment);
                lemma_opens_push(t, state.trace@.last(), workflow.seed_events@.len() as int);
                lemma_step_count_push(t, state.trace@.last());
                lemma_queue_push(t, state.trace@.last());
                assert(queue_views(q_old) =~= seq![event@] + queue_views(queue@));
                assert(dequeued_events(state.trace@) + queue_views(queue@) == queued_events(state.trace@));
                assert forall|k: int| 0 <= k < seeds.len() implies seeded_as(#[trigger] state.trace@[k + 1], seeds[k], (k + 1) as nat) by {
                    assert(state.trace@[k + 1] == t[k + 1]);
                }
            }
            let mut matched_any = false;
            let mut h: usize = 0;
            while h < workflow.handlers.len()
                invariant
                    state.inv(limits),
                    state.trace@.len() >= seeds.len() + 1,
                    state.trace@[0].kind matches TraceEntryKind::RunStarted { run_id: r, workflow_name: w }
                        && r@ == run_id@ && w@ == workflow.name@,
                    state.run_id@ == run_id@,
                    state.workflow_name@ == workflow.name@,
                    forall|k: int| 0 <= k < seeds.len() ==> seeded_as(#[trigger] state.trace@[k + 1], seeds[k], (k + 1) as nat),
                    step_count(state.trace@) == processed,
                    processed <= limits.max_steps,
                    used <= replies@.len(),
                    used <= processed,
                    used == replies_taken(state.trace@, hs, self.environment),
                    opens_once(state.trace@, workflow.seed_events@.len() as int),
                    p0 <= processed,
                    h <= workflow.handlers@.len(),
                    hs == workflow.handlers@,
                    effects_recorded(state.trace@, hs, replies@, self.environment, self.limits),
                    id == event.id@,
                    ty == event.event_type@,
                    handling_state(state.trace@, hs, d, id, ty, handling_places(hs, ty, h as int)),
                    state.trace@[d].kind matches TraceEntryKind::EventDequeued { event: ev } && ev@
                        == event@,
                    matched_any == (handling_places(hs, ty, h as int).len() > 0),
                    dequeued_events(state.trace@) + queue_views(queue@) == queued_events(state.trace@),
                decreases workflow.handlers@.len() - h,
            {
                let handler = &workflow.handlers[h];
                if str_eq(handler.on.as_str(), event.event_type.as_str()) {
                    matched_any = true;
                    let ghost t = state.trace@;
                    let ghost next = state.next_trace_sequence;
                    state.push_trace(
                        TraceEntryKind::HandlerMatched {
                            event_id: event.id.clone(),
                            handler_index: h,
                            on: handler.on.clone(),
                        },
                    );
                    proof {
                        lemma_record(t, next, state.trace@.last(), limits);
                        assert(state.trace@ == t.push(state.trace@.last()));
                        assert forall|k: int| 0 <= k < seeds.len() implies seeded_as(#[trigger] state.trace@[k + 1], seeds[k], (k + 1) as nat) by {
                            assert(state.trace@[k + 1] == t[k + 1]);
                        }
                        lemma_matched(t, state.trace@.last(), hs, d, id, ty, h as int);
                        lemma_effects_other(t, state.trace@.last(), hs, replies@, self.environment, self.limits);
                        lemma_taken_push(t, state.trace@.last(), hs, self.environment);
                        lemma_opens_push(t, state.trace@.last(), workflow.seed_events@.len() as int);
                        lemma_step_count_push(t, state.trace@.last());
                        lemma_queue_push(t, state.trace@.last());
                    }
                    let mut x: usize = 0;
                    while x < handler.effects.len()
                        invariant
                            state.inv(limits),
                            state.trace@.len() >= seeds.len() + 1,
                            state.trace@[0].kind matches TraceEntryKind::RunStarted { run_id: r, workflow_name: w }
                                && r@ == run_id@ && w@ == workflow.name@,
                            state.run_id@ == run_id@,
                            state.workflow_name@ == workflow.name@,
                            forall|k: int| 0 <= k < seeds.len() ==> seeded_as(#[trigger] state.trace@[k + 1], seeds[k], (k + 1) as nat),
                            step_count(state.trace@) == processed,
                            processed <= limits.max_steps,
                            used <= replies@.len(),
                            used <= processed,
                            used == replies_taken(state.trace@, hs, self.environment),
                            opens_once(state.trace@, workflow.seed_events@.len() as int),
                            p0 <= processed,
                            h < workflow.handlers@.len(),
                            x <= handler.effects@.len(),
                            hs == workflow.handlers@,
                            effects_recorded(state.trace@, hs, replies@, self.environment, self.limits),
                            *handler == hs[h as int],
                            id == event.id@,
                            ty == event.event_type@,
                            hs[h as int].on@ == ty,
                            state.trace@[d].kind matches TraceEntryKind::EventDequeued { event: ev }
                                && ev@ == event@,
                            handling_state(
                                state.trace@,
                                hs,
                                d,
                                id,
                                ty,
                                handling_places(hs, ty, h as int) + seq![(h as int, -1)] + Seq::new(
                                    x as nat,
                                    |k: int| (h as int, k),
                                ),
                            ),
                            dequeued_events(state.trace@) + queue_views(queue@) == queued_events(state.trace@),
                        decreases handler.effects@.len() - x,
                    {
                        let effect = &handler.effects[x];
                        if let Err(error) = self.check_step_limit(processed) {
                            let ghost t = state.trace@;
                            let ghost next = state.next_trace_sequence;
                            let report = state.fail(None, error.message());
                            proof {
                                lemma_ended(report, t, next, run_id@, workflow.name@, limits);
                                assert forall|k: int| 0 <= k < seeds.len() implies seeded_as(#[trigger] report.trace@[k + 1], seeds[k], (k + 1) as nat) by {
                                    assert(report.trace@[k + 1] == t[k + 1]);
                                }
                                assert(report.trace@ == t.push(report.trace@.last()));
                                lemma_follow_other(t, report.trace@.last(), hs);

                                lemma_effects_other(t, report.trace@.last(), hs, replies@, self.environment, self.limits);
                                lemma_taken_push(t, report.trace@.last(), hs, self.environment);
                                lemma_opens_push(t, report.trace@.last(), workflow.seed_events@.len() as int);
                                lemma_step_count_push(t, report.trace@.last());
                                lemma_queue_order(t, queue_views(queue@));
                                lemma_queue_order_push(t, report.trace@.last());
                            }
                            proof { lemma_failed_steps(report, first_denied(handlers_caps(workflow.handlers@), self.policy) is Some, hs, replies@, self.environment, self.limits); }
                            return RunProgress::Finished(report);
                        }
                        processed = processed + 1;
                        let ghost t = state.trace@;
                        let ghost next = state.next_trace_sequence;
                        let trace_entry_id = state.next_trace_id();
                        let ghost tid = trace_entry_id@;
                        let ghost c0 = created;
                        let ghost u_before = used;
                        let step = self.execute_effect(
                            effect,
                            &event,
                            trace_entry_id.as_str(),
                            &mut created,
                            replies,
                            &mut used,
                        );
                        proof {
                            lemma_step_uses_one_reply(
                                step,
                                *effect,
                                event,
                                trace_entry_id@,
                                c0 as nat,
                                created as nat,
                                replies@,
                                u_before as nat,
                                used as nat,
                                self.environment,
                                self.limits,
                            );
                        }
                        match step {
                            EffectStep::Awaiting(request) => {
                                proof {
                                    assert(replies_taken(state.trace@, hs, self.environment) == replies@.len());
                                    assert(reached_effect(
                                        state.trace@,
                                        hs,
                                        replies@,
                                        self.environment,
                                        self.limits,
                                        d,
                                        h as int,
                                        x as int,
                                        event,
                                    ));
                                    assert(awaits_reply(
                                        request,
                                        hs,
                                        replies@,
                                        self.environment,
                                        self.limits,
                                        h as int,
                                        x as int,
                                        event,
                                        trace_entry_id@,
                                        c0 as nat,
                                        created as nat,
                                        used as nat,
                                    ));
                                }
                                return RunProgress::Awaiting(request);
                            },
                            EffectStep::Done(Err(error)) => {
                                proof {
                                    assert(reached_effect(
                                        state.trace@,
                                        hs,
                                        replies@,
                                        self.environment,
                                        self.limits,
                                        d,
                                        h as int,
                                        x as int,
                                        event,
                                    ));
                                }
                                let report = state.fail(Some(trace_entry_id), error.message());
                                proof {
                                    lemma_inv_skip(t, next, limits);
                                    lemma_ended(report, t, next_sequence(next), run_id@, workflow.name@, limits);
                                    assert forall|k: int| 0 <= k < seeds.len() implies seeded_as(#[trigger] report.trace@[k + 1], seeds[k], (k + 1) as nat) by {
                                        assert(report.trace@[k + 1] == t[k + 1]);
                                    }
                                    assert(report.trace@ == t.push(report.trace@.last()));
                                    lemma_follow_other(t, report.trace@.last(), hs);

                                    lemma_effects_other(t, report.trace@.last(), hs, replies@, self.environment, self.limits);
                                    lemma_taken_push(t, report.trace@.last(), hs, self.environment);
                                    lemma_opens_push(t, report.trace@.last(), workflow.seed_events@.len() as int);
                                    lemma_step_count_push(t, report.trace@.last());
                                    lemma_queue_order(t, queue_views(queue@));
                                    lemma_queue_order_push(t, report.trace@.last());
                                }
                                proof { lemma_failed_error(report, first_denied(handlers_caps(workflow.handlers@), self.policy) is Some, hs, replies@, self.environment, self.limits, tid, d, h as int, x as int, event, c0 as nat, created as nat, used as nat, error); }
                                return RunProgress::Finished(report);
                            },
                            EffectStep::Done(Ok(observation)) => {
                                let ghost obs = observation;
                                if observation_failed(&observation) {
                                    let message = failed_effect_message(&event.id, h, x, &observation);
                                    let id_copy = trace_entry_id.clone();
                                    state.push_trace_with_id(
                                        trace_entry_id,
                                        TraceEntryKind::EffectExecuted {
                                            event_id: event.id.clone(),
                                            handler_index: h,
                                            effect_index: x,
                                            effect: effect.clone(),
                                            observation,
                                        },
                                    );
                                    let ghost e = state.trace@.last();
                                    proof {
                                        assert(state.trace@ == t.push(e));
                                        lemma_effect_done(t, e, hs, d, id, ty, h as int, x as int);
                                        lemma_effect_recorded(t, e, hs, replies@, self.environment, self.limits, d, event, c0 as nat, created as nat, u_before as nat, used as nat);
                                        lemma_taken_push(t, e, hs, self.environment);
                                        lemma_opens_push(t, e, workflow.seed_events@.len() as int);
                                        lemma_step_count_push(t, e);
                                        lemma_took_effect(t, e, hs, self.environment, d, h as int, x as int, event);
                                        lemma_step_takes(obs, *effect, event, tid, c0 as nat, created as nat, replies@, u_before as nat, used as nat, self.environment, self.limits);
                                    }
                                    let ghost t1 = state.trace@;
                                    let report = state.fail(Some(id_copy), message);
                                    proof {
                                        assert(report.trace@ == t1.push(report.trace@.last()));
                                        lemma_follow_other(t1, report.trace@.last(), hs);

                                        lemma_effects_other(t1, report.trace@.last(), hs, replies@, self.environment, self.limits);
                                        lemma_taken_push(t1, report.trace@.last(), hs, self.environment);
                                        lemma_opens_push(t1, report.trace@.last(), workflow.seed_events@.len() as int);
                                        lemma_step_count_push(t1, report.trace@.last());
                                        lemma_queue_order(t, queue_views(queue@));
                                        lemma_queue_order_push(t, e);
                                        lemma_queue_order_push(t1, report.trace@.last());
                                        assert(state.trace@ == t.push(e));
                                        lemma_step_count_push(t, e);
                                        lemma_ended_at_effect(report, t, next, e, run_id@, workflow.name@, limits);
                                        assert forall|k: int| 0 <= k < seeds.len() implies seeded_as(#[trigger] report.trace@[k + 1], seeds[k], (k + 1) as nat) by {
                                            assert(report.trace@[k + 1] == report.trace@.drop_last()[k + 1]);
                                            assert(t.push(e)[k + 1] == t[k + 1]);
                                        }
                                    }
                                    proof { assert(report.trace@[report.trace@.len() - 2] == e); lemma_failed_entry(report, first_denied(handlers_caps(workflow.handlers@), self.policy) is Some, hs, replies@, self.environment, self.limits); }
                                    return RunProgress::Finished(report);
                                }
                                let emitted = emitted_events_of(&observation);
                                state.push_trace_with_id(
                                    trace_entry_id,
                                    TraceEntryKind::EffectExecuted {
                                        event_id: event.id.clone(),
                                        handler_index: h,
                                        effect_index: x,
                                        effect: effect.clone(),
                                        observation,
                                    },
                                );
                                proof {
                                    let e = state.trace@.last();
                                    assert(state.trace@ == t.push(e));
                                    lemma_record(t, next, e, limits);
                                    lemma_effect_done(t, e, hs, d, id, ty, h as int, x as int);
                                    lemma_effect_recorded(t, e, hs, replies@, self.environment, self.limits, d, event, c0 as nat, created as nat, u_before as nat, used as nat);
                                    lemma_taken_push(t, e, hs, self.environment);
                                    lemma_opens_push(t, e, workflow.seed_events@.len() as int);
                                    lemma_step_count_push(t, e);
                                    lemma_took_effect(t, e, hs, self.environment, d, h as int, x as int, event);
                                    lemma_step_takes(obs, *effect, event, tid, c0 as nat, created as nat, replies@, u_before as nat, used as nat, self.environment, self.limits);
                                    lemma_queue_push(t, e);
                                    assert forall|k: int| 0 <= k < seeds.len() implies seeded_as(#[trigger] state.trace@[k + 1], seeds[k], (k + 1) as nat) by {
                                        assert(state.trace@[k + 1] == t[k + 1]);
                                    }
                                }
                                let ghost qv0 = queue_views(queue@);
                                let ghost added = queue_views(emitted@);
                                proof {
                                    assert(added =~= emitted_of(obs).map_values(|e: Event| e@));
                                    assert(queue_views(queue@) =~= qv0 + added.take(0));
                                }
                                let mut j: usize = 0;
                                while j < emitted.len()
                                    invariant
                                        j <= emitted@.len(),
                                        added == queue_views(emitted@),
                                        queue_views(queue@) == qv0 + added.take(j as int),
                                    decreases emitted@.len() - j,
                                {
                                    let copy = emitted[j].clone();
                                    let ghost before = queue_views(queue@);
                                    queue.push_back(copy);
                                    proof {
                                        assert(added.take(j + 1) =~= added.take(j as int).push(copy@));
                                        assert(queue_views(queue@) =~= before.push(copy@));
                                    }
                                    j = j + 1;
                                }
                                proof {
                                    assert(added.take(j as int) =~= added);
                                    assert(dequeued_events(state.trace@) + queue_views(queue@) == queued_events(state.trace@));
                                }
                            },
                        }
                        x = x + 1;
                    }
                }
                proof {
                    lemma_handler_done(hs, ty, h as int);
                }
                h = h + 1;
            }
            if !matched_any {
                let ghost t = state.trace@;
                let ghost next = state.next_trace_sequence;
                state.push_trace(TraceEntryKind::HandlerSkipped { event_id: event.id, on: event.event_type });
                proof {
                    lemma_record(t, next, state.trace@.last(), limits);
                    assert(state.trace@ == t.push(state.trace@.last()));
                    lemma_skipped(t, state.trace@.last(), hs, d, id, ty);
                    lemma_effects_other(t, state.trace@.last(), hs, replies@, self.environment, self.limits);
                    lemma_taken_push(t, state.trace@.last(), hs, self.environment);
                    lemma_opens_push(t, state.trace@.last(), workflow.seed_events@.len() as int);
                    lemma_step_count_push(t, state.trace@.last());
                    lemma_queue_push(t, state.trace@.last());
                    assert forall|k: int| 0 <= k < seeds.len() implies seeded_as(#[trigger] state.trace@[k + 1], seeds[k], (k + 1) as nat) by {
                        assert(state.trace@[k + 1] == t[k + 1]);
                    }
                }
            } else {
                proof {
                    lemma_handlers_done(state.trace@, hs, d, id, ty);
                }
            }
        }
        let ghost t = state.trace@;
        let ghost next = state.next_trace_sequence;
        let report = state.succeed();
        proof {
            lemma_ended(report, t, next, run_id@, workflow.name@, limits);
            assert(report.trace@ == t.push(report.trace@.last()));
            lemma_follow_other(t, report.trace@.last(), hs);

            lemma_effects_other(t, report.trace@.last(), hs, replies@, self.environment, self.limits);
            lemma_taken_push(t, report.trace@.last(), hs, self.environment);
            lemma_opens_push(t, report.trace@.last(), workflow.seed_events@.len() as int);
            lemma_step_count_push(t, report.trace@.last());
            lemma_queue_order(t, queue_views(queue@));
            lemma_queue_order_push(t, report.trace@.last());
            lemma_queue_push(t, report.trace@.last());
            assert forall|k: int| 0 <= k < seeds.len() implies seeded_as(#[trigger] report.trace@[k + 1], seeds[k], (k + 1) as nat) by {
                assert(report.trace@[k + 1] == t[k + 1]);
            }
        }
        RunProgress::Finished(report)
    }
}

} // verus!

use vstd::prelude::*;
use vstd::string::*;

use super::decode::{
    array_items, bool_field, check_keys, field, get_field, is_bool_or_false, is_json,
    is_json_map, is_json_or_null, is_opt_json, is_opt_text, is_opt_u16, is_selector_map,
    is_text, is_text_map, is_unsigned_or, items_field, json_field, json_map_field,
    json_or_null_field, keys_allowed, opt_json_field, opt_text_field, opt_u16_field, oview,
    read_text, selector_map_field, text_field, text_map_field, text_of, unsigned_field,
    is_binding_map, binding_map_field,
};
use crate::domain::effect::{
    default_sqs_max_messages, default_websocket_timeout_ms, effect_name, method_text, AssertEffect, Effect, GraphqlEffect, GraphqlEventEmission, GraphqlExpectations,
    JsonPathSelector, RestEffect, RestEventEmission, RestExpectations, RestMethod,
    SnsEventEmission, SnsPublishEffect, SqsEventEmission, SqsReceiveEffect, SqsSendEffect,
    WebsocketEffect, WebsocketEventEmission, WebsocketExpectations, WebsocketSend,
};
use crate::domain::environment::RuntimeEnvironment;
use crate::domain::event::Event;
use crate::domain::workflow::{Handler, Workflow, CURRENT_WORKFLOW_VERSION};
use crate::json::{items_view, lemma_array_view, lemma_object_view, member_get, members_view, JsonV, JsonValue};
use crate::map::StrMap;
use crate::text::{decimal, push_decimal, push_str, push_string, str_eq, string_of};

verus! {

/// An emission: `{ event_type: <text>, payload: { <field>: { from: <query> } } }`.
pub open spec fn is_emission(v: JsonV, event_type: String, payload: StrMap<JsonPathSelector>) -> bool {
    is_text(field(v, "event_type"@), event_type) && is_selector_map(field(v, "payload"@), payload)
}

/// A list field of emissions, missing for none.
pub open spec fn is_emissions(f: Option<JsonV>, es: Seq<(String, StrMap<JsonPathSelector>)>) -> bool {
    array_items(f) matches Some(items) && items.len() == es.len() && forall|i: int|
        0 <= i < items.len() ==> is_emission(#[trigger] items[i], es[i].0, es[i].1)
}

fn emission_parts(v: &JsonValue) -> (r: Result<(String, StrMap<JsonPathSelector>), String>)
    ensures
        match r {
            Ok((t, p)) => is_emission(v@, t, p),
            Err(_) => forall|t: String, p: StrMap<JsonPathSelector>| !is_emission(v@, t, p),
        },
{
    let t = text_field(&get_field(v, "event_type"), "event_type")?;
    let p = selector_map_field(&get_field(v, "payload"), "payload")?;
    Ok((t, p))
}

pub open spec fn rest_parts(es: Seq<RestEventEmission>) -> Seq<(String, StrMap<JsonPathSelector>)> {
    es.map_values(|e: RestEventEmission| (e.event_type, e.payload))
}

/// Reads the emissions of a REST effect.
fn rest_emissions(f: &Option<JsonValue>) -> (r: Result<Vec<RestEventEmission>, String>)
    ensures
        match r {
            Ok(es) => is_emissions(oview(*f), rest_parts(es@)),
            Err(_) => forall|es: Seq<RestEventEmission>| !is_emissions(oview(*f), #[trigger] rest_parts(es)),
        },
{
    let items = items_field(f, "emits")?;
    let ghost iv = items_view(items@);
    let mut out: Vec<RestEventEmission> = Vec::new();
    let mut i: usize = 0;
    while i < items.len()
        invariant
            i <= items@.len(),
            iv == items_view(items@),
            array_items(oview(*f)) == Some(iv),
            out@.len() == i,
            forall|j: int| 0 <= j < i ==> is_emission(#[trigger] iv[j], out@[j].event_type, out@[j].payload),
        decreases items.len() - i,
    {
        match emission_parts(&items[i]) {
            Ok((event_type, payload)) => {
                out.push(RestEventEmission { event_type, payload });
            },
            Err(m) => {
                proof {
                    assert forall|es: Seq<RestEventEmission>| !is_emissions(oview(*f), #[trigger] rest_parts(es)) by {
                        let vs = rest_parts(es);
                        if is_emissions(oview(*f), vs) {
                            assert(is_emission(iv[i as int], vs[i as int].0, vs[i as int].1));
                        }
                    }
                }
                return Err(m);
            },
        }
        i = i + 1;
    }
    proof {
        let vs = rest_parts(out@);
        assert forall|j: int| 0 <= j < iv.len() implies is_emission(#[trigger] iv[j], vs[j].0, vs[j].1) by {
            assert(vs[j] == (out@[j].event_type, out@[j].payload));
        }
    }
    Ok(out)
}

pub open spec fn graphql_parts(es: Seq<GraphqlEventEmission>) -> Seq<(String, StrMap<JsonPathSelector>)> {
    es.map_values(|e: GraphqlEventEmission| (e.event_type, e.payload))
}

/// Reads the emissions of a GraphQL effect.
fn graphql_emissions(f: &Option<JsonValue>) -> (r: Result<Vec<GraphqlEventEmission>, String>)
    ensures
        match r {
            Ok(es) => is_emissions(oview(*f), graphql_parts(es@)),
            Err(_) => forall|es: Seq<GraphqlEventEmission>| !is_emissions(oview(*f), #[trigger] graphql_parts(es)),
        },
{
    let items = items_field(f, "emits")?;
    let ghost iv = items_view(items@);
    let mut out: Vec<GraphqlEventEmission> = Vec::new();
    let mut i: usize = 0;
    while i < items.len()
        invariant
            i <= items@.len(),
            iv == items_view(items@),
            array_items(oview(*f)) == Some(iv),
            out@.len() == i,
            forall|j: int| 0 <= j < i ==> is_emission(#[trigger] iv[j], out@[j].event_type, out@[j].payload),
        decreases items.len() - i,
    {
        match emission_parts(&items[i]) {
            Ok((event_type, payload)) => {
                out.push(GraphqlEventEmission { event_type, payload });
            },
            Err(m) => {
                proof {
                    assert forall|es: Seq<GraphqlEventEmission>| !is_emissions(oview(*f), #[trigger] graphql_parts(es)) by {
                        let vs = graphql_parts(es);
                        if is_emissions(oview(*f), vs) {
                            assert(is_emission(iv[i as int], vs[i as int].0, vs[i as int].1));
                        }
                    }
                }
                return Err(m);
            },
        }
        i = i + 1;
    }
    proof {
        let vs = graphql_parts(out@);
        assert forall|j: int| 0 <= j < iv.len() implies is_emission(#[trigger] iv[j], vs[j].0, vs[j].1) by {
            assert(vs[j] == (out@[j].event_type, out@[j].payload));
        }
    }
    Ok(out)
}

pub open spec fn sns_parts(es: Seq<SnsEventEmission>) -> Seq<(String, StrMap<JsonPathSelector>)> {
    es.map_values(|e: SnsEventEmission| (e.event_type, e.payload))
}

/// Reads the emissions of a SNS effect.
fn sns_emissions(f: &Option<JsonValue>) -> (r: Result<Vec<SnsEventEmission>, String>)
    ensures
        match r {
            Ok(es) => is_emissions(oview(*f), sns_parts(es@)),
            Err(_) => forall|es: Seq<SnsEventEmission>| !is_emissions(oview(*f), #[trigger] sns_parts(es)),
        },
{
    let items = items_field(f, "emits")?;
    let ghost iv = items_view(items@);
    let mut out: Vec<SnsEventEmission> = Vec::new();
    let mut i: usize = 0;
    while i < items.len()
        invariant
            i <= items@.len(),
            iv == items_view(items@),
            array_items(oview(*f)) == Some(iv),
            out@.len() == i,
            forall|j: int| 0 <= j < i ==> is_emission(#[trigger] iv[j], out@[j].event_type, out@[j].payload),
        decreases items.len() - i,
    {
        match emission_parts(&items[i]) {
            Ok((event_type, payload)) => {
                out.push(SnsEventEmission { event_type, payload });
            },
            Err(m) => {
                proof {
                    assert forall|es: Seq<SnsEventEmission>| !is_emissions(oview(*f), #[trigger] sns_parts(es)) by {
                        let vs = sns_parts(es);
                        if is_emissions(oview(*f), vs) {
                            assert(is_emission(iv[i as int], vs[i as int].0, vs[i as int].1));
                        }
                    }
                }
                return Err(m);
            },
        }
        i = i + 1;
    }
    proof {
        let vs = sns_parts(out@);
        assert forall|j: int| 0 <= j < iv.len() implies is_emission(#[trigger] iv[j], vs[j].0, vs[j].1) by {
            assert(vs[j] == (out@[j].event_type, out@[j].payload));
        }
    }
    Ok(out)
}

pub open spec fn sqs_parts(es: Seq<SqsEventEmission>) -> Seq<(String, StrMap<JsonPathSelector>)> {
    es.map_values(|e: SqsEventEmission| (e.event_type, e.payload))
}

/// Reads the emissions of a SQS effect.
fn sqs_emissions(f: &Option<JsonValue>) -> (r: Result<Vec<SqsEventEmission>, String>)
    ensures
        match r {
            Ok(es) => is_emissions(oview(*f), sqs_parts(es@)),
            Err(_) => forall|es: Seq<SqsEventEmission>| !is_emissions(oview(*f), #[trigger] sqs_parts(es)),
        },
{
    let items = items_field(f, "emits")?;
    let ghost iv = items_view(items@);
    let mut out: Vec<SqsEventEmission> = Vec::new();
    let mut i: usize = 0;
    while i < items.len()
        invariant
            i <= items@.len(),
            iv == items_view(items@),
            array_items(oview(*f)) == Some(iv),
            out@.len() == i,
            forall|j: int| 0 <= j < i ==> is_emission(#[trigger] iv[j], out@[j].event_type, out@[j].payload),
        decreases items.len() - i,
    {
        match emission_parts(&items[i]) {
            Ok((event_type, payload)) => {
                out.push(SqsEventEmission { event_type, payload });
            },
            Err(m) => {
                proof {
                    assert forall|es: Seq<SqsEventEmission>| !is_emissions(oview(*f), #[trigger] sqs_parts(es)) by {
                        let vs = sqs_parts(es);
                        if is_emissions(oview(*f), vs) {
                            assert(is_emission(iv[i as int], vs[i as int].0, vs[i as int].1));
                        }
                    }
                }
                return Err(m);
            },
        }
        i = i + 1;
    }
    proof {
        let vs = sqs_parts(out@);
        assert forall|j: int| 0 <= j < iv.len() implies is_emission(#[trigger] iv[j], vs[j].0, vs[j].1) by {
            assert(vs[j] == (out@[j].event_type, out@[j].payload));
        }
    }
    Ok(out)
}

pub open spec fn websocket_parts(es: Seq<WebsocketEventEmission>) -> Seq<(String, StrMap<JsonPathSelector>)> {
    es.map_values(|e: WebsocketEventEmission| (e.event_type, e.payload))
}

/// Reads the emissions of a WebSocket effect.
fn websocket_emissions(f: &Option<JsonValue>) -> (r: Result<Vec<WebsocketEventEmission>, String>)
    ensures
        match r {
            Ok(es) => is_emissions(oview(*f), websocket_parts(es@)),
            Err(_) => forall|es: Seq<WebsocketEventEmission>| !is_emissions(oview(*f), #[trigger] websocket_parts(es)),
        },
{
    let items = items_field(f, "emits")?;
    let ghost iv = items_view(items@);
    let mut out: Vec<WebsocketEventEmission> = Vec::new();
    let mut i: usize = 0;
    while i < items.len()
        invariant
            i <= items@.len(),
            iv == items_view(items@),
            array_items(oview(*f)) == Some(iv),
            out@.len() == i,
            forall|j: int| 0 <= j < i ==> is_emission(#[trigger] iv[j], out@[j].event_type, out@[j].payload),
        decreases items.len() - i,
    {
        match emission_parts(&items[i]) {
            Ok((event_type, payload)) => {
                out.push(WebsocketEventEmission { event_type, payload });
            },
            Err(m) => {
                proof {
                    assert forall|es: Seq<WebsocketEventEmission>| !is_emissions(oview(*f), #[trigger] websocket_parts(es)) by {
                        let vs = websocket_parts(es);
                        if is_emissions(oview(*f), vs) {
                            assert(is_emission(iv[i as int], vs[i as int].0, vs[i as int].1));
                        }
                    }
                }
                return Err(m);
            },
        }
        i = i + 1;
    }
    proof {
        let vs = websocket_parts(out@);
        assert forall|j: int| 0 <= j < iv.len() implies is_emission(#[trigger] iv[j], vs[j].0, vs[j].1) by {
            assert(vs[j] == (out@[j].event_type, out@[j].payload));
        }
    }
    Ok(out)
}


/// The expectations of a REST or GraphQL effect: `{ status: <u16> }`, missing for none.
pub open spec fn is_status_expect(f: Option<JsonV>, status: Option<u16>) -> bool {
    match f {
        None => status is None,
        Some(JsonV::Object(ms)) => is_opt_u16(member_get(ms, "status"@), status),
        _ => false,
    }
}

fn status_expect(f: &Option<JsonValue>) -> (r: Result<Option<u16>, String>)
    ensures
        match r {
            Ok(s) => is_status_expect(oview(*f), s),
            Err(_) => forall|s: Option<u16>| !is_status_expect(oview(*f), s),
        },
{
    match f {
        None => Ok(None),
        Some(v) => match v {
            JsonValue::Object(_) => {
                let status = get_field(v, "status");
                opt_u16_field(&status, "status")
            },
            _ => Err(String::from_str("invalid type: expected a map for field `expect`")),
        },
    }
}

/// A REST method: `GET`, `POST`, `PUT`, `PATCH` or `DELETE`.
pub open spec fn is_method(f: Option<JsonV>, m: RestMethod) -> bool {
    f matches Some(j) && text_of(j) == Some(method_text(m))
}

fn method_field(f: &Option<JsonValue>) -> (r: Result<RestMethod, String>)
    ensures
        match r {
            Ok(m) => is_method(oview(*f), m),
            Err(_) => forall|m: RestMethod| !is_method(oview(*f), m),
        },
{
    let t = text_field(f, "method")?;
    if str_eq(t.as_str(), "GET") {
        Ok(RestMethod::Get)
    } else if str_eq(t.as_str(), "POST") {
        Ok(RestMethod::Post)
    } else if str_eq(t.as_str(), "PUT") {
        Ok(RestMethod::Put)
    } else if str_eq(t.as_str(), "PATCH") {
        Ok(RestMethod::Patch)
    } else if str_eq(t.as_str(), "DELETE") {
        Ok(RestMethod::Delete)
    } else {
        Err(String::from_str("unknown variant for field `method`"))
    }
}

/// The fields of a REST effect.
pub open spec fn rest_fields(v: JsonV, r: RestEffect) -> bool {
    &&& is_opt_text(field(v, "service"@), r.service)
    &&& is_opt_text(field(v, "base_url"@), r.base_url)
    &&& is_opt_text(field(v, "operation"@), r.operation)
    &&& is_method(field(v, "method"@), r.method)
    &&& is_text(field(v, "path"@), r.path)
    &&& is_text_map(field(v, "query"@), r.query)
    &&& is_text_map(field(v, "headers"@), r.headers)
    &&& is_opt_json(field(v, "json_body"@), r.json_body)
    &&& is_status_expect(field(v, "expect"@), r.expect.status)
    &&& is_emissions(field(v, "emits"@), rest_parts(r.emits@))
}

fn decode_rest(v: &JsonValue) -> (r: Result<RestEffect, String>)
    ensures
        match r {
            Ok(e) => rest_fields(v@, e),
            Err(_) => forall|e: RestEffect| !rest_fields(v@, e),
        },
{
    let service = opt_text_field(&get_field(v, "service"), "service")?;
    let base_url = opt_text_field(&get_field(v, "base_url"), "base_url")?;
    let operation = opt_text_field(&get_field(v, "operation"), "operation")?;
    let method = method_field(&get_field(v, "method"))?;
    let path = text_field(&get_field(v, "path"), "path")?;
    let query = text_map_field(&get_field(v, "query"), "query")?;
    let headers = text_map_field(&get_field(v, "headers"), "headers")?;
    let json_body = opt_json_field(&get_field(v, "json_body"));
    let status = status_expect(&get_field(v, "expect"))?;
    let emits = rest_emissions(&get_field(v, "emits"))?;
    Ok(
        RestEffect {
            service,
            base_url,
            operation,
            method,
            path,
            query,
            headers,
            json_body,
            expect: RestExpectations { status },
            emits,
        },
    )
}

/// The fields of a GraphQL effect.
pub open spec fn graphql_fields(v: JsonV, g: GraphqlEffect) -> bool {
    &&& is_opt_text(field(v, "service"@), g.service)
    &&& is_opt_text(field(v, "base_url"@), g.base_url)
    &&& is_opt_text(field(v, "operation_name"@), g.operation_name)
    &&& is_text(field(v, "query"@), g.query)
    &&& is_json_or_null(field(v, "variables"@), g.variables)
    &&& is_status_expect(field(v, "expect"@), g.expect.status)
    &&& is_emissions(field(v, "emits"@), graphql_parts(g.emits@))
}

fn decode_graphql(v: &JsonValue) -> (r: Result<GraphqlEffect, String>)
    ensures
        match r {
            Ok(e) => graphql_fields(v@, e),
            Err(_) => forall|e: GraphqlEffect| !graphql_fields(v@, e),
        },
{
    let service = opt_text_field(&get_field(v, "service"), "service")?;
    let base_url = opt_text_field(&get_field(v, "base_url"), "base_url")?;
    let operation_name = opt_text_field(&get_field(v, "operation_name"), "operation_name")?;
    let query = text_field(&get_field(v, "query"), "query")?;
    let variables = json_or_null_field(&get_field(v, "variables"));
    let status = status_expect(&get_field(v, "expect"))?;
    let emits = graphql_emissions(&get_field(v, "emits"))?;
    Ok(
        GraphqlEffect {
            service,
            base_url,
            operation_name,
            query,
            variables,
            expect: GraphqlExpectations { status },
            emits,
        },
    )
}

/// The fields of an SNS publish effect.
pub open spec fn sns_fields(v: JsonV, e: SnsPublishEffect) -> bool {
    &&& is_opt_text(field(v, "service"@), e.service)
    &&& is_opt_text(field(v, "endpoint_url"@), e.endpoint_url)
    &&& is_text(field(v, "topic_arn"@), e.topic_arn)
    &&& is_json(field(v, "message"@), e.message)
    &&& is_emissions(field(v, "emits"@), sns_parts(e.emits@))
}

fn decode_sns(v: &JsonValue) -> (r: Result<SnsPublishEffect, String>)
    ensures
        match r {
            Ok(e) => sns_fields(v@, e),
            Err(_) => forall|e: SnsPublishEffect| !sns_fields(v@, e),
        },
{
    let service = opt_text_field(&get_field(v, "service"), "service")?;
    let endpoint_url = opt_text_field(&get_field(v, "endpoint_url"), "endpoint_url")?;
    let topic_arn = text_field(&get_field(v, "topic_arn"), "topic_arn")?;
    let message = json_field(&get_field(v, "message"), "message")?;
    let emits = sns_emissions(&get_field(v, "emits"))?;
    Ok(SnsPublishEffect { service, endpoint_url, topic_arn, message, emits })
}

/// The fields of an SQS send effect.
pub open spec fn sqs_send_fields(v: JsonV, e: SqsSendEffect) -> bool {
    &&& is_opt_text(field(v, "service"@), e.service)
    &&& is_opt_text(field(v, "endpoint_url"@), e.endpoint_url)
    &&& is_text(field(v, "queue_url"@), e.queue_url)
    &&& is_json(field(v, "message"@), e.message)
    &&& is_emissions(field(v, "emits"@), sqs_parts(e.emits@))
}

fn decode_sqs_send(v: &JsonValue) -> (r: Result<SqsSendEffect, String>)
    ensures
        match r {
            Ok(e) => sqs_send_fields(v@, e),
            Err(_) => forall|e: SqsSendEffect| !sqs_send_fields(v@, e),
        },
{
    let service = opt_text_field(&get_field(v, "service"), "service")?;
    let endpoint_url = opt_text_field(&get_field(v, "endpoint_url"), "endpoint_url")?;
    let queue_url = text_field(&get_field(v, "queue_url"), "queue_url")?;
    let message = json_field(&get_field(v, "message"), "message")?;
    let emits = sqs_emissions(&get_field(v, "emits"))?;
    Ok(SqsSendEffect { service, endpoint_url, queue_url, message, emits })
}

/// The fields of an SQS receive effect: at most one message by default, no wait, no delete.
pub open spec fn sqs_receive_fields(v: JsonV, e: SqsReceiveEffect) -> bool {
    &&& is_opt_text(field(v, "service"@), e.service)
    &&& is_opt_text(field(v, "endpoint_url"@), e.endpoint_url)
    &&& is_text(field(v, "queue_url"@), e.queue_url)
    &&& is_unsigned_or(field(v, "max_messages"@), e.max_messages as nat, 1, 255)
    &&& is_unsigned_or(field(v, "wait_time_seconds"@), e.wait_time_seconds as nat, 0, 255)
    &&& is_bool_or_false(field(v, "delete_on_success"@), e.delete_on_success)
    &&& is_emissions(field(v, "emits"@), sqs_parts(e.emits@))
}

fn decode_sqs_receive(v: &JsonValue) -> (r: Result<SqsReceiveEffect, String>)
    ensures
        match r {
            Ok(e) => sqs_receive_fields(v@, e),
            Err(_) => forall|e: SqsReceiveEffect| !sqs_receive_fields(v@, e),
        },
{
    let service = opt_text_field(&get_field(v, "service"), "service")?;
    let endpoint_url = opt_text_field(&get_field(v, "endpoint_url"), "endpoint_url")?;
    let queue_url = text_field(&get_field(v, "queue_url"), "queue_url")?;
    let max_messages = unsigned_field(
        &get_field(v, "max_messages"),
        "max_messages",
        default_sqs_max_messages() as u64,
        255,
    )?;
    let wait_time_seconds = unsigned_field(
        &get_field(v, "wait_time_seconds"),
        "wait_time_seconds",
        0,
        255,
    )?;
    let delete_on_success = bool_field(&get_field(v, "delete_on_success"), "delete_on_success")?;
    let emits = sqs_emissions(&get_field(v, "emits"))?;
    Ok(
        SqsReceiveEffect {
            service,
            endpoint_url,
            queue_url,
            max_messages: max_messages as u8,
            wait_time_seconds: wait_time_seconds as u8,
            delete_on_success,
            emits,
        },
    )
}

/// What a WebSocket effect sends: `{ json: <value> }` or `{ text: <text> }`.
pub open spec fn is_send(f: Option<JsonV>, s: WebsocketSend) -> bool {
    f matches Some(JsonV::Object(ms)) && ms.len() == 1 && match s {
        WebsocketSend::Json(j) => ms[0].0 == "json"@ && j@ == ms[0].1,
        WebsocketSend::Text(t) => ms[0].0 == "text"@ && text_of(ms[0].1) == Some(t@),
    }
}

fn send_field(f: &Option<JsonValue>) -> (r: Result<WebsocketSend, String>)
    ensures
        match r {
            Ok(s) => is_send(oview(*f), s),
            Err(_) => forall|s: WebsocketSend| !is_send(oview(*f), s),
        },
{
    let members = match f {
        Some(JsonValue::Object(members)) => members,
        Some(_) => {
            return Err(String::from_str("invalid type: expected a map for field `send`"));
        },
        None => {
            return Err(String::from_str("missing field `send`"));
        },
    };
    proof {
        lemma_object_view(*members);
    }
    if members.len() != 1 {
        return Err(String::from_str("invalid value: expected one variant for field `send`"));
    }
    let ghost mv = members_view(members@);
    assert(mv[0] == (members@[0].0@, members@[0].1@));
    if str_eq(members[0].0.as_str(), "json") {
        Ok(WebsocketSend::Json(members[0].1.clone()))
    } else if str_eq(members[0].0.as_str(), "text") {
        match read_text(&members[0].1) {
            Some(t) => Ok(WebsocketSend::Text(t)),
            None => Err(String::from_str("invalid type: expected a string for field `send.text`")),
        }
    } else {
        Err(String::from_str("unknown variant for field `send`"))
    }
}

/// The expectations of a WebSocket effect: `{ json: { <path>: <value> } }`, missing for none.
pub open spec fn is_ws_expect(f: Option<JsonV>, m: StrMap<JsonValue>) -> bool {
    match f {
        None => m.items().len() == 0 && m.wf(),
        Some(JsonV::Object(ms)) => is_json_map(member_get(ms, "json"@), m),
        _ => false,
    }
}

fn ws_expect_field(f: &Option<JsonValue>) -> (r: Result<StrMap<JsonValue>, String>)
    ensures
        match r {
            Ok(m) => is_ws_expect(oview(*f), m),
            Err(_) => forall|m: StrMap<JsonValue>| !is_ws_expect(oview(*f), m),
        },
{
    match f {
        None => Ok(StrMap::new()),
        Some(v) => match v {
            JsonValue::Object(_) => {
                let json = get_field(v, "json");
                json_map_field(&json, "json")
            },
            _ => Err(String::from_str("invalid type: expected a map for field `expect`")),
        },
    }
}

/// The fields of a WebSocket effect: a five-second timeout by default.
pub open spec fn websocket_fields(v: JsonV, w: WebsocketEffect) -> bool {
    &&& is_opt_text(field(v, "service"@), w.service)
    &&& is_opt_text(field(v, "url"@), w.url)
    &&& is_opt_text(field(v, "session"@), w.session)
    &&& is_send(field(v, "send"@), w.send)
    &&& is_ws_expect(field(v, "expect"@), w.expect.json)
    &&& is_unsigned_or(field(v, "timeout_ms"@), w.timeout_ms as nat, 5000, u64::MAX as nat)
    &&& is_emissions(field(v, "emits"@), websocket_parts(w.emits@))
}

fn decode_websocket(v: &JsonValue) -> (r: Result<WebsocketEffect, String>)
    ensures
        match r {
            Ok(e) => websocket_fields(v@, e),
            Err(_) => forall|e: WebsocketEffect| !websocket_fields(v@, e),
        },
{
    let service = opt_text_field(&get_field(v, "service"), "service")?;
    let url = opt_text_field(&get_field(v, "url"), "url")?;
    let session = opt_text_field(&get_field(v, "session"), "session")?;
    let send = send_field(&get_field(v, "send"))?;
    let json = ws_expect_field(&get_field(v, "expect"))?;
    let timeout_ms = unsigned_field(
        &get_field(v, "timeout_ms"),
        "timeout_ms",
        default_websocket_timeout_ms(),
        u64::MAX,
    )?;
    let emits = websocket_emissions(&get_field(v, "emits"))?;
    Ok(
        WebsocketEffect {
            service,
            url,
            session,
            send,
            expect: WebsocketExpectations { json },
            timeout_ms,
            emits,
        },
    )
}

/// The type tag of an effect object.
pub open spec fn effect_tag(v: JsonV) -> Option<Seq<char>> {
    match field(v, "type"@) {
        Some(t) => text_of(t),
        None => None,
    }
}

/// An effect: its `type` names its kind, and its fields are those of that kind.
pub open spec fn decodes_effect(v: JsonV, e: Effect) -> bool {
    &&& effect_tag(v) == Some(effect_name(e))
    &&& match e {
        Effect::Emit { event_type, payload } => is_text(field(v, "event_type"@), event_type)
            && is_json(field(v, "payload"@), payload),
        Effect::Record { message } => is_text(field(v, "message"@), message),
        Effect::Assert(a) => is_text(field(v, "path"@), a.path) && is_json(field(v, "equals"@), a.equals),
        Effect::Rest(r) => rest_fields(v, r),
        Effect::Graphql(g) => graphql_fields(v, g),
        Effect::SnsPublish(x) => sns_fields(v, x),
        Effect::SqsSend(x) => sqs_send_fields(v, x),
        Effect::SqsReceive(x) => sqs_receive_fields(v, x),
        Effect::Websocket(w) => websocket_fields(v, w),
    }
}

pub open spec fn variant_index(e: Effect) -> int {
    match e {
        Effect::Emit { .. } => 0,
        Effect::Record { .. } => 1,
        Effect::Assert(_) => 2,
        Effect::Rest(_) => 3,
        Effect::Graphql(_) => 4,
        Effect::SnsPublish(_) => 5,
        Effect::SqsSend(_) => 6,
        Effect::SqsReceive(_) => 7,
        Effect::Websocket(_) => 8,
    }
}

/// Different kinds of effects have different names.
pub proof fn lemma_effect_name_injective(e1: Effect, e2: Effect)
    ensures
        effect_name(e1) == effect_name(e2) ==> variant_index(e1) == variant_index(e2),
{
    reveal_strlit("emit");
    reveal_strlit("record");
    reveal_strlit("assert");
    reveal_strlit("rest");
    reveal_strlit("graphql");
    reveal_strlit("sns_publish");
    reveal_strlit("sqs_send");
    reveal_strlit("sqs_receive");
    reveal_strlit("websocket");
    if effect_name(e1) == effect_name(e2) && variant_index(e1) != variant_index(e2) {
        let a = effect_name(e1);
        let b = effect_name(e2);
        assert(a.len() == b.len());
        assert(a[0] == b[0]);
        assert(a[1] == b[1]);
    }
}

/// Reads an effect.
pub fn decode_effect(v: &JsonValue) -> (r: Result<Effect, String>)
    ensures
        match r {
            Ok(e) => decodes_effect(v@, e),
            Err(_) => forall|e: Effect| !decodes_effect(v@, e),
        },
{
    let tag = text_field(&get_field(v, "type"), "type")?;
    let t = tag.as_str();
    let ghost tv = tag@;
    proof {
        assert(effect_tag(v@) == Some(tv));
    }
    if str_eq(t, "emit") {
        let r = match text_field(&get_field(v, "event_type"), "event_type") {
            Ok(event_type) => match json_field(&get_field(v, "payload"), "payload") {
                Ok(payload) => Ok(Effect::Emit { event_type, payload }),
                Err(m) => Err(m),
            },
            Err(m) => Err(m),
        };
        proof {
            assert forall|e: Effect| r is Err implies !decodes_effect(v@, e) by {
                lemma_effect_name_injective(e, Effect::Emit { event_type: tag, payload: JsonValue::Null });
            }
        }
        r
    } else if str_eq(t, "record") {
        let r = match text_field(&get_field(v, "message"), "message") {
            Ok(message) => Ok(Effect::Record { message }),
            Err(m) => Err(m),
        };
        proof {
            assert forall|e: Effect| r is Err implies !decodes_effect(v@, e) by {
                lemma_effect_name_injective(e, Effect::Record { message: tag });
            }
        }
        r
    } else if str_eq(t, "assert") {
        let r = match text_field(&get_field(v, "path"), "path") {
            Ok(path) => match json_field(&get_field(v, "equals"), "equals") {
                Ok(equals) => Ok(Effect::Assert(AssertEffect { path, equals })),
                Err(m) => Err(m),
            },
            Err(m) => Err(m),
        };
        proof {
            assert forall|e: Effect| r is Err implies !decodes_effect(v@, e) by {
                lemma_effect_name_injective(e, Effect::Assert(AssertEffect { path: tag, equals: JsonValue::Null }));
            }
        }
        r
    } else if str_eq(t, "rest") {
        let r = decode_rest(v);
        proof {
            assert forall|e: Effect| r is Err implies !decodes_effect(v@, e) by {
                if effect_name(e) == "rest"@ {
                    lemma_effect_name_injective(e, Effect::Rest(arbitrary()));
                }
            }
        }
        match r {
            Ok(x) => Ok(Effect::Rest(x)),
            Err(m) => Err(m),
        }
    } else if str_eq(t, "graphql") {
        let r = decode_graphql(v);
        proof {
            assert forall|e: Effect| r is Err implies !decodes_effect(v@, e) by {
                if effect_name(e) == "graphql"@ {
                    lemma_effect_name_injective(e, Effect::Graphql(arbitrary()));
                }
            }
        }
        match r {
            Ok(x) => Ok(Effect::Graphql(x)),
            Err(m) => Err(m),
        }
    } else if str_eq(t, "sns_publish") {
        let r = decode_sns(v);
        proof {
            assert forall|e: Effect| r is Err implies !decodes_effect(v@, e) by {
                if effect_name(e) == "sns_publish"@ {
                    lemma_effect_name_injective(e, Effect::SnsPublish(arbitrary()));
                }
            }
        }
        match r {
            Ok(x) => Ok(Effect::SnsPublish(x)),
            Err(m) => Err(m),
        }
    } else if str_eq(t, "sqs_send") {
        let r = decode_sqs_send(v);
        proof {
            assert forall|e: Effect| r is Err implies !decodes_effect(v@, e) by {
                if effect_name(e) == "sqs_send"@ {
                    lemma_effect_name_injective(e, Effect::SqsSend(arbitrary()));
                }
            }
        }
        match r {
            Ok(x) => Ok(Effect::SqsSend(x)),
            Err(m) => Err(m),
        }
    } else if str_eq(t, "sqs_receive") {
        let r = decode_sqs_receive(v);
        proof {
            assert forall|e: Effect| r is Err implies !decodes_effect(v@, e) by {
                if effect_name(e) == "sqs_receive"@ {
                    lemma_effect_name_injective(e, Effect::SqsReceive(arbitrary()));
                }
            }
        }
        match r {
            Ok(x) => Ok(Effect::SqsReceive(x)),
            Err(m) => Err(m),
        }
    } else if str_eq(t, "websocket") {
        let r = decode_websocket(v);
        proof {
            assert forall|e: Effect| r is Err implies !decodes_effect(v@, e) by {
                if effect_name(e) == "websocket"@ {
                    lemma_effect_name_injective(e, Effect::Websocket(arbitrary()));
                }
            }
        }
        match r {
            Ok(x) => Ok(Effect::Websocket(x)),
            Err(m) => Err(m),
        }
    } else {
        let mut m: Vec<char> = Vec::new();
        push_str(&mut m, "unknown effect type `");
        push_string(&mut m, &tag);
        push_str(&mut m, "`");
        Err(string_of(&m))
    }
}

/// A handler: `{ on: <event type>, effects: [ ... ] }`.
pub open spec fn decodes_handler(v: JsonV, h: Handler) -> bool {
    &&& is_text(field(v, "on"@), h.on)
    &&& array_items(field(v, "effects"@)) matches Some(items) && items.len() == h.effects@.len()
        && forall|i: int| 0 <= i < items.len() ==> decodes_effect(#[trigger] items[i], h.effects@[i])
}

fn decode_handler(v: &JsonValue) -> (r: Result<Handler, String>)
    ensures
        match r {
            Ok(h) => decodes_handler(v@, h),
            Err(_) => forall|h: Handler| !decodes_handler(v@, h),
        },
{
    let on = text_field(&get_field(v, "on"), "on")?;
    let f = get_field(v, "effects");
    let items = items_field(&f, "effects")?;
    let ghost iv = items_view(items@);
    let mut effects: Vec<Effect> = Vec::new();
    let mut i: usize = 0;
    while i < items.len()
        invariant
            i <= items@.len(),
            iv == items_view(items@),
            array_items(oview(f)) == Some(iv),
            oview(f) == field(v@, "effects"@),
            effects@.len() == i,
            forall|j: int| 0 <= j < i ==> decodes_effect(#[trigger] iv[j], effects@[j]),
        decreases items.len() - i,
    {
        match decode_effect(&items[i]) {
            Ok(e) => {
                effects.push(e);
            },
            Err(m) => {
                proof {
                    assert forall|h: Handler| !decodes_handler(v@, h) by {
                        assert(iv[i as int] == items@[i as int]@);
                        if decodes_handler(v@, h) {
                            assert(decodes_effect(iv[i as int], h.effects@[i as int]));
                        }
                    }
                }
                return Err(m);
            },
        }
        i = i + 1;
    }
    Ok(Handler { on, effects })
}

/// The id that a seed event without one gets: `seed-<n>`, counting from one.
pub open spec fn seed_id(i: nat) -> Seq<char> {
    "seed-"@ + decimal(i + 1)
}

pub open spec fn seed_keys() -> Seq<Seq<char>> {
    seq!["id"@, "type"@, "payload"@]
}

/// The `i`th seed event: `{ id?, type, payload? }` and nothing else; no cause, sequence
/// and depth zero.
pub open spec fn decodes_seed(v: JsonV, e: Event, i: nat) -> bool {
    &&& keys_allowed(v, seed_keys())
    &&& match field(v, "id"@) {
        None => e.id@ == seed_id(i),
        Some(JsonV::Null) => e.id@ == seed_id(i),
        Some(x) => text_of(x) == Some(e.id@),
    }
    &&& is_text(field(v, "type"@), e.event_type)
    &&& is_json_or_null(field(v, "payload"@), e.payload)
    &&& e.caused_by is None
    &&& e.sequence == 0
    &&& e.depth == 0
}

fn decode_seed(v: &JsonValue, i: usize) -> (r: Result<Event, String>)
    requires
        i < usize::MAX,
    ensures
        match r {
            Ok(e) => decodes_seed(v@, e, i as nat),
            Err(_) => forall|e: Event| !decodes_seed(v@, e, i as nat),
        },
{
    let allowed = vec!["id", "type", "payload"];
    assert(allowed@.map_values(|a: &str| a@) =~= seed_keys());
    check_keys(v, &allowed)?;
    let id = match opt_text_field(&get_field(v, "id"), "id")? {
        Some(id) => id,
        None => {
            let mut m: Vec<char> = Vec::new();
            push_str(&mut m, "seed-");
            push_decimal(&mut m, (i as u64) + 1);
            string_of(&m)
        },
    };
    let event_type = text_field(&get_field(v, "type"), "type")?;
    let payload = json_or_null_field(&get_field(v, "payload"));
    Ok(Event::seed(id.as_str(), event_type.as_str(), payload))
}

pub open spec fn workflow_keys() -> Seq<Seq<char>> {
    seq!["version"@, "name"@, "seed_events"@, "handlers"@]
}

/// A workflow document: `{ version?, name, seed_events?, handlers? }` and nothing else;
/// the current version where none is given.
pub open spec fn decodes_workflow(v: JsonV, w: Workflow) -> bool {
    &&& keys_allowed(v, workflow_keys())
    &&& match field(v, "version"@) {
        None => w.version@ == CURRENT_WORKFLOW_VERSION@,
        Some(x) => text_of(x) == Some(w.version@),
    }
    &&& is_text(field(v, "name"@), w.name)
    &&& array_items(field(v, "seed_events"@)) matches Some(items) && items.len()
        == w.seed_events@.len() && forall|i: int|
        0 <= i < items.len() ==> decodes_seed(#[trigger] items[i], w.seed_events@[i], i as nat)
    &&& array_items(field(v, "handlers"@)) matches Some(items) && items.len() == w.handlers@.len()
        && forall|i: int| 0 <= i < items.len() ==> decodes_handler(#[trigger] items[i], w.handlers@[i])
}

/// Reads a workflow document.
pub fn decode_workflow(v: &JsonValue) -> (r: Result<Workflow, String>)
    ensures
        match r {
            Ok(w) => decodes_workflow(v@, w),
            Err(_) => forall|w: Workflow| !decodes_workflow(v@, w),
        },
{
    let allowed = vec!["version", "name", "seed_events", "handlers"];
    assert(allowed@.map_values(|a: &str| a@) =~= workflow_keys());
    check_keys(v, &allowed)?;
    let version = match get_field(v, "version") {
        None => crate::domain::workflow::default_workflow_version(),
        Some(x) => match read_text(&x) {
            Some(t) => t,
            None => {
                return Err(String::from_str("invalid type: expected a string for field `version`"));
            },
        },
    };
    let name = text_field(&get_field(v, "name"), "name")?;
    let sf = get_field(v, "seed_events");
    let seed_items = items_field(&sf, "seed_events")?;
    let ghost sv = items_view(seed_items@);
    let mut seed_events: Vec<Event> = Vec::new();
    let mut i: usize = 0;
    while i < seed_items.len()
        invariant
            i <= seed_items@.len(),
            sv == items_view(seed_items@),
            array_items(oview(sf)) == Some(sv),
            oview(sf) == field(v@, "seed_events"@),
            seed_events@.len() == i,
            forall|j: int| 0 <= j < i ==> decodes_seed(#[trigger] sv[j], seed_events@[j], j as nat),
        decreases seed_items.len() - i,
    {
        match decode_seed(&seed_items[i], i) {
            Ok(e) => {
                seed_events.push(e);
            },
            Err(m) => {
                proof {
                    assert forall|w: Workflow| !decodes_workflow(v@, w) by {
                        assert(sv[i as int] == seed_items@[i as int]@);
                        if decodes_workflow(v@, w) {
                            assert(decodes_seed(sv[i as int], w.seed_events@[i as int], i as nat));
                        }
                    }
                }
                return Err(m);
            },
        }
        i = i + 1;
    }
    let hf = get_field(v, "handlers");
    let handler_items = items_field(&hf, "handlers")?;
    let ghost hv = items_view(handler_items@);
    let mut handlers: Vec<Handler> = Vec::new();
    let mut h: usize = 0;
    while h < handler_items.len()
        invariant
            h <= handler_items@.len(),
            hv == items_view(handler_items@),
            array_items(oview(hf)) == Some(hv),
            oview(hf) == field(v@, "handlers"@),
            handlers@.len() == h,
            forall|j: int| 0 <= j < h ==> decodes_handler(#[trigger] hv[j], handlers@[j]),
        decreases handler_items.len() - h,
    {
        match decode_handler(&handler_items[h]) {
            Ok(x) => {
                handlers.push(x);
            },
            Err(m) => {
                proof {
                    assert forall|w: Workflow| !decodes_workflow(v@, w) by {
                        assert(hv[h as int] == handler_items@[h as int]@);
                        if decodes_workflow(v@, w) {
                            assert(decodes_handler(hv[h as int], w.handlers@[h as int]));
                        }
                    }
                }
                return Err(m);
            },
        }
        h = h + 1;
    }
    Ok(Workflow { version, name, seed_events, handlers })
}

pub open spec fn environment_keys() -> Seq<Seq<char>> {
    seq!["name"@, "services"@, "values"@, "secret_refs"@]
}

/// An environment document: `{ name?, services?, values?, secret_refs? }` and nothing else.
pub open spec fn decodes_environment(v: JsonV, env: RuntimeEnvironment) -> bool {
    &&& keys_allowed(v, environment_keys())
    &&& is_opt_text(field(v, "name"@), env.name)
    &&& is_binding_map(field(v, "services"@), env.services)
    &&& is_text_map(field(v, "values"@), env.values)
    &&& is_text_map(field(v, "secret_refs"@), env.secret_refs)
}

/// Reads an environment document.
pub fn decode_environment(v: &JsonValue) -> (r: Result<RuntimeEnvironment, String>)
    ensures
        match r {
            Ok(env) => decodes_environment(v@, env),
            Err(_) => forall|env: RuntimeEnvironment| !decodes_environment(v@, env),
        },
{
    let allowed = vec!["name", "services", "values", "secret_refs"];
    assert(allowed@.map_values(|a: &str| a@) =~= environment_keys());
    check_keys(v, &allowed)?;
    let name = opt_text_field(&get_field(v, "name"), "name")?;
    let services = binding_map_field(&get_field(v, "services"), "services")?;
    let values = text_map_field(&get_field(v, "values"), "values")?;
    let secret_refs = text_map_field(&get_field(v, "secret_refs"), "secret_refs")?;
    Ok(RuntimeEnvironment { name, services, values, secret_refs })
}

} // verus!

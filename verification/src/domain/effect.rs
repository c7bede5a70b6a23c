use vstd::prelude::*;

use crate::json::JsonValue;
use crate::map::StrMap;

verus! {

/// An explicit action that a handler takes for an event.
#[derive(Debug, Clone)]
pub enum Effect {
    Emit { event_type: String, payload: JsonValue },
    Record { message: String },
    Assert(AssertEffect),
    Rest(RestEffect),
    Graphql(GraphqlEffect),
    SnsPublish(SnsPublishEffect),
    SqsSend(SqsSendEffect),
    SqsReceive(SqsReceiveEffect),
    Websocket(WebsocketEffect),
}

/// The name of an effect's kind, as the workflow format writes it.
pub open spec fn effect_name(e: Effect) -> Seq<char> {
    match e {
        Effect::Emit { .. } => "emit"@,
        Effect::Record { .. } => "record"@,
        Effect::Assert(_) => "assert"@,
        Effect::Rest(_) => "rest"@,
        Effect::Graphql(_) => "graphql"@,
        Effect::SnsPublish(_) => "sns_publish"@,
        Effect::SqsSend(_) => "sqs_send"@,
        Effect::SqsReceive(_) => "sqs_receive"@,
        Effect::Websocket(_) => "websocket"@,
    }
}

impl Effect {
    /// The name of this effect's kind.
    pub fn name(&self) -> (r: &'static str)
        ensures
            r@ == effect_name(*self),
    {
        match self {
            Effect::Emit { .. } => "emit",
            Effect::Record { .. } => "record",
            Effect::Assert(_) => "assert",
            Effect::Rest(_) => "rest",
            Effect::Graphql(_) => "graphql",
            Effect::SnsPublish(_) => "sns_publish",
            Effect::SqsSend(_) => "sqs_send",
            Effect::SqsReceive(_) => "sqs_receive",
            Effect::Websocket(_) => "websocket",
        }
    }
}

/// Checks that a payload path holds a value.
#[derive(Debug, Clone)]
pub struct AssertEffect {
    pub path: String,
    pub equals: JsonValue,
}

/// A REST call against a named service or a base URL.
#[derive(Debug, Clone)]
pub struct RestEffect {
    pub service: Option<String>,
    pub base_url: Option<String>,
    pub operation: Option<String>,
    pub method: RestMethod,
    pub path: String,
    pub query: StrMap<String>,
    pub headers: StrMap<String>,
    pub json_body: Option<JsonValue>,
    pub expect: RestExpectations,
    pub emits: Vec<RestEventEmission>,
}

#[derive(Debug, Clone, Copy, PartialEq, Eq, Structural)]
pub enum RestMethod {
    Get,
    Post,
    Put,
    Patch,
    Delete,
}

pub open spec fn method_text(m: RestMethod) -> Seq<char> {
    match m {
        RestMethod::Get => "GET"@,
        RestMethod::Post => "POST"@,
        RestMethod::Put => "PUT"@,
        RestMethod::Patch => "PATCH"@,
        RestMethod::Delete => "DELETE"@,
    }
}

impl RestMethod {
    /// The HTTP method token.
    pub fn as_str(&self) -> (r: &'static str)
        ensures
            r@ == method_text(*self),
    {
        match self {
            RestMethod::Get => "GET",
            RestMethod::Post => "POST",
            RestMethod::Put => "PUT",
            RestMethod::Patch => "PATCH",
            RestMethod::Delete => "DELETE",
        }
    }
}

#[derive(Debug, Clone, Copy)]
pub struct RestExpectations {
    pub status: Option<u16>,
}

/// An event to emit from a REST response; each payload field is selected by JSONPath.
#[derive(Debug, Clone)]
pub struct RestEventEmission {
    pub event_type: String,
    pub payload: StrMap<JsonPathSelector>,
}

/// A GraphQL operation against a named service or a base URL.
#[derive(Debug, Clone)]
pub struct GraphqlEffect {
    pub service: Option<String>,
    pub base_url: Option<String>,
    pub operation_name: Option<String>,
    pub query: String,
    pub variables: JsonValue,
    pub expect: GraphqlExpectations,
    pub emits: Vec<GraphqlEventEmission>,
}

#[derive(Debug, Clone, Copy)]
pub struct GraphqlExpectations {
    pub status: Option<u16>,
}

#[derive(Debug, Clone)]
pub struct GraphqlEventEmission {
    pub event_type: String,
    pub payload: StrMap<JsonPathSelector>,
}

/// An RFC 9535 JSONPath query that selects a value.
#[derive(Debug, Clone)]
pub struct JsonPathSelector {
    pub from: String,
}

#[derive(Debug, Clone)]
pub struct SnsPublishEffect {
    pub service: Option<String>,
    pub endpoint_url: Option<String>,
    pub topic_arn: String,
    pub message: JsonValue,
    pub emits: Vec<SnsEventEmission>,
}

#[derive(Debug, Clone)]
pub struct SnsEventEmission {
    pub event_type: String,
    pub payload: StrMap<JsonPathSelector>,
}

#[derive(Debug, Clone)]
pub struct SqsSendEffect {
    pub service: Option<String>,
    pub endpoint_url: Option<String>,
    pub queue_url: String,
    pub message: JsonValue,
    pub emits: Vec<SqsEventEmission>,
}

#[derive(Debug, Clone)]
pub struct SqsReceiveEffect {
    pub service: Option<String>,
    pub endpoint_url: Option<String>,
    pub queue_url: String,
    pub max_messages: u8,
    pub wait_time_seconds: u8,
    pub delete_on_success: bool,
    pub emits: Vec<SqsEventEmission>,
}

#[derive(Debug, Clone)]
pub struct SqsEventEmission {
    pub event_type: String,
    pub payload: StrMap<JsonPathSelector>,
}

/// How many messages an SQS receive asks for when the workflow names no number.
pub fn default_sqs_max_messages() -> (r: u8)
    ensures
        r == 1,
{
    1
}

#[derive(Debug, Clone)]
pub struct WebsocketEffect {
    pub service: Option<String>,
    pub url: Option<String>,
    pub session: Option<String>,
    pub send: WebsocketSend,
    pub expect: WebsocketExpectations,
    pub timeout_ms: u64,
    pub emits: Vec<WebsocketEventEmission>,
}

#[derive(Debug, Clone)]
pub enum WebsocketSend {
    Json(JsonValue),
    Text(String),
}

#[derive(Debug, Clone)]
pub struct WebsocketExpectations {
    pub json: StrMap<JsonValue>,
}

#[derive(Debug, Clone)]
pub struct WebsocketEventEmission {
    pub event_type: String,
    pub payload: StrMap<JsonPathSelector>,
}

/// How long a WebSocket effect waits for a message when the workflow names no timeout.
pub fn default_websocket_timeout_ms() -> (r: u64)
    ensures
        r == 5000,
{
    5_000
}

} // verus!

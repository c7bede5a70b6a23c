use vstd::prelude::*;

use super::event::Event;
use crate::json::JsonValue;
use crate::map::StrMap;

verus! {

/// What an effect's execution yielded.
#[derive(Debug)]
pub enum Observation {
    EmittedEvents { events: Vec<Event> },
    RecordedMessage { message: String },
    AssertionPassed { path: String },
    AssertionFailed { path: String, expected: JsonValue, actual: Option<JsonValue> },
    RestResponse {
        operation: RestOperationObservation,
        response: RestResponseObservation,
        assertions: Vec<RestAssertionObservation>,
        emitted_events: Vec<Event>,
    },
    RestFailed { operation: RestOperationObservation, message: String, status: Option<u16> },
    GraphqlResponse {
        operation: GraphqlOperationObservation,
        response: GraphqlResponseObservation,
        assertions: Vec<GraphqlAssertionObservation>,
        emitted_events: Vec<Event>,
    },
    GraphqlFailed {
        operation: GraphqlOperationObservation,
        message: String,
        status: Option<u16>,
    },
    SnsPublish {
        operation: AwsOperationObservation,
        message_id: String,
        emitted_events: Vec<Event>,
    },
    SqsSend { operation: AwsOperationObservation, message_id: String, emitted_events: Vec<Event> },
    SqsReceive {
        operation: AwsOperationObservation,
        messages: Vec<SqsMessageObservation>,
        deleted_receipt_handles: Vec<String>,
        emitted_events: Vec<Event>,
    },
    AwsFailed { operation: AwsOperationObservation, message: String },
    WebsocketMessage {
        operation: WebsocketOperationObservation,
        sent: WebsocketSentObservation,
        received: WebsocketReceivedObservation,
        assertions: Vec<WebsocketAssertionObservation>,
        emitted_events: Vec<Event>,
    },
    WebsocketFailed { operation: WebsocketOperationObservation, message: String },
}

#[derive(Debug, Clone)]
pub struct RestOperationObservation {
    pub service: Option<String>,
    pub method: String,
    pub url: String,
}

#[derive(Debug, Clone)]
pub struct RestResponseObservation {
    pub status: u16,
    pub headers: StrMap<String>,
    pub body: RestBody,
}

#[derive(Debug, Clone)]
pub enum RestBody {
    Json { value: JsonValue },
    Text { value: String },
    Empty,
}

#[derive(Debug, Clone, Copy, PartialEq, Eq, Structural)]
pub enum RestAssertionObservation {
    StatusPassed { expected: u16, actual: u16 },
    StatusFailed { expected: u16, actual: u16 },
}

#[derive(Debug, Clone)]
pub struct GraphqlOperationObservation {
    pub service: Option<String>,
    pub operation_name: Option<String>,
    pub url: String,
}

#[derive(Debug, Clone)]
pub struct GraphqlResponseObservation {
    pub status: u16,
    pub headers: StrMap<String>,
    pub data: Option<JsonValue>,
    pub errors: Vec<JsonValue>,
    pub extensions: Option<JsonValue>,
}

#[derive(Debug, Clone)]
pub enum GraphqlAssertionObservation {
    StatusPassed { expected: u16, actual: u16 },
    StatusFailed { expected: u16, actual: u16 },
    NoErrorsPassed,
    NoErrorsFailed { errors: Vec<JsonValue> },
}

#[derive(Debug, Clone)]
pub struct AwsOperationObservation {
    pub service: Option<String>,
    pub action: String,
    pub url: String,
}

#[derive(Debug, Clone)]
pub struct SqsMessageObservation {
    pub message_id: String,
    pub receipt_handle: String,
    pub body: JsonValue,
    pub body_message_json: Option<JsonValue>,
    pub attributes: StrMap<String>,
}

#[derive(Debug, Clone)]
pub struct WebsocketOperationObservation {
    pub service: Option<String>,
    pub session: Option<String>,
    pub url: String,
}

#[derive(Debug, Clone)]
pub enum WebsocketSentObservation {
    Json { value: JsonValue },
    Text { value: String },
}

#[derive(Debug, Clone)]
pub enum WebsocketReceivedObservation {
    Json { value: JsonValue },
    Text { value: String },
}

#[derive(Debug, Clone)]
pub enum WebsocketAssertionObservation {
    JsonFieldPassed { path: String },
    JsonFieldFailed { path: String, expected: JsonValue, actual: Option<JsonValue> },
}

} // verus!

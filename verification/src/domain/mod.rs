pub mod effect;
pub mod environment;
pub mod event;
pub mod observation;
pub mod plan;
pub mod trace;
pub mod workflow;

pub use effect::{
    AssertEffect, Effect, GraphqlEffect, GraphqlEventEmission, GraphqlExpectations,
    JsonPathSelector, RestEffect, RestEventEmission, RestExpectations, RestMethod,
    SnsEventEmission, SnsPublishEffect, SqsEventEmission, SqsReceiveEffect, SqsSendEffect,
    WebsocketEffect, WebsocketEventEmission, WebsocketExpectations, WebsocketSend,
};
pub use environment::{RuntimeEnvironment, ServiceBinding};
pub use event::{Event, EventCause};
pub use observation::{
    AwsOperationObservation, GraphqlAssertionObservation, GraphqlOperationObservation,
    GraphqlResponseObservation, Observation, RestAssertionObservation, RestBody,
    RestOperationObservation, RestResponseObservation, SqsMessageObservation,
    WebsocketAssertionObservation, WebsocketOperationObservation, WebsocketReceivedObservation,
    WebsocketSentObservation,
};
pub use plan::{plan_workflow, Capability, CapabilityRisk, PlannedEffect, RunPlan};
pub use trace::{RunReport, RunStatus, TraceEntry, TraceEntryKind, TraceFailure};
pub use workflow::{default_workflow_version, Handler, Workflow, CURRENT_WORKFLOW_VERSION};

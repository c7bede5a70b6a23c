pub mod artifacts;
pub mod domain;
pub mod engine;
pub mod json;
pub mod jsonpath;
pub mod listing;
pub mod paths;
pub mod loader;
pub mod map;
pub mod report;
pub mod text;

pub use artifacts::{
    artifact_name, environment_summary, is_yaml_path, summarize_environment, summarize_workflow,
    validate_workflow_source, workflow_summary, workflow_validation, EnvironmentSummary,
    WorkflowSummary, WorkflowValidation,
};
pub use domain::{
    default_workflow_version, plan_workflow, AssertEffect, AwsOperationObservation, Capability,
    CapabilityRisk, Effect, Event, EventCause, GraphqlAssertionObservation, GraphqlEffect,
    GraphqlEventEmission, GraphqlExpectations, GraphqlOperationObservation,
    GraphqlResponseObservation, Handler, JsonPathSelector, Observation, PlannedEffect,
    RestAssertionObservation, RestBody, RestEffect, RestEventEmission, RestExpectations,
    RestMethod, RestOperationObservation, RestResponseObservation, RunPlan, RunReport, RunStatus,
    RuntimeEnvironment, ServiceBinding, SnsEventEmission, SnsPublishEffect, SqsEventEmission,
    SqsMessageObservation, SqsReceiveEffect, SqsSendEffect, TraceEntry, TraceEntryKind,
    TraceFailure, WebsocketAssertionObservation, WebsocketEffect, WebsocketEventEmission,
    WebsocketExpectations, WebsocketOperationObservation, WebsocketReceivedObservation,
    WebsocketSend, WebsocketSentObservation, Workflow, CURRENT_WORKFLOW_VERSION,
};
pub use engine::{
    EngineError, ExecutionLimits, ExecutionPolicy, HttpReply, HttpRequest, RunProgress, Runner,
};
pub use json::JsonValue;
pub use listing::{
    is_trace_file_name, is_valid_run_id, list_in_order, newest_runs, run_summary, Listed,
    RunSummary, RUN_HISTORY_LIMIT,
};
pub use loader::{
    load_environment_yaml, load_workflow_yaml, validate_environment, validate_workflow,
    validate_workflow_environment, LoadError, ParseError,
};
pub use map::StrMap;

use vstd::prelude::*;

use crate::text::{decimal, push_decimal, push_str, push_string, string_of};

verus! {

/// Why the engine could not carry an effect through.
#[derive(Debug, Clone)]
pub enum EngineError {
    MaxEventCountExceeded { limit: usize },
    MaxStepCountExceeded { limit: usize },
    MaxDepthExceeded { limit: u32 },
    CapabilityDenied { capability: String },
    MissingRestServiceBinding { service: String },
    MissingRestBaseUrl,
    UnsupportedRestBaseUrl { base_url: String },
    RestRequestBuild { operation: String, message: String },
    RestRequestFailed { operation: String, message: String },
    RestEmissionPathMissing { event_type: String, path: String },
    RestEmissionPathInvalid { event_type: String, path: String, message: String },
    MissingGraphqlServiceBinding { service: String },
    MissingGraphqlBaseUrl,
    UnsupportedGraphqlBaseUrl { base_url: String },
    GraphqlRequestBuild { operation: String, message: String },
    GraphqlRequestFailed { operation: String, message: String },
    GraphqlEmissionPathMissing { event_type: String, path: String },
    GraphqlEmissionPathInvalid { event_type: String, path: String, message: String },
}

/// The text of an engine error.
pub open spec fn engine_error_text(e: EngineError) -> Seq<char> {
    match e {
        EngineError::MaxEventCountExceeded { limit } => "max event count exceeded: limit is "@
            + decimal(limit as nat),
        EngineError::MaxStepCountExceeded { limit } => "max step count exceeded: limit is "@
            + decimal(limit as nat),
        EngineError::MaxDepthExceeded { limit } => "max event depth exceeded: limit is "@
            + decimal(limit as nat),
        EngineError::CapabilityDenied { capability } => "execution policy denies write capability "@
            + capability@ + "; approve it to run this workflow"@,
        EngineError::MissingRestServiceBinding { service } => "missing REST service binding for '"@
            + service@ + "'"@,
        EngineError::MissingRestBaseUrl => "REST effect requires service or base_url"@,
        EngineError::UnsupportedRestBaseUrl { base_url } => "unsupported REST base URL '"@
            + base_url@ + "': only http:// URLs are supported in this phase"@,
        EngineError::RestRequestBuild { operation, message } => "failed to build REST request for "@
            + operation@ + ": "@ + message@,
        EngineError::RestRequestFailed { operation, message } =>
            "failed to execute REST operation "@ + operation@ + ": "@ + message@,
        EngineError::RestEmissionPathMissing { event_type, path } =>
            "failed to emit REST event "@ + event_type@ + ": JSONPath '"@ + path@
                + "' did not match"@,
        EngineError::RestEmissionPathInvalid { event_type, path, message } =>
            "failed to emit REST event "@ + event_type@ + ": JSONPath '"@ + path@
                + "' is invalid: "@ + message@,
        EngineError::MissingGraphqlServiceBinding { service } =>
            "missing GraphQL service binding for '"@ + service@ + "'"@,
        EngineError::MissingGraphqlBaseUrl => "GraphQL effect requires service or base_url"@,
        EngineError::UnsupportedGraphqlBaseUrl { base_url } => "unsupported GraphQL base URL '"@
            + base_url@ + "': only http:// URLs are supported in this phase"@,
        EngineError::GraphqlRequestBuild { operation, message } =>
            "failed to build GraphQL request for "@ + operation@ + ": "@ + message@,
        EngineError::GraphqlRequestFailed { operation, message } =>
            "failed to execute GraphQL operation "@ + operation@ + ": "@ + message@,
        EngineError::GraphqlEmissionPathMissing { event_type, path } =>
            "failed to emit GraphQL event "@ + event_type@ + ": JSONPath '"@ + path@
                + "' did not match"@,
        EngineError::GraphqlEmissionPathInvalid { event_type, path, message } =>
            "failed to emit GraphQL event "@ + event_type@ + ": JSONPath '"@ + path@
                + "' is invalid: "@ + message@,
    }
}

impl EngineError {
    /// The text of this error.
    pub fn message(&self) -> (r: String)
        ensures
            r@ == engine_error_text(*self),
    {
        let mut out: Vec<char> = Vec::new();
        match self {
            EngineError::MaxEventCountExceeded { limit } => {
                push_str(&mut out, "max event count exceeded: limit is ");
                push_decimal(&mut out, *limit as u64);
            },
            EngineError::MaxStepCountExceeded { limit } => {
                push_str(&mut out, "max step count exceeded: limit is ");
                push_decimal(&mut out, *limit as u64);
            },
            EngineError::MaxDepthExceeded { limit } => {
                push_str(&mut out, "max event depth exceeded: limit is ");
                push_decimal(&mut out, *limit as u64);
            },
            EngineError::CapabilityDenied { capability } => {
                push_str(&mut out, "execution policy denies write capability ");
                push_string(&mut out, capability);
                push_str(&mut out, "; approve it to run this workflow");
            },
            EngineError::MissingRestServiceBinding { service } => {
                push_str(&mut out, "missing REST service binding for '");
                push_string(&mut out, service);
                push_str(&mut out, "'");
            },
            EngineError::MissingRestBaseUrl => {
                push_str(&mut out, "REST effect requires service or base_url");
            },
            EngineError::UnsupportedRestBaseUrl { base_url } => {
                push_str(&mut out, "unsupported REST base URL '");
                push_string(&mut out, base_url);
                push_str(&mut out, "': only http:// URLs are supported in this phase");
            },
            EngineError::RestRequestBuild { operation, message } => {
                push_str(&mut out, "failed to build REST request for ");
                push_string(&mut out, operation);
                push_str(&mut out, ": ");
                push_string(&mut out, message);
            },
            EngineError::RestRequestFailed { operation, message } => {
                push_str(&mut out, "failed to execute REST operation ");
                push_string(&mut out, operation);
                push_str(&mut out, ": ");
                push_string(&mut out, message);
            },
            EngineError::RestEmissionPathMissing { event_type, path } => {
                push_str(&mut out, "failed to emit REST event ");
                push_string(&mut out, event_type);
                push_str(&mut out, ": JSONPath '");
                push_string(&mut out, path);
                push_str(&mut out, "' did not match");
            },
            EngineError::RestEmissionPathInvalid { event_type, path, message } => {
                push_str(&mut out, "failed to emit REST event ");
                push_string(&mut out, event_type);
                push_str(&mut out, ": JSONPath '");
                push_string(&mut out, path);
                push_str(&mut out, "' is invalid: ");
                push_string(&mut out, message);
            },
            EngineError::MissingGraphqlServiceBinding { service } => {
                push_str(&mut out, "missing GraphQL service binding for '");
                push_string(&mut out, service);
                push_str(&mut out, "'");
            },
            EngineError::MissingGraphqlBaseUrl => {
                push_str(&mut out, "GraphQL effect requires service or base_url");
            },
            EngineError::UnsupportedGraphqlBaseUrl { base_url } => {
                push_str(&mut out, "unsupported GraphQL base URL '");
                push_string(&mut out, base_url);
                push_str(&mut out, "': only http:// URLs are supported in this phase");
            },
            EngineError::GraphqlRequestBuild { operation, message } => {
                push_str(&mut out, "failed to build GraphQL request for ");
                push_string(&mut out, operation);
                push_str(&mut out, ": ");
                push_string(&mut out, message);
            },
            EngineError::GraphqlRequestFailed { operation, message } => {
                push_str(&mut out, "failed to execute GraphQL operation ");
                push_string(&mut out, operation);
                push_str(&mut out, ": ");
                push_string(&mut out, message);
            },
            EngineError::GraphqlEmissionPathMissing { event_type, path } => {
                push_str(&mut out, "failed to emit GraphQL event ");
                push_string(&mut out, event_type);
                push_str(&mut out, ": JSONPath '");
                push_string(&mut out, path);
                push_str(&mut out, "' did not match");
            },
            EngineError::GraphqlEmissionPathInvalid { event_type, path, message } => {
                push_str(&mut out, "failed to emit GraphQL event ");
                push_string(&mut out, event_type);
                push_str(&mut out, ": JSONPath '");
                push_string(&mut out, path);
                push_str(&mut out, "' is invalid: ");
                push_string(&mut out, message);
            },
        }
        proof {
            assert(out@ =~= engine_error_text(*self));
        }
        string_of(&out)
    }
}

} // verus!

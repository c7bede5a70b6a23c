pub mod aws;
pub mod error;
pub mod http;
pub mod run_id;
pub mod run_state;
pub mod redact;
pub mod refusal;
pub mod runner;
pub mod shape;
pub mod template;
pub mod websocket;
pub mod laws;

pub use error::EngineError;
pub use http::HttpRequest;
pub use runner::{EffectStep, ExecutionLimits, ExecutionPolicy, HttpReply, RunProgress, Runner};
pub use run_id::new_run_id;

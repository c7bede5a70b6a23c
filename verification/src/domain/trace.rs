use vstd::prelude::*;

use super::effect::Effect;
use super::event::Event;
use super::observation::Observation;

verus! {

/// The outcome of a run: its causal trace and, where it failed, why.
#[derive(Debug)]
pub struct RunReport {
    pub run_id: String,
    pub workflow_name: String,
    pub status: RunStatus,
    pub trace: Vec<TraceEntry>,
    pub failure: Option<TraceFailure>,
}

#[derive(Debug, Clone, Copy, PartialEq, Eq, Structural)]
pub enum RunStatus {
    Succeeded,
    Failed,
}

/// One record of the run trace, with a stable id and its place in the run.
#[derive(Debug)]
pub struct TraceEntry {
    pub id: String,
    pub sequence: u64,
    pub kind: TraceEntryKind,
}

#[derive(Debug)]
pub enum TraceEntryKind {
    RunStarted { run_id: String, workflow_name: String },
    EventSeeded { event: Event },
    EventDequeued { event: Event },
    HandlerMatched { event_id: String, handler_index: usize, on: String },
    EffectExecuted {
        event_id: String,
        handler_index: usize,
        effect_index: usize,
        effect: Effect,
        observation: Observation,
    },
    HandlerSkipped { event_id: String, on: String },
    RunEnded { status: RunStatus },
}

/// Why a run failed, and the trace entry at which it did.
#[derive(Debug, Clone)]
pub struct TraceFailure {
    pub trace_entry_id: Option<String>,
    pub message: String,
}

} // verus!

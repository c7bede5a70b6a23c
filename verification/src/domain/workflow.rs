use vstd::prelude::*;

use super::effect::Effect;
use super::event::Event;

verus! {

/// The workflow format version that this engine reads.
pub const CURRENT_WORKFLOW_VERSION: &'static str = "devknife.workflow/v1alpha1";

/// An event-native workflow: seed events and the handlers that react to events.
#[derive(Debug, Clone)]
pub struct Workflow {
    pub version: String,
    pub name: String,
    pub seed_events: Vec<Event>,
    pub handlers: Vec<Handler>,
}

/// Effects to run, in order, for each event of type `on`.
#[derive(Debug, Clone)]
pub struct Handler {
    pub on: String,
    pub effects: Vec<Effect>,
}

/// The version a workflow has when its document names none.
pub fn default_workflow_version() -> (r: String)
    ensures
        r@ == CURRENT_WORKFLOW_VERSION@,
{
    CURRENT_WORKFLOW_VERSION.to_owned()
}

} // verus!

use vstd::prelude::*;

use crate::json::JsonValue;

verus! {

/// A typed event envelope with a flexible payload.
#[derive(Debug)]
pub struct Event {
    pub id: String,
    pub event_type: String,
    pub payload: JsonValue,
    pub caused_by: Option<EventCause>,
    pub sequence: u64,
    pub depth: u32,
}

/// The event and the trace entry of the effect that emitted an event.
#[derive(Debug)]
pub struct EventCause {
    pub event_id: String,
    pub trace_entry_id: String,
}

/// An event as plain values.
pub struct EventV {
    pub id: Seq<char>,
    pub event_type: Seq<char>,
    pub payload: crate::json::JsonV,
    pub caused_by: Option<(Seq<char>, Seq<char>)>,
    pub sequence: u64,
    pub depth: u32,
}

impl View for Event {
    type V = EventV;

    open spec fn view(&self) -> EventV {
        EventV {
            id: self.id@,
            event_type: self.event_type@,
            payload: self.payload@,
            caused_by: match self.caused_by {
                Some(c) => Some((c.event_id@, c.trace_entry_id@)),
                None => None,
            },
            sequence: self.sequence,
            depth: self.depth,
        }
    }
}

/// Two causes that name the same event and trace entry.
pub open spec fn same_cause(a: Option<EventCause>, b: Option<EventCause>) -> bool {
    match (a, b) {
        (None, None) => true,
        (Some(x), Some(y)) => x.event_id@ == y.event_id@ && x.trace_entry_id@
            == y.trace_entry_id@,
        _ => false,
    }
}

/// Two events with the same contents.
pub open spec fn same_event(a: Event, b: Event) -> bool {
    &&& a.id@ == b.id@
    &&& a.event_type@ == b.event_type@
    &&& a.payload@ == b.payload@
    &&& same_cause(a.caused_by, b.caused_by)
    &&& a.sequence == b.sequence
    &&& a.depth == b.depth
}

impl Clone for EventCause {
    fn clone(&self) -> (r: Self)
        ensures
            r.event_id@ == self.event_id@,
            r.trace_entry_id@ == self.trace_entry_id@,
    {
        EventCause { event_id: self.event_id.clone(), trace_entry_id: self.trace_entry_id.clone() }
    }
}

impl Clone for Event {
    fn clone(&self) -> (r: Self)
        ensures
            same_event(r, *self),
            r@ == self@,
    {
        let caused_by = match &self.caused_by {
            Some(c) => Some(c.clone()),
            None => None,
        };
        Event {
            id: self.id.clone(),
            event_type: self.event_type.clone(),
            payload: self.payload.clone(),
            caused_by,
            sequence: self.sequence,
            depth: self.depth,
        }
    }
}

impl Event {
    /// A seed event: no cause, sequence 0, depth 0.
    pub fn seed(id: &str, event_type: &str, payload: JsonValue) -> (e: Event)
        ensures
            e.id@ == id@,
            e.event_type@ == event_type@,
            e.payload == payload,
            e.caused_by is None,
            e.sequence == 0,
            e.depth == 0,
    {
        Event {
            id: id.to_owned(),
            event_type: event_type.to_owned(),
            payload,
            caused_by: None,
            sequence: 0,
            depth: 0,
        }
    }
}

} // verus!

use vstd::prelude::*;
use vstd::string::*;

use super::runner::{emitted_of, failed_observation, failure_text, ExecutionLimits};
use crate::domain::trace::{RunReport, RunStatus, TraceEntry, TraceEntryKind, TraceFailure};
use crate::text::{decimal, lemma_decimal_injective, push_decimal, push_str, string_of};

verus! {

/// The id of the trace entry with the given sequence number.
pub open spec fn trace_id_text(n: u64) -> Seq<char> {
    "trace-"@ + decimal(n as nat)
}

/// The sequence number that follows `n`; it stays at the largest `u64`.
pub open spec fn next_sequence(n: u64) -> u64 {
    if n == u64::MAX {
        n
    } else {
        (n + 1) as u64
    }
}

/// Each entry's id names its sequence number.
pub open spec fn ids_follow_sequences(t: Seq<TraceEntry>) -> bool {
    forall|i: int| 0 <= i < t.len() ==> (#[trigger] t[i]).id@ == trace_id_text(t[i].sequence)
}

/// Sequence numbers increase along the trace (until they reach the largest `u64`).
pub open spec fn sequences_increase(t: Seq<TraceEntry>) -> bool {
    forall|i: int, j: int|
        #![trigger t[i], t[j]]
        0 <= i < j < t.len() ==> t[i].sequence < t[j].sequence || t[j].sequence == u64::MAX
}

/// The events that an effect entry records as emitted name that entry and the event it
/// ran for as their cause, and stay within the limits.
pub open spec fn entry_causal(e: TraceEntry, limits: ExecutionLimits) -> bool {
    match e.kind {
        TraceEntryKind::EffectExecuted { event_id, observation, .. } => forall|k: int|
            0 <= k < emitted_of(observation).len() ==> {
                let ev = #[trigger] emitted_of(observation)[k];
                &&& ev.caused_by matches Some(c) && c.event_id@ == event_id@ && c.trace_entry_id@
                    == e.id@
                &&& ev.depth <= limits.max_depth
                &&& ev.sequence <= limits.max_events
            },
        _ => true,
    }
}

/// An entry that records no failed effect.
pub open spec fn entry_passed(e: TraceEntry) -> bool {
    match e.kind {
        TraceEntryKind::EffectExecuted { observation, .. } => !failed_observation(observation),
        _ => true,
    }
}

/// An entry that counts as a step: a dequeued event or an executed effect.
pub open spec fn is_step(e: TraceEntry) -> bool {
    e.kind is EventDequeued || e.kind is EffectExecuted
}

/// How many entries of the trace count as steps.
pub open spec fn step_count(t: Seq<TraceEntry>) -> nat
    decreases t.len(),
{
    if t.len() == 0 {
        0
    } else {
        step_count(t.drop_last()) + if is_step(t.last()) {
            1nat
        } else {
            0nat
        }
    }
}

/// The message with which a failed effect entry fails the run.
pub open spec fn failed_effect_text(e: TraceEntry) -> Seq<char> {
    match e.kind {
        TraceEntryKind::EffectExecuted { event_id, handler_index, effect_index, observation, .. } =>
            "event "@ + event_id@ + " triggered handler "@ + decimal(handler_index as nat)
                + " effect "@ + decimal(effect_index as nat) + ": "@ + failure_text(observation),
        _ => Seq::empty(),
    }
}

/// What every finished run report keeps: it starts with the run and ends with its status;
/// ids name sequence numbers, which increase; emitted events name their cause; a failed
/// effect is the last entry before the end and is the failure; the steps stay within the
/// limit.
pub open spec fn report_ok(
    report: RunReport,
    run_id: Seq<char>,
    workflow_name: Seq<char>,
    limits: ExecutionLimits,
) -> bool {
    let t = report.trace@;
    &&& report.run_id@ == run_id
    &&& report.workflow_name@ == workflow_name
    &&& t.len() >= 2
    &&& t[0].kind matches TraceEntryKind::RunStarted { run_id: r, workflow_name: w } && r@ == run_id
        && w@ == workflow_name
    &&& t.last().kind == (TraceEntryKind::RunEnded { status: report.status })
    &&& forall|i: int| 0 <= i < t.len() - 1 ==> !((#[trigger] t[i]).kind is RunEnded)
    &&& (report.status == RunStatus::Failed) == (report.failure is Some)
    &&& ids_follow_sequences(t)
    &&& sequences_increase(t)
    &&& forall|i: int| 0 <= i < t.len() ==> entry_causal(#[trigger] t[i], limits)
    &&& forall|i: int|
        0 <= i < t.len() && !entry_passed(#[trigger] t[i]) ==> i == t.len() - 2 && (
        report.failure matches Some(f) && f.trace_entry_id matches Some(id) && id@ == t[i].id@
            && f.message@ == failed_effect_text(t[i]))
    &&& step_count(t) <= limits.max_steps
}

/// The entries of a finished report have distinct ids, as long as their sequence numbers
/// stay below the largest `u64`.
pub proof fn law_trace_ids_distinct(
    report: RunReport,
    run_id: Seq<char>,
    workflow_name: Seq<char>,
    limits: ExecutionLimits,
)
    requires
        report_ok(report, run_id, workflow_name, limits),
        forall|i: int| 0 <= i < report.trace@.len() ==> (#[trigger] report.trace@[i]).sequence < u64::MAX,
    ensures
        forall|i: int, j: int|
            #![trigger report.trace@[i], report.trace@[j]]
            0 <= i < j < report.trace@.len() ==> report.trace@[i].id@ != report.trace@[j].id@,
{
    let t = report.trace@;
    assert forall|i: int, j: int|
        #![trigger t[i], t[j]]
        0 <= i < j < t.len() implies t[i].id@ != t[j].id@ by {
        assert(t[i].sequence < t[j].sequence);
        if t[i].id@ == t[j].id@ {
            reveal_strlit("trace-");
            let a = trace_id_text(t[i].sequence);
            let b = trace_id_text(t[j].sequence);
            assert(a.subrange(6, a.len() as int) =~= decimal(t[i].sequence as nat));
            assert(b.subrange(6, b.len() as int) =~= decimal(t[j].sequence as nat));
            lemma_decimal_injective(t[i].sequence as nat, t[j].sequence as nat);
        }
    }
}

/// What the trace of a run in progress keeps, with `next` the last sequence number handed
/// out.
pub open spec fn trace_inv(t: Seq<TraceEntry>, next: u64, limits: ExecutionLimits) -> bool {
    &&& ids_follow_sequences(t)
    &&& sequences_increase(t)
    &&& forall|i: int| 0 <= i < t.len() ==> (#[trigger] t[i]).sequence <= next
    &&& forall|i: int| 0 <= i < t.len() ==> entry_causal(#[trigger] t[i], limits)
    &&& forall|i: int| 0 <= i < t.len() ==> entry_passed(#[trigger] t[i])
    &&& forall|i: int| 0 <= i < t.len() ==> !((#[trigger] t[i]).kind is RunEnded)
}

/// Handing out a sequence number keeps what the trace keeps.
pub proof fn lemma_inv_skip(t: Seq<TraceEntry>, next: u64, limits: ExecutionLimits)
    requires
        trace_inv(t, next, limits),
    ensures
        trace_inv(t, next_sequence(next), limits),
{
}

/// Recording an entry under the next sequence number keeps what the trace keeps.
pub proof fn lemma_record(t: Seq<TraceEntry>, next: u64, e: TraceEntry, limits: ExecutionLimits)
    requires
        trace_inv(t, next, limits),
        e.sequence == next_sequence(next),
        e.id@ == trace_id_text(e.sequence),
        entry_causal(e, limits),
        entry_passed(e),
        !(e.kind is RunEnded),
    ensures
        trace_inv(t.push(e), e.sequence, limits),
        step_count(t.push(e)) == step_count(t) + if is_step(e) {
            1nat
        } else {
            0nat
        },
{
    lemma_push_keeps_order(t, e);
    lemma_step_count_push(t, e);
    let u = t.push(e);
    assert forall|i: int| 0 <= i < u.len() implies {
        &&& (#[trigger] u[i]).sequence <= e.sequence
        &&& entry_causal(u[i], limits)
        &&& entry_passed(u[i])
        &&& !(u[i].kind is RunEnded)
    } by {
        if i < t.len() {
            assert(u[i] == t[i]);
        }
    }
}

/// A trace kept as `trace_inv` says, started by the run and ended with its status, makes
/// a report that keeps what every report keeps.
pub proof fn lemma_ended(
    report: RunReport,
    t: Seq<TraceEntry>,
    next: u64,
    run_id: Seq<char>,
    workflow_name: Seq<char>,
    limits: ExecutionLimits,
)
    requires
        trace_inv(t, next, limits),
        t.len() >= 1,
        t[0].kind matches TraceEntryKind::RunStarted { run_id: r, workflow_name: w } && r@ == run_id
            && w@ == workflow_name,
        step_count(t) <= limits.max_steps,
        report.trace@.len() == t.len() + 1,
        report.trace@.drop_last() == t,
        report.trace@.last().kind == (TraceEntryKind::RunEnded { status: report.status }),
        report.trace@.last().sequence == next_sequence(next),
        report.trace@.last().id@ == trace_id_text(report.trace@.last().sequence),
        report.run_id@ == run_id,
        report.workflow_name@ == workflow_name,
        (report.status == RunStatus::Failed) == (report.failure is Some),
    ensures
        report_ok(report, run_id, workflow_name, limits),
{
    let u = report.trace@;
    let e = u.last();
    assert(u =~= t.push(e));
    lemma_push_keeps_order(t, e);
    lemma_step_count_push(t, e);
    assert(u[0] == t[0]);
    assert forall|i: int| 0 <= i < u.len() implies entry_causal(#[trigger] u[i], limits) && entry_passed(u[i]) by {
        if i < t.len() {
            assert(u[i] == t[i]);
        }
    }
    assert forall|i: int| 0 <= i < u.len() - 1 implies !((#[trigger] u[i]).kind is RunEnded) by {
        assert(u[i] == t[i]);
    }
}

/// A trace kept as `trace_inv` says, followed by a failed effect and the end of the run,
/// makes a report that keeps what every report keeps, where the failure names that effect.
pub proof fn lemma_ended_at_effect(
    report: RunReport,
    t: Seq<TraceEntry>,
    next: u64,
    e: TraceEntry,
    run_id: Seq<char>,
    workflow_name: Seq<char>,
    limits: ExecutionLimits,
)
    requires
        trace_inv(t, next, limits),
        t.len() >= 1,
        t[0].kind matches TraceEntryKind::RunStarted { run_id: r, workflow_name: w } && r@ == run_id
            && w@ == workflow_name,
        e.kind is EffectExecuted,
        e.sequence == next_sequence(next),
        e.id@ == trace_id_text(e.sequence),
        entry_causal(e, limits),
        step_count(t) + 1 <= limits.max_steps,
        report.trace@.len() == t.len() + 2,
        report.trace@.drop_last() == t.push(e),
        report.trace@.last().kind == (TraceEntryKind::RunEnded { status: RunStatus::Failed }),
        report.trace@.last().sequence == next_sequence(e.sequence),
        report.trace@.last().id@ == trace_id_text(report.trace@.last().sequence),
        report.run_id@ == run_id,
        report.workflow_name@ == workflow_name,
        report.status == RunStatus::Failed,
        report.failure matches Some(f) && f.trace_entry_id matches Some(id) && id@ == e.id@
            && f.message@ == failed_effect_text(e),
    ensures
        report_ok(report, run_id, workflow_name, limits),
{
    let u = report.trace@;
    let t1 = t.push(e);
    let end = u.last();
    assert(u =~= t1.push(end));
    lemma_push_keeps_order(t, e);
    lemma_step_count_push(t, e);
    assert forall|i: int| 0 <= i < t1.len() implies (#[trigger] t1[i]).sequence < end.sequence
        || end.sequence == u64::MAX by {
        if i < t.len() {
            assert(t1[i] == t[i]);
        }
    }
    lemma_push_keeps_order(t1, end);
    lemma_step_count_push(t1, end);
    assert(u[0] == t[0]);
    assert forall|i: int| 0 <= i < u.len() implies entry_causal(#[trigger] u[i], limits) && (
    !entry_passed(u[i]) ==> i == u.len() - 2) by {
        if i < t.len() {
            assert(u[i] == t[i]);
        } else if i == t.len() {
            assert(u[i] == e);
        }
    }
    assert forall|i: int| 0 <= i < u.len() - 1 implies !((#[trigger] u[i]).kind is RunEnded) by {
        if i < t.len() {
            assert(u[i] == t[i]);
        } else {
            assert(u[i] == e);
        }
    }
    assert(u[u.len() - 2] == e);
}

/// The trace of a run in progress.
pub struct RunState {
    pub run_id: String,
    pub workflow_name: String,
    pub trace: Vec<TraceEntry>,
    pub next_trace_sequence: u64,
}

impl RunState {
    /// What the trace of a run in progress keeps.
    pub open spec fn inv(&self, limits: ExecutionLimits) -> bool {
        trace_inv(self.trace@, self.next_trace_sequence, limits)
    }

    pub fn new(run_id: String, workflow_name: String) -> (s: Self)
        ensures
            s.run_id == run_id,
            s.workflow_name == workflow_name,
            s.trace@.len() == 0,
            s.next_trace_sequence == 0,
    {
        RunState { run_id, workflow_name, trace: Vec::new(), next_trace_sequence: 0 }
    }

    /// Hands out the id of the next trace entry.
    pub fn next_trace_id(&mut self) -> (id: String)
        ensures
            final(self).next_trace_sequence == next_sequence(old(self).next_trace_sequence),
            id@ == trace_id_text(final(self).next_trace_sequence),
            final(self).trace == old(self).trace,
            final(self).run_id == old(self).run_id,
            final(self).workflow_name == old(self).workflow_name,
    {
        self.next_trace_sequence = self.next_trace_sequence.saturating_add(1);
        let mut out: Vec<char> = Vec::new();
        push_str(&mut out, "trace-");
        push_decimal(&mut out, self.next_trace_sequence);
        string_of(&out)
    }

    /// Records an entry under an id handed out before.
    pub fn push_trace_with_id(&mut self, id: String, kind: TraceEntryKind)
        ensures
            final(self).trace@ == old(self).trace@.push(
                TraceEntry { id, sequence: old(self).next_trace_sequence, kind },
            ),
            final(self).next_trace_sequence == old(self).next_trace_sequence,
            final(self).run_id == old(self).run_id,
            final(self).workflow_name == old(self).workflow_name,
    {
        let sequence = self.next_trace_sequence;
        self.trace.push(TraceEntry { id, sequence, kind });
    }

    /// Records an entry under a new id, and returns the id.
    pub fn push_trace(&mut self, kind: TraceEntryKind) -> (id: String)
        ensures
            final(self).next_trace_sequence == next_sequence(old(self).next_trace_sequence),
            id@ == trace_id_text(final(self).next_trace_sequence),
            final(self).trace@ == old(self).trace@.push(
                TraceEntry { id: final(self).trace@.last().id, sequence: final(self).next_trace_sequence, kind },
            ),
            final(self).trace@.last().id@ == id@,
            final(self).run_id == old(self).run_id,
            final(self).workflow_name == old(self).workflow_name,
    {
        let id = self.next_trace_id();
        let copy = id.clone();
        self.push_trace_with_id(id, kind);
        copy
    }

    /// Ends the run as succeeded.
    pub fn succeed(self) -> (r: RunReport)
        ensures
            r.run_id == self.run_id,
            r.workflow_name == self.workflow_name,
            r.status == RunStatus::Succeeded,
            r.failure is None,
            r.trace@.len() == self.trace@.len() + 1,
            r.trace@.drop_last() == self.trace@,
            r.trace@.last().kind == (TraceEntryKind::RunEnded { status: RunStatus::Succeeded }),
            r.trace@.last().sequence == next_sequence(self.next_trace_sequence),
            r.trace@.last().id@ == trace_id_text(r.trace@.last().sequence),
    {
        let mut state = self;
        state.push_trace(TraceEntryKind::RunEnded { status: RunStatus::Succeeded });
        assert(state.trace@.drop_last() =~= self.trace@);
        RunReport {
            run_id: state.run_id,
            workflow_name: state.workflow_name,
            status: RunStatus::Succeeded,
            trace: state.trace,
            failure: None,
        }
    }

    /// Ends the run as failed, at the given trace entry where there is one.
    pub fn fail(self, trace_entry_id: Option<String>, message: String) -> (r: RunReport)
        ensures
            r.run_id == self.run_id,
            r.workflow_name == self.workflow_name,
            r.status == RunStatus::Failed,
            r.failure == Some(TraceFailure { trace_entry_id, message }),
            r.trace@.len() == self.trace@.len() + 1,
            r.trace@.drop_last() == self.trace@,
            r.trace@.last().kind == (TraceEntryKind::RunEnded { status: RunStatus::Failed }),
            r.trace@.last().sequence == next_sequence(self.next_trace_sequence),
            r.trace@.last().id@ == trace_id_text(r.trace@.last().sequence),
    {
        let mut state = self;
        state.push_trace(TraceEntryKind::RunEnded { status: RunStatus::Failed });
        assert(state.trace@.drop_last() =~= self.trace@);
        RunReport {
            run_id: state.run_id,
            workflow_name: state.workflow_name,
            status: RunStatus::Failed,
            trace: state.trace,
            failure: Some(TraceFailure { trace_entry_id, message }),
        }
    }
}

/// Pushing an entry whose id names a sequence number above all before keeps the trace's
/// order.
pub proof fn lemma_push_keeps_order(t: Seq<TraceEntry>, e: TraceEntry)
    requires
        ids_follow_sequences(t),
        sequences_increase(t),
        e.id@ == trace_id_text(e.sequence),
        forall|i: int| 0 <= i < t.len() ==> (#[trigger] t[i]).sequence < e.sequence || e.sequence
            == u64::MAX,
    ensures
        ids_follow_sequences(t.push(e)),
        sequences_increase(t.push(e)),
{
    let u = t.push(e);
    assert forall|i: int, j: int| 0 <= i < j < u.len() implies #[trigger] u[i].sequence
        < #[trigger] u[j].sequence || u[j].sequence == u64::MAX by {
        if j < t.len() {
            assert(u[i] == t[i] && u[j] == t[j]);
        } else {
            assert(u[i] == t[i]);
        }
    }
    assert forall|i: int| 0 <= i < u.len() implies (#[trigger] u[i]).id@ == trace_id_text(
        u[i].sequence,
    ) by {
        if i < t.len() {
            assert(u[i] == t[i]);
        }
    }
}

/// The steps of a trace with one more entry.
pub proof fn lemma_step_count_push(t: Seq<TraceEntry>, e: TraceEntry)
    ensures
        step_count(t.push(e)) == step_count(t) + if is_step(e) {
            1nat
        } else {
            0nat
        },
{
    assert(t.push(e).drop_last() =~= t);
}

} // verus!

use vstd::prelude::*;

use super::runner::{effect_step, emitted_of, replies_taken, EffectStep, ExecutionLimits, HttpReply};
use crate::domain::environment::RuntimeEnvironment;
use crate::domain::event::{Event, EventV};
use crate::domain::trace::{TraceEntry, TraceEntryKind};
use crate::domain::workflow::Handler;

verus! {

/// Where an entry stands in the handling of an event: `(h, -1)` for handler `h` matched,
/// `(h, x)` for effect `x` of handler `h` executed, `(-1, -1)` for no handler matched, and
/// `(-2, -2)` for an entry that records no handling.
pub open spec fn entry_place(k: TraceEntryKind) -> (int, int) {
    match k {
        TraceEntryKind::HandlerMatched { handler_index, .. } => (handler_index as int, -1),
        TraceEntryKind::EffectExecuted { handler_index, effect_index, .. } => (
            handler_index as int,
            effect_index as int,
        ),
        TraceEntryKind::HandlerSkipped { .. } => (-1, -1),
        _ => (-2, -2),
    }
}

/// The places of the entries of a trace, in order.
pub open spec fn places(t: Seq<TraceEntry>) -> Seq<(int, int)> {
    t.map_values(|e: TraceEntry| entry_place(e.kind))
}

/// The places that handling an event of type `ty` goes through among the first `n`
/// handlers: each handler whose `on` is `ty`, in order, each followed by its effects in
/// order.
pub open spec fn handling_places(hs: Seq<Handler>, ty: Seq<char>, n: int) -> Seq<(int, int)>
    decreases n,
{
    if n <= 0 {
        Seq::empty()
    } else {
        handling_places(hs, ty, n - 1) + if hs[n - 1].on@ == ty {
            seq![(n - 1, -1)] + Seq::new(hs[n - 1].effects@.len(), |x: int| (n - 1, x))
        } else {
            Seq::empty()
        }
    }
}

/// The places that handling an event of type `ty` goes through: those of the handlers
/// whose `on` is `ty`, or the one place of no handler matched.
pub open spec fn event_places(hs: Seq<Handler>, ty: Seq<char>) -> Seq<(int, int)> {
    let p = handling_places(hs, ty, hs.len() as int);
    if p.len() == 0 {
        seq![(-1, -1)]
    } else {
        p
    }
}

/// The index of the last entry that dequeued an event.
pub open spec fn last_dequeued(t: Seq<TraceEntry>) -> Option<int>
    decreases t.len(),
{
    if t.len() == 0 {
        None
    } else if t.last().kind is EventDequeued {
        Some(t.len() - 1)
    } else {
        last_dequeued(t.drop_last())
    }
}

/// Whether the last entry of the trace, where it records handling, handles the last
/// dequeued event where it should: the places since that event begin the places of its
/// handling, the entry names that event, a matched handler carries its own `on`, and a
/// skip carries the event's type.
pub open spec fn handles_last_event(t: Seq<TraceEntry>, hs: Seq<Handler>) -> bool {
    entry_place(t.last().kind).0 >= -1 ==> match last_dequeued(t) {
        Some(d) => match t[d].kind {
            TraceEntryKind::EventDequeued { event } => {
                &&& places(t.subrange(d + 1, t.len() as int)).is_prefix_of(
                    event_places(hs, event.event_type@),
                )
                &&& match t.last().kind {
                    TraceEntryKind::HandlerMatched { event_id, handler_index, on } => event_id@
                        == event.id@ && on@ == hs[handler_index as int].on@,
                    TraceEntryKind::EffectExecuted { event_id, .. } => event_id@ == event.id@,
                    TraceEntryKind::HandlerSkipped { event_id, on } => event_id@ == event.id@
                        && on@ == event.event_type@,
                    _ => true,
                }
            },
            _ => false,
        },
        None => false,
    }
}

/// Whether the handling of the last dequeued event is complete: the places since it are all
/// the places of its handling.
pub open spec fn handling_complete(t: Seq<TraceEntry>, hs: Seq<Handler>) -> bool {
    match last_dequeued(t) {
        Some(d) => match t[d].kind {
            TraceEntryKind::EventDequeued { event } => places(t.subrange(d + 1, t.len() as int))
                == event_places(hs, event.event_type@),
            _ => false,
        },
        None => true,
    }
}

/// Whether the entry at `i` handles, where it records handling, the event dequeued last
/// before it where it should.
pub open spec fn handled_at(t: Seq<TraceEntry>, i: int, hs: Seq<Handler>) -> bool {
    handles_last_event(t.take(i + 1), hs)
}

/// Whether the handling of the events before the entry at `i` is complete, where that entry
/// dequeues the next event.
pub open spec fn complete_before(t: Seq<TraceEntry>, i: int, hs: Seq<Handler>) -> bool {
    t[i].kind is EventDequeued ==> handling_complete(t.take(i), hs)
}

/// What a run's trace keeps of the handlers: each event is handled by exactly the handlers
/// whose `on` is its type, in handler order, each running its effects in order, or is
/// skipped where no handler matches; its handling is complete before the next event is
/// dequeued.
pub open spec fn follows_handlers(t: Seq<TraceEntry>, hs: Seq<Handler>) -> bool {
    &&& forall|i: int| 0 <= i < t.len() ==> #[trigger] handled_at(t, i, hs)
    &&& forall|i: int| 0 <= i < t.len() ==> #[trigger] complete_before(t, i, hs)
}

/// Recording an entry keeps what the trace keeps of the handlers, where the entry handles
/// the last event where it should, and an entry that dequeues an event comes after the
/// handling of the one before is complete.
pub proof fn lemma_follow_push(t: Seq<TraceEntry>, e: TraceEntry, hs: Seq<Handler>)
    requires
        follows_handlers(t, hs),
        handles_last_event(t.push(e), hs),
        e.kind is EventDequeued ==> handling_complete(t, hs),
    ensures
        follows_handlers(t.push(e), hs),
{
    let u = t.push(e);
    assert forall|i: int| 0 <= i < u.len() implies #[trigger] handled_at(u, i, hs) by {
        if i < t.len() {
            assert(u.take(i + 1) =~= t.take(i + 1));
            assert(handled_at(t, i, hs));
        } else {
            assert(u.take(i + 1) =~= u);
        }
    }
    assert forall|i: int| 0 <= i < u.len() implies #[trigger] complete_before(u, i, hs) by {
        if i < t.len() {
            assert(u.take(i) =~= t.take(i));
            assert(u[i] == t[i]);
            assert(complete_before(t, i, hs));
        } else {
            assert(u.take(i) =~= t);
        }
    }
}

/// An entry that records no handling and dequeues no event keeps what the trace keeps of
/// the handlers.
pub proof fn lemma_follow_other(t: Seq<TraceEntry>, e: TraceEntry, hs: Seq<Handler>)
    requires
        follows_handlers(t, hs),
        entry_place(e.kind).0 == -2,
        !(e.kind is EventDequeued),
    ensures
        follows_handlers(t.push(e), hs),
        last_dequeued(t.push(e)) == last_dequeued(t),
{
    lemma_follow_push(t, e, hs);
    assert(t.push(e).drop_last() =~= t);
}

pub proof fn lemma_last_dequeued_bounds(t: Seq<TraceEntry>)
    ensures
        last_dequeued(t) matches Some(d) ==> 0 <= d < t.len() && t[d].kind is EventDequeued,
    decreases t.len(),
{
    if t.len() > 0 && !(t.last().kind is EventDequeued) {
        lemma_last_dequeued_bounds(t.drop_last());
        assert forall|d: int| 0 <= d < t.len() - 1 implies t.drop_last()[d] == t[d] by {}
    }
}

/// The places since the last dequeued event grow by the place of each new entry.
pub proof fn lemma_places_push(t: Seq<TraceEntry>, e: TraceEntry, d: int)
    requires
        0 <= d < t.len(),
    ensures
        places(t.push(e).subrange(d + 1, (t.len() + 1) as int)) == places(t.subrange(d + 1, t.len() as int)).push(
            entry_place(e.kind),
        ),
{
    assert(places(t.push(e).subrange(d + 1, (t.len() + 1) as int)) =~= places(t.subrange(d + 1, t.len() as int)).push(
        entry_place(e.kind),
    ));
}

/// The places among fewer handlers begin those among more.
pub proof fn lemma_handling_prefix(hs: Seq<Handler>, ty: Seq<char>, m: int, n: int)
    requires
        0 <= m <= n,
    ensures
        handling_places(hs, ty, m).is_prefix_of(handling_places(hs, ty, n)),
    decreases n,
{
    if m < n {
        lemma_handling_prefix(hs, ty, m, n - 1);
        let a = handling_places(hs, ty, m);
        let b = handling_places(hs, ty, n - 1);
        let c = handling_places(hs, ty, n);
        assert forall|k: int| 0 <= k < a.len() implies a[k] == c[k] by {
            assert(a[k] == b[k]);
        }
    }
}

/// Partway through the effects of a matching handler, the places so far begin the places
/// of the event's handling.
pub proof fn lemma_partial_prefix(hs: Seq<Handler>, ty: Seq<char>, h: int, x: int)
    requires
        0 <= h < hs.len(),
        hs[h].on@ == ty,
        0 <= x <= hs[h].effects@.len(),
    ensures
        (handling_places(hs, ty, h) + seq![(h, -1)] + Seq::new(x as nat, |k: int| (h, k))).is_prefix_of(
            event_places(hs, ty),
        ),
{
    let p = handling_places(hs, ty, h) + seq![(h, -1)] + Seq::new(x as nat, |k: int| (h, k));
    let q = handling_places(hs, ty, h + 1);
    assert(q =~= handling_places(hs, ty, h) + (seq![(h, -1)] + Seq::new(
        hs[h].effects@.len(),
        |k: int| (h, k),
    )));
    lemma_handling_prefix(hs, ty, h + 1, hs.len() as int);
    let all = handling_places(hs, ty, hs.len() as int);
    assert(q.len() > 0);
    assert(all.len() > 0);
    assert forall|k: int| 0 <= k < p.len() implies p[k] == all[k] by {
        assert(p[k] == q[k]);
    }
}

/// The state of the handling of the last dequeued event: it stands at `d`, has type `ty` and
/// id `id`, and the entries since it stand at `so_far`.
pub open spec fn handling_state(
    t: Seq<TraceEntry>,
    hs: Seq<Handler>,
    d: int,
    id: Seq<char>,
    ty: Seq<char>,
    so_far: Seq<(int, int)>,
) -> bool {
    &&& follows_handlers(t, hs)
    &&& last_dequeued(t) == Some(d)
    &&& 0 <= d < t.len()
    &&& t[d].kind matches TraceEntryKind::EventDequeued { event } && event.id@ == id
        && event.event_type@ == ty
    &&& places(t.subrange(d + 1, t.len() as int)) == so_far
}

/// Dequeuing an event, once the handling of the one before is complete, starts its handling.
pub proof fn lemma_dequeue(t: Seq<TraceEntry>, e: TraceEntry, hs: Seq<Handler>)
    requires
        follows_handlers(t, hs),
        handling_complete(t, hs),
        e.kind is EventDequeued,
    ensures
        e.kind matches TraceEntryKind::EventDequeued { event } && handling_state(
            t.push(e),
            hs,
            t.len() as int,
            event.id@,
            event.event_type@,
            handling_places(hs, event.event_type@, 0),
        ),
{
    let u = t.push(e);
    assert(u.drop_last() =~= t);
    lemma_follow_push(t, e, hs);
    assert(places(u.subrange((t.len() + 1) as int, u.len() as int)) =~= Seq::<(int, int)>::empty());
}

/// Recording a handling entry at the next place keeps what the trace keeps of the handlers
/// and moves the handling on by that place.
proof fn lemma_handling_step(
    t: Seq<TraceEntry>,
    e: TraceEntry,
    hs: Seq<Handler>,
    d: int,
    id: Seq<char>,
    ty: Seq<char>,
    so_far: Seq<(int, int)>,
)
    requires
        handling_state(t, hs, d, id, ty, so_far),
        so_far.push(entry_place(e.kind)).is_prefix_of(event_places(hs, ty)),
        entry_place(e.kind).0 >= -1,
        match e.kind {
            TraceEntryKind::HandlerMatched { event_id, handler_index, on } => event_id@ == id
                && on@ == hs[handler_index as int].on@,
            TraceEntryKind::EffectExecuted { event_id, .. } => event_id@ == id,
            TraceEntryKind::HandlerSkipped { event_id, on } => event_id@ == id && on@ == ty,
            _ => false,
        },
    ensures
        handling_state(t.push(e), hs, d, id, ty, so_far.push(entry_place(e.kind))),
{
    let u = t.push(e);
    assert(u.drop_last() =~= t);
    assert(u[d] == t[d]);
    lemma_places_push(t, e, d);
    lemma_follow_push(t, e, hs);
}

/// Matching handler `h`, whose `on` is the event's type, after the handlers before it.
pub proof fn lemma_matched(
    t: Seq<TraceEntry>,
    e: TraceEntry,
    hs: Seq<Handler>,
    d: int,
    id: Seq<char>,
    ty: Seq<char>,
    h: int,
)
    requires
        handling_state(t, hs, d, id, ty, handling_places(hs, ty, h)),
        0 <= h < hs.len(),
        hs[h].on@ == ty,
        e.kind matches TraceEntryKind::HandlerMatched { event_id, handler_index, on }
            && event_id@ == id && handler_index == h && on@ == ty,
    ensures
        handling_state(
            t.push(e),
            hs,
            d,
            id,
            ty,
            handling_places(hs, ty, h) + seq![(h, -1)] + Seq::new(0, |k: int| (h, k)),
        ),
{
    lemma_partial_prefix(hs, ty, h, 0);
    assert(handling_places(hs, ty, h).push((h, -1)) =~= handling_places(hs, ty, h) + seq![(h, -1)]
        + Seq::new(0, |k: int| (h, k)));
    lemma_handling_step(t, e, hs, d, id, ty, handling_places(hs, ty, h));
}

/// Executing effect `x` of matching handler `h`, after the effects before it.
pub proof fn lemma_effect_done(
    t: Seq<TraceEntry>,
    e: TraceEntry,
    hs: Seq<Handler>,
    d: int,
    id: Seq<char>,
    ty: Seq<char>,
    h: int,
    x: int,
)
    requires
        handling_state(
            t,
            hs,
            d,
            id,
            ty,
            handling_places(hs, ty, h) + seq![(h, -1)] + Seq::new(x as nat, |k: int| (h, k)),
        ),
        0 <= h < hs.len(),
        hs[h].on@ == ty,
        0 <= x < hs[h].effects@.len(),
        e.kind matches TraceEntryKind::EffectExecuted { event_id, handler_index, effect_index, .. }
            && event_id@ == id && handler_index == h && effect_index == x,
    ensures
        handling_state(
            t.push(e),
            hs,
            d,
            id,
            ty,
            handling_places(hs, ty, h) + seq![(h, -1)] + Seq::new((x + 1) as nat, |k: int| (h, k)),
        ),
{
    let so_far = handling_places(hs, ty, h) + seq![(h, -1)] + Seq::new(x as nat, |k: int| (h, k));
    lemma_partial_prefix(hs, ty, h, x + 1);
    assert(so_far.push((h, x)) =~= handling_places(hs, ty, h) + seq![(h, -1)] + Seq::new(
        (x + 1) as nat,
        |k: int| (h, k),
    ));
    lemma_handling_step(t, e, hs, d, id, ty, so_far);
}

/// After all effects of matching handler `h`, the handling stands where it does after the
/// handlers up to `h`.
pub proof fn lemma_handler_done(hs: Seq<Handler>, ty: Seq<char>, h: int)
    requires
        0 <= h < hs.len(),
    ensures
        hs[h].on@ == ty ==> handling_places(hs, ty, h + 1) == handling_places(hs, ty, h) + seq![
            (h, -1),
        ] + Seq::new(hs[h].effects@.len(), |k: int| (h, k)),
        hs[h].on@ != ty ==> handling_places(hs, ty, h + 1) == handling_places(hs, ty, h),
{
    if hs[h].on@ == ty {
        assert(handling_places(hs, ty, h + 1) =~= handling_places(hs, ty, h) + seq![(h, -1)]
            + Seq::new(hs[h].effects@.len(), |k: int| (h, k)));
    } else {
        assert(handling_places(hs, ty, h + 1) =~= handling_places(hs, ty, h));
    }
}

/// After all handlers, the handling of the event is complete where some handler matched.
pub proof fn lemma_handlers_done(
    t: Seq<TraceEntry>,
    hs: Seq<Handler>,
    d: int,
    id: Seq<char>,
    ty: Seq<char>,
)
    requires
        handling_state(t, hs, d, id, ty, handling_places(hs, ty, hs.len() as int)),
        handling_places(hs, ty, hs.len() as int).len() > 0,
    ensures
        handling_complete(t, hs),
{
}

/// Where no handler matched, recording the skip completes the handling of the event.
pub proof fn lemma_skipped(
    t: Seq<TraceEntry>,
    e: TraceEntry,
    hs: Seq<Handler>,
    d: int,
    id: Seq<char>,
    ty: Seq<char>,
)
    requires
        handling_state(t, hs, d, id, ty, handling_places(hs, ty, hs.len() as int)),
        handling_places(hs, ty, hs.len() as int).len() == 0,
        e.kind matches TraceEntryKind::HandlerSkipped { event_id, on } && event_id@ == id && on@
            == ty,
    ensures
        follows_handlers(t.push(e), hs),
        handling_complete(t.push(e), hs),
{
    let so_far = handling_places(hs, ty, hs.len() as int);
    assert(so_far.push((-1, -1)) =~= event_places(hs, ty));
    lemma_handling_step(t, e, hs, d, id, ty, so_far);
}

// ---------------------------------------------------------------------------------------
// The event queue
// ---------------------------------------------------------------------------------------

/// The events that an entry puts in the queue: a seeded event, or the events that an
/// executed effect emitted.
pub open spec fn queued_by(k: TraceEntryKind) -> Seq<EventV> {
    match k {
        TraceEntryKind::EventSeeded { event } => seq![event@],
        TraceEntryKind::EffectExecuted { observation, .. } => emitted_of(observation).map_values(
            |e: Event| e@,
        ),
        _ => Seq::empty(),
    }
}

/// The event that an entry takes off the queue.
pub open spec fn dequeued_by(k: TraceEntryKind) -> Seq<EventV> {
    match k {
        TraceEntryKind::EventDequeued { event } => seq![event@],
        _ => Seq::empty(),
    }
}

/// The events that the entries of a trace put in the queue, in order.
pub open spec fn queued_events(t: Seq<TraceEntry>) -> Seq<EventV>
    decreases t.len(),
{
    if t.len() == 0 {
        Seq::empty()
    } else {
        queued_events(t.drop_last()) + queued_by(t.last().kind)
    }
}

/// The events that the entries of a trace take off the queue, in order.
pub open spec fn dequeued_events(t: Seq<TraceEntry>) -> Seq<EventV>
    decreases t.len(),
{
    if t.len() == 0 {
        Seq::empty()
    } else {
        dequeued_events(t.drop_last()) + dequeued_by(t.last().kind)
    }
}

/// The views of the events in a queue, in order.
pub open spec fn queue_views(q: Seq<Event>) -> Seq<EventV> {
    q.map_values(|e: Event| e@)
}

/// Recording an entry adds what it queues and what it dequeues.
pub proof fn lemma_queue_push(t: Seq<TraceEntry>, e: TraceEntry)
    ensures
        queued_events(t.push(e)) == queued_events(t) + queued_by(e.kind),
        dequeued_events(t.push(e)) == dequeued_events(t) + dequeued_by(e.kind),
{
    assert(t.push(e).drop_last() =~= t);
}

/// Where what was dequeued, followed by what is still queued, is what was queued, the
/// events were dequeued in the order they were queued; once the queue is empty, every
/// queued event was dequeued.
pub proof fn lemma_queue_order(t: Seq<TraceEntry>, rest: Seq<EventV>)
    requires
        dequeued_events(t) + rest == queued_events(t),
    ensures
        dequeued_events(t).is_prefix_of(queued_events(t)),
        rest.len() == 0 ==> dequeued_events(t) == queued_events(t),
{
    assert(dequeued_events(t) + Seq::<EventV>::empty() =~= dequeued_events(t));
}

/// Recording an entry that dequeues nothing keeps the events dequeued in the order they
/// were queued.
pub proof fn lemma_queue_order_push(t: Seq<TraceEntry>, e: TraceEntry)
    requires
        dequeued_events(t).is_prefix_of(queued_events(t)),
        !(e.kind is EventDequeued),
    ensures
        dequeued_events(t.push(e)).is_prefix_of(queued_events(t.push(e))),
        dequeued_events(t.push(e)) == dequeued_events(t),
{
    lemma_queue_push(t, e);
    assert(dequeued_events(t) + Seq::<EventV>::empty() =~= dequeued_events(t));
}

// ---------------------------------------------------------------------------------------
// What each executed effect records
// ---------------------------------------------------------------------------------------

/// Whether the entry at `i`, where it records an executed effect, records what the effect
/// of its handler gives for the event dequeued last before it, with the replies received
/// (from the first that the effects before it did not take), the environment and the limits
/// of the run.
pub open spec fn effect_at(
    t: Seq<TraceEntry>,
    i: int,
    hs: Seq<Handler>,
    replies: Seq<HttpReply>,
    env: RuntimeEnvironment,
    limits: ExecutionLimits,
) -> bool {
    match t[i].kind {
        TraceEntryKind::EffectExecuted { handler_index, effect_index, observation, .. } => match last_dequeued(t.take(i + 1)) {
            Some(d) => match t[d].kind {
                TraceEntryKind::EventDequeued { event } => exists|
                    ev: Event,
                    before: nat,
                    after: nat,
                    u0: nat,
                    u1: nat,
                |
                    ev@ == event@ && u0 == replies_taken(t.take(i), hs, env) && #[trigger] effect_step(
                        EffectStep::Done(Ok(observation)),
                        hs[handler_index as int].effects@[effect_index as int],
                        ev,
                        t[i].id@,
                        before,
                        after,
                        replies,
                        u0,
                        u1,
                        env,
                        limits,
                    ),
                _ => false,
            },
            None => false,
        },
        _ => true,
    }
}

/// Whether every executed effect of the trace records what its effect gives.
pub open spec fn effects_recorded(
    t: Seq<TraceEntry>,
    hs: Seq<Handler>,
    replies: Seq<HttpReply>,
    env: RuntimeEnvironment,
    limits: ExecutionLimits,
) -> bool {
    forall|i: int| 0 <= i < t.len() ==> #[trigger] effect_at(t, i, hs, replies, env, limits)
}

/// Recording an entry that executes no effect keeps what the executed effects record.
pub proof fn lemma_effects_other(
    t: Seq<TraceEntry>,
    e: TraceEntry,
    hs: Seq<Handler>,
    replies: Seq<HttpReply>,
    env: RuntimeEnvironment,
    limits: ExecutionLimits,
)
    requires
        effects_recorded(t, hs, replies, env, limits),
        !(e.kind is EffectExecuted),
    ensures
        effects_recorded(t.push(e), hs, replies, env, limits),
{
    let u = t.push(e);
    assert forall|i: int| 0 <= i < u.len() implies #[trigger] effect_at(u, i, hs, replies, env, limits) by {
        if i < t.len() {
            assert(u.take(i + 1) =~= t.take(i + 1));
            assert(u.take(i) =~= t.take(i));
            assert(u[i] == t[i]);
            assert(effect_at(t, i, hs, replies, env, limits));
            if let Some(d) = last_dequeued(t.take(i + 1)) {
                lemma_last_dequeued_bounds(t.take(i + 1));
                assert(u[d] == t[d]);
            }
        }
    }
}

/// Recording an executed effect, with what its effect gave for the event being handled,
/// keeps what the executed effects record.
pub proof fn lemma_effect_recorded(
    t: Seq<TraceEntry>,
    e: TraceEntry,
    hs: Seq<Handler>,
    replies: Seq<HttpReply>,
    env: RuntimeEnvironment,
    limits: ExecutionLimits,
    d: int,
    ev: Event,
    before: nat,
    after: nat,
    u0: nat,
    u1: nat,
)
    requires
        effects_recorded(t, hs, replies, env, limits),
        last_dequeued(t) == Some(d),
        0 <= d < t.len(),
        t[d].kind matches TraceEntryKind::EventDequeued { event } && event@ == ev@,
        u0 == replies_taken(t, hs, env),
        e.kind matches TraceEntryKind::EffectExecuted { handler_index, effect_index, observation, .. }
            && effect_step(
            EffectStep::Done(Ok(observation)),
            hs[handler_index as int].effects@[effect_index as int],
            ev,
            e.id@,
            before,
            after,
            replies,
            u0,
            u1,
            env,
            limits,
        ),
    ensures
        effects_recorded(t.push(e), hs, replies, env, limits),
{
    let u = t.push(e);
    assert(u.drop_last() =~= t);
    assert forall|i: int| 0 <= i < u.len() implies #[trigger] effect_at(u, i, hs, replies, env, limits) by {
        if i < t.len() {
            assert(u.take(i + 1) =~= t.take(i + 1));
            assert(u.take(i) =~= t.take(i));
            assert(u[i] == t[i]);
            assert(effect_at(t, i, hs, replies, env, limits));
            if let Some(k) = last_dequeued(t.take(i + 1)) {
                lemma_last_dequeued_bounds(t.take(i + 1));
                assert(u[k] == t[k]);
            }
        } else {
            assert(u.take(i + 1) =~= u);
            assert(u.take(i) =~= t);
            assert(u[d] == t[d]);
        }
    }
}

} // verus!

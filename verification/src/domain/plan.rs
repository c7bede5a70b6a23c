use vstd::prelude::*;

use super::effect::{effect_name, Effect, RestMethod};
use super::workflow::{Handler, Workflow};
use crate::map::{keys_sorted, StrMap};
use crate::text::seq_lt;

verus! {

/// What a run of a workflow needs before it starts: capabilities and effect order.
#[derive(Debug)]
pub struct RunPlan {
    pub workflow_name: String,
    pub workflow_version: String,
    pub required_capabilities: Vec<Capability>,
    pub effects: Vec<PlannedEffect>,
}

/// A declared permission that an effect needs.
#[derive(Debug, Clone)]
pub struct Capability {
    pub id: String,
    pub risk: CapabilityRisk,
    pub description: String,
}

#[derive(Debug, Clone, Copy, PartialEq, Eq, Structural)]
pub enum CapabilityRisk {
    Read,
    Write,
    Local,
}

/// One effect of the workflow, where it stands, and the capabilities it needs.
#[derive(Debug)]
pub struct PlannedEffect {
    pub handler_index: usize,
    pub effect_index: usize,
    pub on: String,
    pub effect_type: String,
    pub capabilities: Vec<String>,
}

/// A capability as plain values: id, risk and description.
pub type CapView = (Seq<char>, CapabilityRisk, Seq<char>);

pub open spec fn cap_view(c: Capability) -> CapView {
    (c.id@, c.risk, c.description@)
}

/// The capabilities that an effect needs, in order.
pub open spec fn effect_capability_views(e: Effect) -> Seq<CapView> {
    match e {
        Effect::Emit { .. } => seq![
            ("workflow.emit"@, CapabilityRisk::Local, "Emit a new in-memory workflow event."@),
        ],
        Effect::Record { .. } => seq![
            ("workflow.record"@, CapabilityRisk::Local, "Record a message in the run trace."@),
        ],
        Effect::Assert(_) => seq![
            (
                "workflow.assert"@,
                CapabilityRisk::Local,
                "Evaluate an in-memory workflow assertion."@,
            ),
        ],
        Effect::Rest(rest) => if rest.method == RestMethod::Get {
            seq![("network.http.read"@, CapabilityRisk::Read, "Call a REST HTTP endpoint."@)]
        } else {
            seq![("network.http.write"@, CapabilityRisk::Write, "Call a REST HTTP endpoint."@)]
        },
        Effect::Graphql(_) => seq![
            ("network.graphql"@, CapabilityRisk::Write, "Call a GraphQL endpoint."@),
        ],
        Effect::SnsPublish(_) => seq![
            ("aws.sns.publish"@, CapabilityRisk::Write, "Publish a message to an SNS topic."@),
        ],
        Effect::SqsSend(_) => seq![
            ("aws.sqs.send"@, CapabilityRisk::Write, "Send a message to an SQS queue."@),
        ],
        Effect::SqsReceive(sqs) => if sqs.delete_on_success {
            seq![
                (
                    "aws.sqs.receive"@,
                    CapabilityRisk::Read,
                    "Receive messages from an SQS queue."@,
                ),
                (
                    "aws.sqs.delete"@,
                    CapabilityRisk::Write,
                    "Delete received SQS messages after successful processing."@,
                ),
            ]
        } else {
            seq![
                (
                    "aws.sqs.receive"@,
                    CapabilityRisk::Read,
                    "Receive messages from an SQS queue."@,
                ),
            ]
        },
        Effect::Websocket(_) => seq![
            (
                "network.websocket"@,
                CapabilityRisk::Write,
                "Open a WebSocket connection and exchange messages."@,
            ),
        ],
    }
}

/// The capabilities of a list of effects, in order.
pub open spec fn effects_caps(es: Seq<Effect>) -> Seq<CapView>
    decreases es.len(),
{
    if es.len() == 0 {
        Seq::empty()
    } else {
        effects_caps(es.drop_last()) + effect_capability_views(es.last())
    }
}

/// The capabilities of all effects of a list of handlers, in order.
pub open spec fn handlers_caps(hs: Seq<Handler>) -> Seq<CapView>
    decreases hs.len(),
{
    if hs.len() == 0 {
        Seq::empty()
    } else {
        handlers_caps(hs.drop_last()) + effects_caps(hs.last().effects@)
    }
}

/// The places (handler index, effect index) of all effects, in run order.
pub open spec fn handlers_slots(hs: Seq<Handler>) -> Seq<(int, int)>
    decreases hs.len(),
{
    if hs.len() == 0 {
        Seq::empty()
    } else {
        handlers_slots(hs.drop_last()) + Seq::new(
            hs.last().effects@.len(),
            |e: int| ((hs.len() - 1) as int, e),
        )
    }
}

/// A planned effect describes the effect at its place in the handlers.
pub open spec fn planned_matches(p: PlannedEffect, hs: Seq<Handler>, slot: (int, int)) -> bool {
    let h = slot.0;
    let e = slot.1;
    &&& 0 <= h < hs.len()
    &&& 0 <= e < hs[h].effects@.len()
    &&& p.handler_index == h
    &&& p.effect_index == e
    &&& p.on@ == hs[h].on@
    &&& p.effect_type@ == effect_name(hs[h].effects@[e])
    &&& p.capabilities@.len() == effect_capability_views(hs[h].effects@[e]).len()
    &&& forall|c: int|
        0 <= c < p.capabilities@.len() ==> #[trigger] p.capabilities@[c]@
            == effect_capability_views(hs[h].effects@[e])[c].0
}

/// Whether a capability is among the given ones.
pub open spec fn cap_in(c: CapView, caps: Seq<CapView>) -> bool {
    exists|q: int| 0 <= q < caps.len() && #[trigger] caps[q] == c
}

/// Whether a capability with the given id is in the list.
pub open spec fn id_in(id: Seq<char>, req: Seq<Capability>) -> bool {
    exists|k: int| 0 <= k < req.len() && (#[trigger] req[k]).id@ == id
}

/// The required capabilities: sorted by id, each id once, exactly the ids that the
/// effects need, each with the risk and description that an effect gives it.
pub open spec fn required_matches(req: Seq<Capability>, caps: Seq<CapView>) -> bool {
    &&& forall|i: int, j: int|
        0 <= i < j < req.len() ==> seq_lt(#[trigger] req[i].id@, #[trigger] req[j].id@)
    &&& forall|q: int| 0 <= q < caps.len() ==> id_in((#[trigger] caps[q]).0, req)
    &&& forall|k: int| 0 <= k < req.len() ==> cap_in(cap_view(#[trigger] req[k]), caps)
}

/// The run plan of a workflow: its effects in handler order, and the capabilities they need.
pub fn plan_workflow(workflow: &Workflow) -> (plan: RunPlan)
    ensures
        plan.workflow_name@ == workflow.name@,
        plan.workflow_version@ == workflow.version@,
        plan.effects@.len() == handlers_slots(workflow.handlers@).len(),
        forall|k: int|
            0 <= k < plan.effects@.len() ==> planned_matches(
                #[trigger] plan.effects@[k],
                workflow.handlers@,
                handlers_slots(workflow.handlers@)[k],
            ),
        required_matches(plan.required_capabilities@, handlers_caps(workflow.handlers@)),
{
    let ghost hs = workflow.handlers@;
    let mut required: StrMap<Capability> = StrMap::new();
    let mut effects: Vec<PlannedEffect> = Vec::new();
    let mut h: usize = 0;
    while h < workflow.handlers.len()
        invariant
            hs == workflow.handlers@,
            h <= hs.len(),
            required.wf(),
            map_covers(required, handlers_caps(hs.take(h as int))),
            effects@.len() == handlers_slots(hs.take(h as int)).len(),
            forall|k: int|
                0 <= k < effects@.len() ==> planned_matches(
                    #[trigger] effects@[k],
                    hs,
                    handlers_slots(hs.take(h as int))[k],
                ),
        decreases hs.len() - h,
    {
        let handler = &workflow.handlers[h];
        let ghost es = handler.effects@;
        let ghost before_caps = handlers_caps(hs.take(h as int));
        let ghost before_slots = handlers_slots(hs.take(h as int));
        let mut e: usize = 0;
        while e < handler.effects.len()
            invariant
                hs == workflow.handlers@,
                h < hs.len(),
                handler == &hs[h as int],
                es == handler.effects@,
                e <= es.len(),
                required.wf(),
                map_covers(required, before_caps + effects_caps(es.take(e as int))),
                effects@.len() == before_slots.len() + e,
                forall|k: int|
                    0 <= k < before_slots.len() ==> planned_matches(
                        #[trigger] effects@[k],
                        hs,
                        before_slots[k],
                    ),
                forall|k: int|
                    before_slots.len() <= k < effects@.len() ==> planned_matches(
                        #[trigger] effects@[k],
                        hs,
                        (h as int, k - before_slots.len()),
                    ),
            decreases es.len() - e,
        {
            let effect = &handler.effects[e];
            let caps = effect_capabilities(effect);
            let ghost seen = before_caps + effects_caps(es.take(e as int));
            let mut ids: Vec<String> = Vec::new();
            let mut c: usize = 0;
            while c < caps.len()
                invariant
                    caps@.len() == effect_capability_views(*effect).len(),
                    forall|x: int| 0 <= x < caps@.len() ==> cap_view(#[trigger] caps@[x]) == effect_capability_views(*effect)[x],
                    c <= caps@.len(),
                    required.wf(),
                    map_covers(required, seen + effect_capability_views(*effect).take(c as int)),
                    ids@.len() == c,
                    forall|x: int| 0 <= x < c ==> (#[trigger] ids@[x])@ == caps@[x].id@,
                decreases caps@.len() - c,
            {
                let cap = caps[c].clone_capability();
                ids.push(caps[c].id.clone());
                add_capability(&mut required, cap, Ghost(seen + effect_capability_views(*effect).take(c as int)));
                proof {
                    assert((seen + effect_capability_views(*effect).take(c as int)).push(effect_capability_views(*effect)[c as int])
                        =~= seen + effect_capability_views(*effect).take(c + 1));
                }
                c = c + 1;
            }
            proof {
                assert(effect_capability_views(*effect).take(c as int) =~= effect_capability_views(*effect));
                assert(es.take(e + 1).drop_last() =~= es.take(e as int));
                assert(es.take(e + 1).last() == *effect);
                assert(effects_caps(es.take(e + 1)) == effects_caps(es.take(e as int)) + effect_capability_views(*effect));
                assert(seen + effect_capability_views(*effect) =~= before_caps + effects_caps(es.take(e + 1)));
            }
            effects.push(
                PlannedEffect {
                    handler_index: h,
                    effect_index: e,
                    on: handler.on.clone(),
                    effect_type: effect.name().to_owned(),
                    capabilities: ids,
                },
            );
            e = e + 1;
        }
        proof {
            assert(es.take(e as int) =~= es);
            assert(hs.take(h + 1).drop_last() =~= hs.take(h as int));
            assert(hs.take(h + 1).last() == hs[h as int]);
            assert(handlers_caps(hs.take(h + 1)) == before_caps + effects_caps(es));
            let new_slots = handlers_slots(hs.take(h + 1));
            assert(new_slots == before_slots + Seq::new(es.len(), |x: int| (h as int, x)));
            assert forall|k: int| 0 <= k < effects@.len() implies planned_matches(
                #[trigger] effects@[k],
                hs,
                new_slots[k],
            ) by {
                if k >= before_slots.len() {
                    assert(new_slots[k] == (h as int, k - before_slots.len()));
                } else {
                    assert(new_slots[k] == before_slots[k]);
                }
            }
        }
        h = h + 1;
    }
    proof {
        assert(hs.take(h as int) =~= hs);
    }
    let required_capabilities = capabilities_in_order(required, Ghost(handlers_caps(hs)));
    RunPlan {
        workflow_name: workflow.name.clone(),
        workflow_version: workflow.version.clone(),
        required_capabilities,
        effects,
    }
}

/// The map holds one capability per id seen, each under its id, each as some effect gave it.
pub open spec fn map_covers(m: StrMap<Capability>, caps: Seq<CapView>) -> bool {
    &&& forall|q: int| 0 <= q < caps.len() ==> m.has(#[trigger] caps[q].0)
    &&& forall|i: int|
        0 <= i < m.items().len() ==> cap_in(cap_view(#[trigger] m.items()[i].1), caps)
            && m.items()[i].0@ == m.items()[i].1.id@
}

proof fn lemma_cap_in_push(c: CapView, caps: Seq<CapView>, x: CapView)
    requires
        cap_in(c, caps),
    ensures
        cap_in(c, caps.push(x)),
{
    let q = choose|q: int| 0 <= q < caps.len() && #[trigger] caps[q] == c;
    assert(caps.push(x)[q] == c);
}

/// Adds a capability under its id, unless one with that id is there already.
fn add_capability(required: &mut StrMap<Capability>, cap: Capability, Ghost(seen): Ghost<Seq<CapView>>)
    requires
        old(required).wf(),
        map_covers(*old(required), seen),
    ensures
        final(required).wf(),
        map_covers(*final(required), seen.push(cap_view(cap))),
{
    let ghost caps2 = seen.push(cap_view(cap));
    if required.contains_key(cap.id.as_str()) {
        proof {
            assert forall|q: int| 0 <= q < caps2.len() implies required.has(#[trigger] caps2[q].0) by {
                if q < seen.len() {
                    assert(caps2[q] == seen[q]);
                }
            }
            assert forall|i: int| 0 <= i < required.items().len() implies cap_in(
                cap_view(#[trigger] required.items()[i].1),
                caps2,
            ) by {
                lemma_cap_in_push(cap_view(required.items()[i].1), seen, cap_view(cap));
            }
        }
        return;
    }
    let ghost before = *required;
    let key = cap.id.clone();
    let ghost capv = cap_view(cap);
    required.insert(key, cap);
    proof {
        lemma_insert_covers(before, *required, seen, capv);
    }
}

proof fn lemma_insert_covers(before: StrMap<Capability>, after: StrMap<Capability>, seen: Seq<CapView>, capv: CapView)
    requires
        before.wf(),
        after.wf(),
        map_covers(before, seen),
        !before.has(capv.0),
        after.get_spec(capv.0) matches Some(c) && cap_view(c) == capv,
        forall|k: Seq<char>| k != capv.0 ==> after.get_spec(k) == before.get_spec(k),
        after.items().len() == before.items().len() + 1,
    ensures
        map_covers(after, seen.push(capv)),
{
    let caps2 = seen.push(capv);
    assert forall|q: int| 0 <= q < caps2.len() implies after.has(#[trigger] caps2[q].0) by {
        if q < seen.len() {
            assert(caps2[q] == seen[q]);
            assert(before.has(seen[q].0));
            if seen[q].0 != capv.0 {
                assert(after.get_spec(seen[q].0) == before.get_spec(seen[q].0));
            }
        }
    }
    assert forall|i: int| 0 <= i < after.items().len() implies cap_in(
        cap_view(#[trigger] after.items()[i].1),
        caps2,
    ) && after.items()[i].0@ == after.items()[i].1.id@ by {
        let k = after.items()[i].0@;
        lemma_sorted_index(after.items(), i);
        if k == capv.0 {
            assert(cap_view(after.items()[i].1) == capv);
            assert(caps2[seen.len() as int] == capv);
        } else {
            assert(after.get_spec(k) == before.get_spec(k));
            lemma_get_in_items(before, k);
            let j = choose|j: int|
                0 <= j < before.items().len() && before.items()[j].0@ == k && before.get_spec(k)
                    == Some(before.items()[j].1);
            assert(cap_in(cap_view(before.items()[j].1), seen));
            lemma_cap_in_push(cap_view(before.items()[j].1), seen, capv);
        }
    }
}

/// In a sorted map, the entry at index `i` is the one found under its key.
proof fn lemma_sorted_index<V>(items: Seq<(String, V)>, i: int)
    requires
        keys_sorted(items),
        0 <= i < items.len(),
    ensures
        crate::map::key_index_from(items, items[i].0@, 0) == Some(i),
{
    lemma_sorted_index_from(items, i, 0);
}

proof fn lemma_sorted_index_from<V>(items: Seq<(String, V)>, i: int, from: int)
    requires
        keys_sorted(items),
        0 <= from <= i < items.len(),
    ensures
        crate::map::key_index_from(items, items[i].0@, from) == Some(i),
    decreases i - from,
{
    if from < i {
        assert(seq_lt(items[from].0@, items[i].0@));
        crate::map::lemma_seq_lt_irreflexive(items[i].0@);
        lemma_sorted_index_from(items, i, from + 1);
    }
}

proof fn lemma_get_in_items<V>(m: StrMap<V>, k: Seq<char>)
    requires
        m.has(k),
    ensures
        exists|j: int| 0 <= j < m.items().len() && m.items()[j].0@ == k && m.get_spec(k) == Some(m.items()[j].1),
{
    lemma_key_index_bounds(m.items(), k, 0);
    let j = crate::map::key_index_from(m.items(), k, 0)->0;
    assert(0 <= j < m.items().len() && m.items()[j].0@ == k && m.get_spec(k) == Some(m.items()[j].1));
}

proof fn lemma_key_index_bounds<V>(a: Seq<(String, V)>, key: Seq<char>, from: int)
    ensures
        crate::map::key_index_from(a, key, from) matches Some(x) ==> from <= x < a.len() && a[x].0@ == key,
    decreases a.len() - from,
{
    if 0 <= from < a.len() && a[from].0@ != key {
        lemma_key_index_bounds(a, key, from + 1);
    }
}

/// The capabilities of the map, in id order.
fn capabilities_in_order(required: StrMap<Capability>, Ghost(caps): Ghost<Seq<CapView>>) -> (r: Vec<Capability>)
    requires
        required.wf(),
        map_covers(required, caps),
    ensures
        required_matches(r@, caps),
{
    let ghost items = required.items();
    let mut entries = required.into_entries();
    let mut out: Vec<Capability> = Vec::new();
    let ghost n = items.len();
    while entries.len() > 0
        invariant
            keys_sorted(items),
            items.len() == n,
            out@.len() + entries@.len() == n,
            entries@ == items.subrange(out@.len() as int, n as int),
            forall|x: int| 0 <= x < out@.len() ==> #[trigger] out@[x] == items[x].1,
            forall|x: int| 0 <= x < n ==> (#[trigger] items[x]).1.id@ == items[x].0@,
            forall|x: int| 0 <= x < n ==> cap_in(cap_view((#[trigger] items[x]).1), caps),
        decreases entries.len(),
    {
        let (_, cap) = entries.remove(0);
        out.push(cap);
    }
    proof {
        assert forall|i: int, j: int| 0 <= i < j < out@.len() implies seq_lt(
            #[trigger] out@[i].id@,
            #[trigger] out@[j].id@,
        ) by {
            assert(seq_lt(items[i].0@, items[j].0@));
        }
        assert forall|q: int| 0 <= q < caps.len() implies id_in((#[trigger] caps[q]).0, out@) by {
            assert(required.has(caps[q].0));
            lemma_get_in_items(required, caps[q].0);
            let j = choose|j: int|
                0 <= j < required.items().len() && required.items()[j].0@ == caps[q].0
                    && required.get_spec(caps[q].0) == Some(required.items()[j].1);
            assert(out@[j].id@ == caps[q].0);
        }
        assert forall|k: int| 0 <= k < out@.len() implies cap_in(cap_view(#[trigger] out@[k]), caps) by {
            assert(out@[k] == items[k].1);
        }
    }
    out
}

impl Capability {
    /// A copy of this capability with the same id, risk and description.
    pub fn clone_capability(&self) -> (r: Capability)
        ensures
            cap_view(r) == cap_view(*self),
    {
        Capability { id: self.id.clone(), risk: self.risk, description: self.description.clone() }
    }
}

/// The capabilities that an effect needs, in order.
pub fn effect_capabilities(effect: &Effect) -> (r: Vec<Capability>)
    ensures
        r@.len() == effect_capability_views(*effect).len(),
        forall|i: int| 0 <= i < r@.len() ==> cap_view(#[trigger] r@[i]) == effect_capability_views(*effect)[i],
{
    let r = match effect {
        Effect::Emit { .. } => vec![
            capability("workflow.emit", CapabilityRisk::Local, "Emit a new in-memory workflow event."),
        ],
        Effect::Record { .. } => vec![
            capability("workflow.record", CapabilityRisk::Local, "Record a message in the run trace."),
        ],
        Effect::Assert(_) => vec![
            capability(
                "workflow.assert",
                CapabilityRisk::Local,
                "Evaluate an in-memory workflow assertion.",
            ),
        ],
        Effect::Rest(rest) => match rest.method {
            RestMethod::Get => vec![
                capability("network.http.read", CapabilityRisk::Read, "Call a REST HTTP endpoint."),
            ],
            _ => vec![
                capability("network.http.write", CapabilityRisk::Write, "Call a REST HTTP endpoint."),
            ],
        },
        Effect::Graphql(_) => vec![
            capability("network.graphql", CapabilityRisk::Write, "Call a GraphQL endpoint."),
        ],
        Effect::SnsPublish(_) => vec![
            capability("aws.sns.publish", CapabilityRisk::Write, "Publish a message to an SNS topic."),
        ],
        Effect::SqsSend(_) => vec![
            capability("aws.sqs.send", CapabilityRisk::Write, "Send a message to an SQS queue."),
        ],
        Effect::SqsReceive(sqs) => {
            let mut capabilities = vec![
                capability(
                    "aws.sqs.receive",
                    CapabilityRisk::Read,
                    "Receive messages from an SQS queue.",
                ),
            ];
            if sqs.delete_on_success {
                capabilities.push(
                    capability(
                        "aws.sqs.delete",
                        CapabilityRisk::Write,
                        "Delete received SQS messages after successful processing.",
                    ),
                );
            }
            capabilities
        },
        Effect::Websocket(_) => vec![
            capability(
                "network.websocket",
                CapabilityRisk::Write,
                "Open a WebSocket connection and exchange messages.",
            ),
        ],
    };
    assert(r@.len() == effect_capability_views(*effect).len());
    r
}

/// A capability with the given id, risk and description.
pub fn capability(id: &str, risk: CapabilityRisk, description: &str) -> (c: Capability)
    ensures
        cap_view(c) == (id@, risk, description@),
{
    Capability { id: id.to_owned(), risk, description: description.to_owned() }
}

} // verus!

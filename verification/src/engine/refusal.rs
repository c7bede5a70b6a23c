use vstd::prelude::*;
use vstd::string::*;

use super::runner::{first_denied, policy_allows, ExecutionPolicy};
use crate::domain::effect::Effect;
use crate::domain::plan::{
    cap_in, cap_view, effect_capability_views, effects_caps, handlers_caps, id_in,
    required_matches, CapView, Capability, CapabilityRisk,
};
use crate::domain::workflow::Handler;

verus! {

/// Whether the policy denies some capability of the list.
pub open spec fn denies_some(caps: Seq<CapView>, policy: ExecutionPolicy) -> bool {
    exists|q: int| 0 <= q < caps.len() && !policy_allows(policy, (#[trigger] caps[q]).0, caps[q].1)
}

/// Whether the policy denies some of the required capabilities of a plan.
pub open spec fn denies_required(req: Seq<Capability>, policy: ExecutionPolicy) -> bool {
    exists|k: int|
        0 <= k < req.len() && !policy_allows(policy, (#[trigger] req[k]).id@, req[k].risk)
}

/// The risk that goes with a capability id: reads and local ones by name, all else writes.
pub open spec fn risk_of(id: Seq<char>) -> CapabilityRisk {
    if id == "network.http.read"@ || id == "aws.sqs.receive"@ {
        CapabilityRisk::Read
    } else if id == "workflow.emit"@ || id == "workflow.record"@ || id == "workflow.assert"@ {
        CapabilityRisk::Local
    } else {
        CapabilityRisk::Write
    }
}

/// Whether each capability of the list has the risk that goes with its id.
pub open spec fn risks_by_id(caps: Seq<CapView>) -> bool {
    forall|q: int| 0 <= q < caps.len() ==> (#[trigger] caps[q]).1 == risk_of(caps[q].0)
}

proof fn lemma_denied_iff(caps: Seq<CapView>, policy: ExecutionPolicy)
    ensures
        (first_denied(caps, policy) is Some) == denies_some(caps, policy),
    decreases caps.len(),
{
    if caps.len() > 0 {
        let init = caps.drop_last();
        lemma_denied_iff(init, policy);
        if denies_some(init, policy) {
            let q = choose|q: int|
                0 <= q < init.len() && !policy_allows(policy, (#[trigger] init[q]).0, init[q].1);
            assert(caps[q] == init[q]);
        }
        if denies_some(caps, policy) && !denies_some(init, policy) {
            let q = choose|q: int|
                0 <= q < caps.len() && !policy_allows(policy, (#[trigger] caps[q]).0, caps[q].1);
            if q < caps.len() - 1 {
                assert(init[q] == caps[q]);
            }
        }
        if !policy_allows(policy, caps.last().0, caps.last().1) {
            assert(caps[caps.len() - 1] == caps.last());
        }
    }
}

proof fn lemma_effect_risks(e: Effect)
    ensures
        risks_by_id(effect_capability_views(e)),
{
    reveal_strlit("workflow.emit");
    reveal_strlit("workflow.record");
    reveal_strlit("workflow.assert");
    reveal_strlit("network.http.read");
    reveal_strlit("network.http.write");
    reveal_strlit("network.graphql");
    reveal_strlit("aws.sns.publish");
    reveal_strlit("aws.sqs.send");
    reveal_strlit("aws.sqs.receive");
    reveal_strlit("aws.sqs.delete");
    reveal_strlit("network.websocket");
    let r = "network.http.read"@;
    let q = "aws.sqs.receive"@;
    let m = "workflow.emit"@;
    let c = "workflow.record"@;
    let a = "workflow.assert"@;
    let caps = effect_capability_views(e);
    let id0 = caps[0].0;
    match e {
        Effect::Rest(rest) => {
            if rest.method != crate::domain::effect::RestMethod::Get {
                assert(id0.len() == 18 && r.len() == 17 && q.len() == 15);
                assert(m.len() == 13 && c.len() == 15 && a.len() == 15);
            }
        },
        Effect::Graphql(_) => {
            assert(id0.len() == 15 && r.len() == 17 && m.len() == 13);
            assert(id0[0] != q[0] && id0[0] != c[0] && id0[0] != a[0]);
        },
        Effect::SnsPublish(_) => {
            assert(id0.len() == 15 && r.len() == 17 && m.len() == 13);
            assert(id0[5] != q[5] && id0[0] != c[0] && id0[0] != a[0]);
        },
        Effect::SqsSend(_) => {
            assert(id0.len() == 12 && r.len() == 17 && q.len() == 15);
            assert(m.len() == 13 && c.len() == 15 && a.len() == 15);
        },
        Effect::Emit { .. } => {
            assert(id0.len() == 13 && r.len() == 17 && q.len() == 15);
        },
        Effect::Record { .. } => {
            assert(id0.len() == 15 && r.len() == 17 && id0[0] != q[0]);
        },
        Effect::Assert(_) => {
            assert(id0.len() == 15 && r.len() == 17 && id0[0] != q[0]);
        },
        Effect::SqsReceive(sqs) => {
            assert(id0 == q);
            if sqs.delete_on_success {
                let d = caps[1].0;
                assert(d == "aws.sqs.delete"@);
                assert(d.len() == 14 && r.len() == 17 && q.len() == 15);
                assert(m.len() == 13 && c.len() == 15 && a.len() == 15);
            }
        },
        Effect::Websocket(_) => {
            assert(id0.len() == 17 && id0[8] != r[8] && q.len() == 15);
            assert(m.len() == 13 && c.len() == 15 && a.len() == 15);
        },
    }
    assert(caps[0].1 == risk_of(caps[0].0));
    assert forall|k: int| 0 <= k < caps.len() implies (#[trigger] caps[k]).1 == risk_of(
        caps[k].0,
    ) by {
        if k != 0 {
            assert(e is SqsReceive && k == 1);
        }
    }
}

proof fn lemma_concat_risks(a: Seq<CapView>, b: Seq<CapView>)
    requires
        risks_by_id(a),
        risks_by_id(b),
    ensures
        risks_by_id(a + b),
{
    assert forall|q: int| 0 <= q < (a + b).len() implies (#[trigger] (a + b)[q]).1 == risk_of(
        (a + b)[q].0,
    ) by {
        if q < a.len() {
            assert((a + b)[q] == a[q]);
        } else {
            assert((a + b)[q] == b[q - a.len()]);
        }
    }
}

proof fn lemma_effects_risks(es: Seq<Effect>)
    ensures
        risks_by_id(effects_caps(es)),
    decreases es.len(),
{
    if es.len() > 0 {
        lemma_effects_risks(es.drop_last());
        lemma_effect_risks(es.last());
        lemma_concat_risks(effects_caps(es.drop_last()), effect_capability_views(es.last()));
    }
}

/// Each capability that the effects of a workflow need has the risk that goes with its id.
pub proof fn lemma_handlers_risks(hs: Seq<Handler>)
    ensures
        risks_by_id(handlers_caps(hs)),
    decreases hs.len(),
{
    if hs.len() > 0 {
        lemma_handlers_risks(hs.drop_last());
        lemma_effects_risks(hs.last().effects@);
        lemma_concat_risks(handlers_caps(hs.drop_last()), effects_caps(hs.last().effects@));
    }
}

/// A run is refused exactly when its plan lists a required capability that the policy
/// denies: what the plan shows before a run is what the policy check of the run decides
/// on.
pub proof fn law_refusal_follows_plan(
    hs: Seq<Handler>,
    req: Seq<Capability>,
    policy: ExecutionPolicy,
)
    requires
        required_matches(req, handlers_caps(hs)),
    ensures
        (first_denied(handlers_caps(hs), policy) is Some) <==> denies_required(req, policy),
{
    let caps = handlers_caps(hs);
    lemma_denied_iff(caps, policy);
    lemma_handlers_risks(hs);
    if denies_some(caps, policy) {
        let q = choose|q: int|
            0 <= q < caps.len() && !policy_allows(policy, (#[trigger] caps[q]).0, caps[q].1);
        assert(id_in(caps[q].0, req));
        let k = choose|k: int| 0 <= k < req.len() && (#[trigger] req[k]).id@ == caps[q].0;
        assert(cap_in(cap_view(req[k]), caps));
        let p = choose|p: int| 0 <= p < caps.len() && #[trigger] caps[p] == cap_view(req[k]);
        assert(caps[p].1 == risk_of(caps[p].0));
        assert(!policy_allows(policy, req[k].id@, req[k].risk));
    }
    if denies_required(req, policy) {
        let k = choose|k: int|
            0 <= k < req.len() && !policy_allows(policy, (#[trigger] req[k]).id@, req[k].risk);
        assert(cap_in(cap_view(req[k]), caps));
        let p = choose|p: int| 0 <= p < caps.len() && #[trigger] caps[p] == cap_view(req[k]);
        assert(!policy_allows(policy, caps[p].0, caps[p].1));
    }
}

/// Approving all writes refuses no run.
pub proof fn law_allow_all_refuses_nothing(caps: Seq<CapView>, policy: ExecutionPolicy)
    requires
        policy.allow_all_writes,
    ensures
        first_denied(caps, policy) is None,
{
    lemma_denied_iff(caps, policy);
}

/// Read and local capabilities never refuse a run, whatever the policy.
pub proof fn law_reads_never_refused(caps: Seq<CapView>, policy: ExecutionPolicy)
    requires
        forall|q: int| 0 <= q < caps.len() ==> (#[trigger] caps[q]).1 != CapabilityRisk::Write,
    ensures
        first_denied(caps, policy) is None,
{
    lemma_denied_iff(caps, policy);
}

/// With no write approved, a run is refused exactly when one of its effects needs a write
/// capability.
pub proof fn law_deny_write_refuses_writes(caps: Seq<CapView>, policy: ExecutionPolicy)
    requires
        !policy.allow_all_writes,
        policy.allowed_capabilities@.len() == 0,
    ensures
        (first_denied(caps, policy) is Some) <==> exists|q: int|
            0 <= q < caps.len() && (#[trigger] caps[q]).1 == CapabilityRisk::Write,
{
    lemma_denied_iff(caps, policy);
}

/// With a list of approved capabilities, a run is refused exactly when one of its effects
/// needs a write capability that is not on the list.
pub proof fn law_approved_list_refuses_the_rest(caps: Seq<CapView>, policy: ExecutionPolicy)
    requires
        !policy.allow_all_writes,
    ensures
        (first_denied(caps, policy) is Some) <==> exists|q: int|
            0 <= q < caps.len() && (#[trigger] caps[q]).1 == CapabilityRisk::Write && !(exists|
                i: int,
            |
                0 <= i < policy.allowed_capabilities@.len()
                    && (#[trigger] policy.allowed_capabilities@[i])@ == caps[q].0),
{
    lemma_denied_iff(caps, policy);
}

} // verus!

//! The safety laws of the protocol, proved as an inductive invariant of the
//! simulator: `lemma_init_inv` shows the invariant at bootstrap,
//! `lemma_deliver_preserves_inv` shows every message delivery keeps it (and
//! never records a protocol violation), and `lemma_mutual_exclusion` /
//! `lemma_eating_holds_both` read the two safety properties off it. Together
//! they cover every state the system can reach, whatever order messages are
//! delivered in.

use crate::agent::{Agent, AgentState};
use crate::resource::ResourceState;
use crate::sim::{
    busy_env, deliver_spec, eat_env, lemma_deliver_spec_wf, release_env, start_env, take_env,
    taken_env, think_env, Envelope, SimView,
};
use crate::{AgentId, ResourceId};
use vstd::prelude::*;

verus! {

impl SimView {
    /// The agent at ring position `a`.
    pub open spec fn agent_at(&self, a: AgentId) -> Agent {
        self.agents[a as int]
    }

    /// The state of resource `r`.
    pub open spec fn resource_at(&self, r: ResourceId) -> ResourceState {
        self.resources[r as int]
    }

    /// Agent `a` currently holds resource `r`: the resource's own record —
    /// the single source of truth — names `a` as holder.
    pub open spec fn holds(&self, a: AgentId, r: ResourceId) -> bool {
        self.resource_at(r) == ResourceState::HeldBy(a)
    }

    /// Every recorded holder is one of the resource's two ring neighbors.
    pub open spec fn holders_ok(&self) -> bool {
        forall|r: ResourceId|
            r < self.resources.len() ==> match #[trigger] self.resource_at(r) {
                ResourceState::HeldBy(a) => a < self.n() && (r == self.agent_at(a).left || r
                    == self.agent_at(a).right),
                ResourceState::Available => true,
            }
    }

    /// A start signal travels at most once, and only towards an agent that
    /// is still idle.
    pub open spec fn starts_ok(&self) -> bool {
        forall|a: AgentId|
            #[trigger] self.cnt(start_env(a)) > 0 ==> a < self.n() && self.agent_at(a).state
                is Idle && self.cnt(start_env(a)) == 1
    }

    /// An `Eat` timer is in flight exactly towards a thinking agent, once.
    pub open spec fn eat_timers_ok(&self) -> bool {
        forall|a: AgentId|
            #[trigger] self.cnt(eat_env(a)) > 0 ==> a < self.n() && self.agent_at(a).state
                is Thinking && self.cnt(eat_env(a)) == 1
    }

    /// A `Think` timer is in flight exactly towards an eating agent, once.
    pub open spec fn think_timers_ok(&self) -> bool {
        forall|a: AgentId|
            #[trigger] self.cnt(think_env(a)) > 0 ==> a < self.n() && self.agent_at(a).state
                is Eating && self.cnt(think_env(a)) == 1
    }

    /// Outstanding engagements (a travelling `Take`, or its travelling
    /// reply) match the agent's state: none while idle, thinking or eating;
    /// one per side while hungry; exactly one — on the pending side — while
    /// awaiting the second resource; one in total after a first denial.
    pub open spec fn engagement_ok(&self) -> bool {
        forall|a: AgentId|
            a < self.n() ==> {
                let ag = #[trigger] self.agent_at(a);
                match ag.state {
                    AgentState::Idle => self.engaged(a, ag.left) == 0 && self.engaged(a, ag.right)
                        == 0,
                    AgentState::Thinking => self.engaged(a, ag.left) == 0 && self.engaged(
                        a,
                        ag.right,
                    ) == 0,
                    AgentState::Eating => self.engaged(a, ag.left) == 0 && self.engaged(
                        a,
                        ag.right,
                    ) == 0,
                    AgentState::Hungry => self.engaged(a, ag.left) == 1 && self.engaged(
                        a,
                        ag.right,
                    ) == 1,
                    AgentState::AwaitingSecond { held, pending } => self.engaged(a, pending) == 1
                        && self.engaged(a, held) == 0,
                    AgentState::FirstDenied => self.engaged(a, ag.left) + self.engaged(a, ag.right)
                        == 1,
                }
            }
    }

    /// Requests and replies travel only between a resource and one of its
    /// two ring neighbors.
    pub open spec fn engagement_in_ring(&self) -> bool {
        forall|a: AgentId, r: ResourceId|
            #![trigger self.cnt(take_env(a, r))]
            #![trigger self.cnt(taken_env(a, r))]
            #![trigger self.cnt(busy_env(a, r))]
            self.cnt(take_env(a, r)) + self.cnt(taken_env(a, r)) + self.cnt(busy_env(a, r)) > 0
                ==> a < self.n() && (r == self.agent_at(a).left || r == self.agent_at(a).right)
    }

    /// A travelling `Taken` reply is a grant the addressee has not seen yet:
    /// the resource is recorded as held by the addressee, who cannot have
    /// released what it does not yet know it holds.
    pub open spec fn grants_ok(&self) -> bool {
        forall|a: AgentId, r: ResourceId|
            #[trigger] self.cnt(taken_env(a, r)) > 0 ==> self.holds(a, r) && self.cnt(
                release_env(a, r),
            ) == 0
    }

    /// A travelling `Release` comes from the current holder, travels at most
    /// once per resource, and its sender has moved on: it is neither eating
    /// nor counting that resource as its held one.
    pub open spec fn releases_ok(&self) -> bool {
        forall|a: AgentId, r: ResourceId|
            #[trigger] self.cnt(release_env(a, r)) > 0 ==> {
                &&& a < self.n()
                &&& r == self.agent_at(a).left || r == self.agent_at(a).right
                &&& self.holds(a, r)
                &&& self.cnt(release_env(a, r)) == 1
                &&& !(self.agent_at(a).state is Eating)
                &&& !(self.agent_at(a).state matches AgentState::AwaitingSecond { held, .. }
                    && held == r)
            }
    }

    /// The converse of the timer clauses: an agent in a waiting state really
    /// has its wake-up message underway — an idle agent its start signal, a
    /// thinking agent its `Eat` timer, an eating agent its `Think` timer.
    pub open spec fn timers_present(&self) -> bool {
        forall|a: AgentId|
            a < self.n() ==> {
                let ag = #[trigger] self.agent_at(a);
                &&& (ag.state is Idle ==> self.cnt(start_env(a)) == 1)
                &&& (ag.state is Thinking ==> self.cnt(eat_env(a)) == 1)
                &&& (ag.state is Eating ==> self.cnt(think_env(a)) == 1)
            }
    }

    /// An agent that records holding really holds: in `AwaitingSecond` the
    /// held resource, while eating both of its resources.
    pub open spec fn holdings_ok(&self) -> bool {
        forall|a: AgentId|
            a < self.n() ==> {
                let ag = #[trigger] self.agent_at(a);
                &&& (ag.state matches AgentState::AwaitingSecond { held, .. } ==> self.holds(
                    a,
                    held,
                ))
                &&& (ag.state is Eating ==> self.holds(a, ag.left) && self.holds(a, ag.right))
            }
    }

    /// The inductive safety invariant: it holds of the bootstrap
    /// configuration, every delivery preserves it, and mutual exclusion and
    /// the safety of eating are immediate from it.
    pub open spec fn inv(&self) -> bool {
        &&& self.wf()
        &&& self.holders_ok()
        &&& self.starts_ok()
        &&& self.eat_timers_ok()
        &&& self.think_timers_ok()
        &&& self.engagement_ok()
        &&& self.engagement_in_ring()
        &&& self.grants_ok()
        &&& self.releases_ok()
        &&& self.timers_present()
        &&& self.holdings_ok()
    }
}

/// How removing one undelivered message changes each envelope's count.
proof fn lemma_counts_remove(f: Seq<Envelope>, k: int)
    requires
        0 <= k < f.len(),
    ensures
        forall|e: Envelope|
            #[trigger] f.remove(k).to_multiset().count(e) + (if e == f[k] {
                1nat
            } else {
                0nat
            }) == f.to_multiset().count(e),
{
    broadcast use vstd::seq_lib::group_to_multiset_ensures;
    broadcast use vstd::multiset::group_multiset_axioms;

    assert(f.contains(f[k]));
}

/// How appending one undelivered message changes each envelope's count.
proof fn lemma_counts_push(f: Seq<Envelope>, p: Envelope)
    ensures
        forall|e: Envelope|
            #[trigger] f.push(p).to_multiset().count(e) == f.to_multiset().count(e) + (if e == p {
                1nat
            } else {
                0nat
            }),
{
    broadcast use vstd::seq_lib::group_to_multiset_ensures;
    broadcast use vstd::multiset::group_multiset_axioms;

}

/// Counts after a delivery that answers with nothing: the delivered message
/// is gone, everything else is as it was.
proof fn lemma_bridge0(s: SimView, s2: SimView, k: int)
    requires
        0 <= k < s.in_flight.len(),
        s2.in_flight == s.in_flight.remove(k),
    ensures
        forall|e: Envelope|
            #[trigger] s2.cnt(e) + (if e == s.in_flight[k] {
                1nat
            } else {
                0nat
            }) == s.cnt(e),
        s.cnt(s.in_flight[k]) > 0,
{
    lemma_counts_remove(s.in_flight, k);
    assert forall|e: Envelope|
        #[trigger] s2.cnt(e) + (if e == s.in_flight[k] {
            1nat
        } else {
            0nat
        }) == s.cnt(e) by {
        assert(s2.in_flight.to_multiset().count(e) == s.in_flight.remove(k).to_multiset().count(e));
    }
    assert(s2.cnt(s.in_flight[k]) + 1nat == s.cnt(s.in_flight[k]));
}

/// Counts after a delivery that produces one new message.
proof fn lemma_bridge1(s: SimView, s2: SimView, k: int, m1: Envelope)
    requires
        0 <= k < s.in_flight.len(),
        s2.in_flight == s.in_flight.remove(k).push(m1),
    ensures
        forall|e: Envelope|
            #[trigger] s2.cnt(e) + (if e == s.in_flight[k] {
                1nat
            } else {
                0nat
            }) == s.cnt(e) + (if e == m1 {
                1nat
            } else {
                0nat
            }),
        s.cnt(s.in_flight[k]) > 0,
{
    lemma_counts_remove(s.in_flight, k);
    lemma_counts_push(s.in_flight.remove(k), m1);
    assert forall|e: Envelope|
        #[trigger] s2.cnt(e) + (if e == s.in_flight[k] {
            1nat
        } else {
            0nat
        }) == s.cnt(e) + (if e == m1 {
            1nat
        } else {
            0nat
        }) by {
        assert(s2.in_flight.to_multiset().count(e) == s.in_flight.remove(k).push(
            m1,
        ).to_multiset().count(e));
    }
    assert(s2.cnt(s.in_flight[k]) + 1nat == s.cnt(s.in_flight[k]) + (if s.in_flight[k] == m1 {
        1nat
    } else {
        0nat
    }));
}

/// Counts after a delivery that produces two new messages.
proof fn lemma_bridge2(s: SimView, s2: SimView, k: int, m1: Envelope, m2: Envelope)
    requires
        0 <= k < s.in_flight.len(),
        s2.in_flight == s.in_flight.remove(k).push(m1).push(m2),
    ensures
        forall|e: Envelope|
            #[trigger] s2.cnt(e) + (if e == s.in_flight[k] {
                1nat
            } else {
                0nat
            }) == s.cnt(e) + (if e == m1 {
                1nat
            } else {
                0nat
            }) + (if e == m2 {
                1nat
            } else {
                0nat
            }),
        s.cnt(s.in_flight[k]) > 0,
{
    lemma_counts_remove(s.in_flight, k);
    lemma_counts_push(s.in_flight.remove(k), m1);
    lemma_counts_push(s.in_flight.remove(k).push(m1), m2);
    assert forall|e: Envelope|
        #[trigger] s2.cnt(e) + (if e == s.in_flight[k] {
            1nat
        } else {
            0nat
        }) == s.cnt(e) + (if e == m1 {
            1nat
        } else {
            0nat
        }) + (if e == m2 {
            1nat
        } else {
            0nat
        }) by {
        assert(s2.in_flight.to_multiset().count(e) == s.in_flight.remove(k).push(m1).push(
            m2,
        ).to_multiset().count(e));
    }
    assert(s.cnt(s.in_flight[k]) > 0) by {
        broadcast use vstd::seq_lib::group_to_multiset_ensures;
        broadcast use vstd::multiset::group_multiset_axioms;

        assert(s.in_flight.contains(s.in_flight[k]));
    }
}

/// Counts after a delivery that produces three new messages.
proof fn lemma_bridge3(s: SimView, s2: SimView, k: int, m1: Envelope, m2: Envelope, m3: Envelope)
    requires
        0 <= k < s.in_flight.len(),
        s2.in_flight == s.in_flight.remove(k).push(m1).push(m2).push(m3),
    ensures
        forall|e: Envelope|
            #[trigger] s2.cnt(e) + (if e == s.in_flight[k] {
                1nat
            } else {
                0nat
            }) == s.cnt(e) + (if e == m1 {
                1nat
            } else {
                0nat
            }) + (if e == m2 {
                1nat
            } else {
                0nat
            }) + (if e == m3 {
                1nat
            } else {
                0nat
            }),
        s.cnt(s.in_flight[k]) > 0,
{
    lemma_counts_remove(s.in_flight, k);
    lemma_counts_push(s.in_flight.remove(k), m1);
    lemma_counts_push(s.in_flight.remove(k).push(m1), m2);
    lemma_counts_push(s.in_flight.remove(k).push(m1).push(m2), m3);
    assert forall|e: Envelope|
        #[trigger] s2.cnt(e) + (if e == s.in_flight[k] {
            1nat
        } else {
            0nat
        }) == s.cnt(e) + (if e == m1 {
            1nat
        } else {
            0nat
        }) + (if e == m2 {
            1nat
        } else {
            0nat
        }) + (if e == m3 {
            1nat
        } else {
            0nat
        }) by {
        assert(s2.in_flight.to_multiset().count(e) == s.in_flight.remove(k).push(m1).push(m2).push(
            m3,
        ).to_multiset().count(e));
    }
    assert(s.cnt(s.in_flight[k]) > 0) by {
        broadcast use vstd::seq_lib::group_to_multiset_ensures;
        broadcast use vstd::multiset::group_multiset_axioms;

        assert(s.in_flight.contains(s.in_flight[k]));
    }
}

/// Where each agent stands after an update of one agent's entry.
proof fn lemma_agents_update(s: SimView, s2: SimView, a: AgentId, ag2: Agent)
    requires
        a < s.agents.len(),
        s2.agents == s.agents.update(a as int, ag2),
    ensures
        forall|x: AgentId|
            x < s.agents.len() ==> #[trigger] s2.agent_at(x) == (if x == a {
                ag2
            } else {
                s.agent_at(x)
            }),
        s2.agents.len() == s.agents.len(),
{
}

/// Where each agent stands when no agent moved.
proof fn lemma_agents_same(s: SimView, s2: SimView)
    requires
        s2.agents == s.agents,
    ensures
        forall|x: AgentId| #[trigger] s2.agent_at(x) == s.agent_at(x),
{
}

/// Where each resource stands after an update of one resource's entry.
proof fn lemma_resources_update(s: SimView, s2: SimView, r: ResourceId, v: ResourceState)
    requires
        r < s.resources.len(),
        s2.resources == s.resources.update(r as int, v),
    ensures
        forall|y: ResourceId|
            y < s.resources.len() ==> #[trigger] s2.resource_at(y) == (if y == r {
                v
            } else {
                s.resource_at(y)
            }),
        s2.resources.len() == s.resources.len(),
{
}

/// Where each resource stands when none moved.
proof fn lemma_resources_same(s: SimView, s2: SimView)
    requires
        s2.resources == s.resources,
    ensures
        forall|y: ResourceId| #[trigger] s2.resource_at(y) == s.resource_at(y),
{
}

/// In a ring of at least two, an agent's two resources differ.
proof fn lemma_ring_distinct(n: int, a: int)
    requires
        2 <= n,
        0 <= a < n,
    ensures
        (a + 1) % n != a,
{
    if a + 1 < n {
        vstd::arithmetic::div_mod::lemma_small_mod((a + 1) as nat, n as nat);
    } else {
        vstd::arithmetic::div_mod::lemma_mod_self_0(n);
    }
}

/// The bootstrap configuration satisfies the invariant.
pub proof fn lemma_init_inv(s: SimView)
    requires
        s.is_init_ring(),
    ensures
        s.inv(),
{
    broadcast use vstd::seq_lib::group_to_multiset_ensures;
    broadcast use vstd::multiset::group_multiset_axioms;

    assert forall|i: int, j: int|
        0 <= i < s.in_flight.len() && 0 <= j < s.in_flight.len() && i != j implies s.in_flight[i]
        != s.in_flight[j] by {
        assert(s.in_flight[i] == start_env(i as usize));
        assert(s.in_flight[j] == start_env(j as usize));
    }
    assert(s.in_flight.no_duplicates());
    s.in_flight.lemma_multiset_has_no_duplicates();
    assert forall|e: Envelope| #[trigger] s.in_flight.contains(e) implies (e matches Envelope::ToAgent { agent, event }
        && agent < s.n() && event is StartThinking) by {
        let j = choose|j: int| 0 <= j < s.in_flight.len() && #[trigger] s.in_flight[j] == e;
        assert(e == start_env(j as usize));
    }
    assert(s.wf());
    assert(s.starts_ok());
    assert(s.eat_timers_ok());
    assert(s.think_timers_ok());
    assert(s.engagement_ok());
    assert(s.engagement_in_ring());
    assert(s.grants_ok());
    assert(s.releases_ok());
    assert forall|a: AgentId| a < s.n() implies s.cnt(start_env(a)) == 1 by {
        assert(s.in_flight[a as int] == start_env(a));
        assert(s.in_flight.contains(start_env(a)));
    }
    assert(s.timers_present());
    assert(s.holdings_ok());
}

/// Delivering a `Take` request preserves the invariant: an available
/// resource is granted (and the grant is consistent with every other claim),
/// a held one answers `Busy` and is unmoved.
#[verifier::rlimit(60)]
proof fn lemma_step_take(s: SimView, k: int, a: AgentId, r: ResourceId)
    requires
        s.inv(),
        0 <= k < s.in_flight.len(),
        s.in_flight[k] == take_env(a, r),
    ensures
        deliver_spec(s, k).inv(),
        deliver_spec(s, k).violations == s.violations,
{
    let s2 = deliver_spec(s, k);
    let rest = s.in_flight.remove(k);
    lemma_deliver_spec_wf(s, k);
    assert(s.env_wf(s.in_flight[k]));
    match s.resource_at(r) {
        ResourceState::Available => {
            assert(s2.in_flight == rest.push(taken_env(a, r)));
            lemma_bridge1(s, s2, k, taken_env(a, r));
            lemma_resources_update(s, s2, r, ResourceState::HeldBy(a));
            lemma_agents_same(s, s2);
            assert(s.cnt(take_env(a, r)) > 0);
            assert(a < s.n() && (r == s.agent_at(a).left || r == s.agent_at(a).right));
            assert(s.cnt(release_env(a, r)) == 0);
            assert(s2.holders_ok());
            assert(s2.starts_ok());
            assert(s2.eat_timers_ok());
            assert(s2.think_timers_ok());
            assert(s2.engagement_ok());
            assert(s2.engagement_in_ring());
            assert(s2.grants_ok());
            assert(s2.releases_ok());
            assert(s2.timers_present());
            assert(s2.holdings_ok());
        },
        ResourceState::HeldBy(x) => {
            assert(s2.in_flight == rest.push(busy_env(a, r)));
            lemma_bridge1(s, s2, k, busy_env(a, r));
            lemma_resources_update(s, s2, r, ResourceState::HeldBy(x));
            lemma_agents_same(s, s2);
            assert(s.cnt(take_env(a, r)) > 0);
            assert(a < s.n() && (r == s.agent_at(a).left || r == s.agent_at(a).right));
            assert(s2.holders_ok());
            assert(s2.starts_ok());
            assert(s2.eat_timers_ok());
            assert(s2.think_timers_ok());
            assert(s2.engagement_ok());
            assert(s2.engagement_in_ring());
            assert(s2.grants_ok());
            assert(s2.releases_ok());
            assert(s2.timers_present());
            assert(s2.holdings_ok());
        },
    }
}

/// Delivering a `Release` preserves the invariant: under the invariant a
/// travelling release always comes from the current holder, so the resource
/// becomes available and no violation is recorded.
proof fn lemma_step_release(s: SimView, k: int, a: AgentId, r: ResourceId)
    requires
        s.inv(),
        0 <= k < s.in_flight.len(),
        s.in_flight[k] == release_env(a, r),
    ensures
        deliver_spec(s, k).inv(),
        deliver_spec(s, k).violations == s.violations,
{
    let s2 = deliver_spec(s, k);
    let rest = s.in_flight.remove(k);
    lemma_deliver_spec_wf(s, k);
    assert(s.env_wf(s.in_flight[k]));
    assert(s2.in_flight == rest);
    lemma_bridge0(s, s2, k);
    assert(s.cnt(release_env(a, r)) > 0);
    assert(s.holds(a, r));
    lemma_resources_update(s, s2, r, ResourceState::Available);
    lemma_agents_same(s, s2);
    assert(s2.holders_ok());
    assert(s2.starts_ok());
    assert(s2.eat_timers_ok());
    assert(s2.think_timers_ok());
    assert(s2.engagement_ok());
    assert(s2.engagement_in_ring());
    assert(s2.grants_ok());
    assert(s2.releases_ok());
    assert(s2.timers_present());
    assert(s2.holdings_ok());
}

/// Delivering the start signal preserves the invariant.
proof fn lemma_step_start(s: SimView, k: int, a: AgentId)
    requires
        s.inv(),
        0 <= k < s.in_flight.len(),
        s.in_flight[k] == start_env(a),
    ensures
        deliver_spec(s, k).inv(),
        deliver_spec(s, k).violations == s.violations,
{
    let s2 = deliver_spec(s, k);
    let rest = s.in_flight.remove(k);
    lemma_deliver_spec_wf(s, k);
    assert(s.cnt(start_env(a)) > 0) by {
        broadcast use vstd::seq_lib::group_to_multiset_ensures;
        broadcast use vstd::multiset::group_multiset_axioms;

        assert(s.in_flight.contains(s.in_flight[k]));
    }
    let ag = s.agent_at(a);
    assert(ag.state is Idle);
    assert(s2.in_flight =~= rest.push(eat_env(a)));
    lemma_bridge1(s, s2, k, eat_env(a));
    lemma_agents_update(
        s,
        s2,
        a,
        Agent { left: ag.left, right: ag.right, state: AgentState::Thinking },
    );
    lemma_resources_same(s, s2);
    assert(s2.holders_ok());
    assert(s2.starts_ok());
    assert(s2.eat_timers_ok());
    assert(s2.think_timers_ok());
    assert(s2.engagement_ok());
    assert(s2.engagement_in_ring());
    assert(s2.grants_ok());
    assert(s2.releases_ok());
    assert(s2.timers_present());
    assert(s2.holdings_ok());
}

/// Delivering an `Eat` timer preserves the invariant: the thinking agent
/// goes hungry and opens one engagement with each of its two resources.
proof fn lemma_step_eat(s: SimView, k: int, a: AgentId)
    requires
        s.inv(),
        0 <= k < s.in_flight.len(),
        s.in_flight[k] == eat_env(a),
    ensures
        deliver_spec(s, k).inv(),
        deliver_spec(s, k).violations == s.violations,
{
    let s2 = deliver_spec(s, k);
    let rest = s.in_flight.remove(k);
    lemma_deliver_spec_wf(s, k);
    assert(s.cnt(eat_env(a)) > 0) by {
        broadcast use vstd::seq_lib::group_to_multiset_ensures;
        broadcast use vstd::multiset::group_multiset_axioms;

        assert(s.in_flight.contains(s.in_flight[k]));
    }
    let ag = s.agent_at(a);
    assert(ag.state is Thinking);
    lemma_ring_distinct(s.n(), a as int);
    assert(ag.left != ag.right);
    assert(s2.in_flight =~= rest.push(take_env(a, ag.left)).push(take_env(a, ag.right)));
    lemma_bridge2(s, s2, k, take_env(a, ag.left), take_env(a, ag.right));
    lemma_agents_update(
        s,
        s2,
        a,
        Agent { left: ag.left, right: ag.right, state: AgentState::Hungry },
    );
    lemma_resources_same(s, s2);
    assert(s2.holders_ok());
    assert(s2.starts_ok());
    assert(s2.eat_timers_ok());
    assert(s2.think_timers_ok());
    assert(s2.engagement_ok());
    assert(s2.engagement_in_ring());
    assert(s2.grants_ok());
    assert(s2.releases_ok());
    assert(s2.timers_present());
    assert(s2.holdings_ok());
}

/// Delivering a `Think` timer preserves the invariant: the eating agent
/// puts both resources down (two releases from their recorded holder) and
/// goes back to thinking.
proof fn lemma_step_think(s: SimView, k: int, a: AgentId)
    requires
        s.inv(),
        0 <= k < s.in_flight.len(),
        s.in_flight[k] == think_env(a),
    ensures
        deliver_spec(s, k).inv(),
        deliver_spec(s, k).violations == s.violations,
{
    let s2 = deliver_spec(s, k);
    let rest = s.in_flight.remove(k);
    lemma_deliver_spec_wf(s, k);
    assert(s.cnt(think_env(a)) > 0) by {
        broadcast use vstd::seq_lib::group_to_multiset_ensures;
        broadcast use vstd::multiset::group_multiset_axioms;

        assert(s.in_flight.contains(s.in_flight[k]));
    }
    let ag = s.agent_at(a);
    assert(ag.state is Eating);
    lemma_ring_distinct(s.n(), a as int);
    assert(ag.left != ag.right);
    assert(s2.in_flight =~= rest.push(release_env(a, ag.left)).push(release_env(a, ag.right)).push(
        eat_env(a),
    ));
    lemma_bridge3(s, s2, k, release_env(a, ag.left), release_env(a, ag.right), eat_env(a));
    lemma_agents_update(
        s,
        s2,
        a,
        Agent { left: ag.left, right: ag.right, state: AgentState::Thinking },
    );
    lemma_resources_same(s, s2);
    assert(s2.holders_ok());
    assert(s2.starts_ok());
    assert(s2.eat_timers_ok());
    assert(s2.think_timers_ok());
    assert(s2.engagement_ok());
    assert(s2.engagement_in_ring());
    assert(s2.grants_ok());
    assert(s2.releases_ok());
    assert(s2.timers_present());
    assert(s2.holdings_ok());
}

/// Delivering a `Taken` reply preserves the invariant, whichever of the
/// three acquiring states the addressee is in.
proof fn lemma_step_taken(s: SimView, k: int, a: AgentId, r: ResourceId)
    requires
        s.inv(),
        0 <= k < s.in_flight.len(),
        s.in_flight[k] == taken_env(a, r),
    ensures
        deliver_spec(s, k).inv(),
        deliver_spec(s, k).violations == s.violations,
{
    let s2 = deliver_spec(s, k);
    let rest = s.in_flight.remove(k);
    lemma_deliver_spec_wf(s, k);
    assert(s.cnt(taken_env(a, r)) > 0) by {
        broadcast use vstd::seq_lib::group_to_multiset_ensures;
        broadcast use vstd::multiset::group_multiset_axioms;

        assert(s.in_flight.contains(s.in_flight[k]));
    }
    let ag = s.agent_at(a);
    assert(a < s.n() && (r == ag.left || r == ag.right));
    lemma_ring_distinct(s.n(), a as int);
    assert(ag.left != ag.right);
    assert(s.holds(a, r) && s.cnt(release_env(a, r)) == 0);
    match ag.state {
        AgentState::Hungry => {
            assert(s2.in_flight =~= rest);
            lemma_bridge0(s, s2, k);
            lemma_agents_update(
                s,
                s2,
                a,
                Agent {
                    left: ag.left,
                    right: ag.right,
                    state: crate::agent::agent_next(ag, crate::agent::AgentEvent::Taken(r)),
                },
            );
            lemma_resources_same(s, s2);
            assert(s2.holders_ok());
            assert(s2.starts_ok());
            assert(s2.eat_timers_ok());
            assert(s2.think_timers_ok());
            assert(s2.engagement_ok());
            assert(s2.engagement_in_ring());
            assert(s2.grants_ok());
            assert(s2.releases_ok());
            assert(s2.timers_present());
            assert(s2.holdings_ok());
        },
        AgentState::AwaitingSecond { held, pending } => {
            assert(s.engaged(a, held) == 0);
            assert(r != held);
            assert(r == pending);
            assert(s2.in_flight =~= rest.push(think_env(a)));
            lemma_bridge1(s, s2, k, think_env(a));
            lemma_agents_update(
                s,
                s2,
                a,
                Agent {
                    left: ag.left,
                    right: ag.right,
                    state: crate::agent::agent_next(ag, crate::agent::AgentEvent::Taken(r)),
                },
            );
            lemma_resources_same(s, s2);
            assert(s.cnt(release_env(a, held)) == 0);
            assert(s2.holders_ok());
            assert(s2.starts_ok());
            assert(s2.eat_timers_ok());
            assert(s2.think_timers_ok());
            assert(s2.engagement_ok());
            assert(s2.engagement_in_ring());
            assert(s2.grants_ok());
            assert(s2.releases_ok());
            assert(s2.timers_present());
            assert(s2.holdings_ok());
        },
        AgentState::FirstDenied => {
            assert(s2.in_flight =~= rest.push(release_env(a, r)).push(eat_env(a)));
            lemma_bridge2(s, s2, k, release_env(a, r), eat_env(a));
            lemma_agents_update(
                s,
                s2,
                a,
                Agent {
                    left: ag.left,
                    right: ag.right,
                    state: crate::agent::agent_next(ag, crate::agent::AgentEvent::Taken(r)),
                },
            );
            lemma_resources_same(s, s2);
            assert(s2.holders_ok());
            assert(s2.starts_ok());
            assert(s2.eat_timers_ok());
            assert(s2.think_timers_ok());
            assert(s2.engagement_ok());
            assert(s2.engagement_in_ring());
            assert(s2.grants_ok());
            assert(s2.releases_ok());
            assert(s2.timers_present());
            assert(s2.holdings_ok());
        },
        _ => {
            assert(s.engaged(a, r) > 0);
            assert(false);
        },
    }
}

/// Delivering a `Busy` reply preserves the invariant: the denied agent backs
/// off, releasing its held resource first if it had one.
proof fn lemma_step_busy(s: SimView, k: int, a: AgentId, r: ResourceId)
    requires
        s.inv(),
        0 <= k < s.in_flight.len(),
        s.in_flight[k] == busy_env(a, r),
    ensures
        deliver_spec(s, k).inv(),
        deliver_spec(s, k).violations == s.violations,
{
    let s2 = deliver_spec(s, k);
    let rest = s.in_flight.remove(k);
    lemma_deliver_spec_wf(s, k);
    assert(s.cnt(busy_env(a, r)) > 0) by {
        broadcast use vstd::seq_lib::group_to_multiset_ensures;
        broadcast use vstd::multiset::group_multiset_axioms;

        assert(s.in_flight.contains(s.in_flight[k]));
    }
    let ag = s.agent_at(a);
    assert(a < s.n() && (r == ag.left || r == ag.right));
    lemma_ring_distinct(s.n(), a as int);
    assert(ag.left != ag.right);
    match ag.state {
        AgentState::Hungry => {
            assert(s2.in_flight =~= rest);
            lemma_bridge0(s, s2, k);
            lemma_agents_update(
                s,
                s2,
                a,
                Agent { left: ag.left, right: ag.right, state: AgentState::FirstDenied },
            );
            lemma_resources_same(s, s2);
            assert(s2.holders_ok());
            assert(s2.starts_ok());
            assert(s2.eat_timers_ok());
            assert(s2.think_timers_ok());
            assert(s2.engagement_ok());
            assert(s2.engagement_in_ring());
            assert(s2.grants_ok());
            assert(s2.releases_ok());
            assert(s2.timers_present());
            assert(s2.holdings_ok());
        },
        AgentState::AwaitingSecond { held, pending } => {
            assert(s.engaged(a, held) == 0);
            assert(r != held);
            assert(r == pending);
            assert(s.cnt(release_env(a, held)) == 0);
            assert(s.holds(a, held));
            assert(s2.in_flight =~= rest.push(release_env(a, held)).push(eat_env(a)));
            lemma_bridge2(s, s2, k, release_env(a, held), eat_env(a));
            lemma_agents_update(
                s,
                s2,
                a,
                Agent { left: ag.left, right: ag.right, state: AgentState::Thinking },
            );
            lemma_resources_same(s, s2);
            assert(s2.holders_ok());
            assert(s2.starts_ok());
            assert(s2.eat_timers_ok());
            assert(s2.think_timers_ok());
            assert(s2.engagement_ok());
            assert(s2.engagement_in_ring());
            assert(s2.grants_ok());
            assert(s2.releases_ok());
            assert(s2.timers_present());
            assert(s2.holdings_ok());
        },
        AgentState::FirstDenied => {
            assert(s2.in_flight =~= rest.push(eat_env(a)));
            lemma_bridge1(s, s2, k, eat_env(a));
            lemma_agents_update(
                s,
                s2,
                a,
                Agent { left: ag.left, right: ag.right, state: AgentState::Thinking },
            );
            lemma_resources_same(s, s2);
            assert(s2.holders_ok());
            assert(s2.starts_ok());
            assert(s2.eat_timers_ok());
            assert(s2.think_timers_ok());
            assert(s2.engagement_ok());
            assert(s2.engagement_in_ring());
            assert(s2.grants_ok());
            assert(s2.releases_ok());
            assert(s2.timers_present());
            assert(s2.holdings_ok());
        },
        _ => {
            assert(s.engaged(a, r) > 0);
            assert(false);
        },
    }
}

/// Every delivery preserves the invariant, and — since under the invariant
/// no actor ever receives a message its state does not expect — never
/// records a protocol violation: violations are unreachable under correct
/// protocol execution.
pub proof fn lemma_deliver_preserves_inv(s: SimView, k: int)
    requires
        s.inv(),
        0 <= k < s.in_flight.len(),
    ensures
        deliver_spec(s, k).inv(),
        deliver_spec(s, k).violations == s.violations,
{
    match s.in_flight[k] {
        Envelope::ToResource { resource, msg } => match msg {
            crate::resource::ResourceMsg::Take(a) => lemma_step_take(s, k, a, resource),
            crate::resource::ResourceMsg::Release(a) => lemma_step_release(s, k, a, resource),
        },
        Envelope::ToAgent { agent, event } => match event {
            crate::agent::AgentEvent::StartThinking => lemma_step_start(s, k, agent),
            crate::agent::AgentEvent::Eat => lemma_step_eat(s, k, agent),
            crate::agent::AgentEvent::Think => lemma_step_think(s, k, agent),
            crate::agent::AgentEvent::Taken(r) => lemma_step_taken(s, k, agent, r),
            crate::agent::AgentEvent::Busy(r) => lemma_step_busy(s, k, agent, r),
        },
    }
}

/// Global progress: at any reachable instant the system as a whole can take
/// a step — some message is always undelivered, so the ring never reaches a
/// state in which every agent is permanently blocked. (Which message is
/// delivered next is the scheduler's choice; the protocol makes no fairness
/// promise for a single agent.)
pub proof fn lemma_no_global_deadlock(s: SimView)
    requires
        s.inv(),
    ensures
        s.in_flight.len() > 0,
{
    broadcast use vstd::seq_lib::group_to_multiset_ensures;
    broadcast use vstd::multiset::group_multiset_axioms;

    let ag = s.agent_at(0);
    let witness = match ag.state {
        AgentState::Idle => start_env(0),
        AgentState::Thinking => eat_env(0),
        AgentState::Eating => think_env(0),
        AgentState::Hungry => if s.cnt(take_env(0, ag.left)) > 0 {
            take_env(0, ag.left)
        } else if s.cnt(taken_env(0, ag.left)) > 0 {
            taken_env(0, ag.left)
        } else {
            busy_env(0, ag.left)
        },
        AgentState::AwaitingSecond { held, pending } => if s.cnt(take_env(0, pending)) > 0 {
            take_env(0, pending)
        } else if s.cnt(taken_env(0, pending)) > 0 {
            taken_env(0, pending)
        } else {
            busy_env(0, pending)
        },
        AgentState::FirstDenied => if s.cnt(take_env(0, ag.left)) > 0 {
            take_env(0, ag.left)
        } else if s.cnt(taken_env(0, ag.left)) > 0 {
            taken_env(0, ag.left)
        } else if s.cnt(busy_env(0, ag.left)) > 0 {
            busy_env(0, ag.left)
        } else if s.cnt(take_env(0, ag.right)) > 0 {
            take_env(0, ag.right)
        } else if s.cnt(taken_env(0, ag.right)) > 0 {
            taken_env(0, ag.right)
        } else {
            busy_env(0, ag.right)
        },
    };
    assert(s.cnt(witness) > 0);
    assert(s.in_flight.to_multiset().len() >= s.cnt(witness));
}

/// Mutual exclusion: at any reachable instant — the invariant holds at
/// bootstrap and is preserved by every delivery — at most one agent holds a
/// resource.
pub proof fn lemma_mutual_exclusion(s: SimView, r: ResourceId, a1: AgentId, a2: AgentId)
    requires
        s.inv(),
        s.holds(a1, r),
        s.holds(a2, r),
    ensures
        a1 == a2,
{
}

/// Safety of eating: at any reachable instant, an eating agent holds both
/// its left and its right resource.
pub proof fn lemma_eating_holds_both(s: SimView, a: AgentId)
    requires
        s.inv(),
        a < s.n(),
        s.agent_at(a).state is Eating,
    ensures
        s.holds(a, s.agent_at(a).left),
        s.holds(a, s.agent_at(a).right),
{
}

} // verus!

//! A deterministic simulator of one ring: `n` resource actors, `n` agent
//! actors, and the multiset of undelivered messages between them.
//!
//! Message delivery to one mailbox has no guaranteed order across senders,
//! so the simulator lets its caller pick which undelivered message goes
//! next: a test drives one chosen interleaving, while the safety laws in
//! `laws` are proved for every choice.

use crate::agent::{
    agent_actions, agent_next, agent_pair_wf, agent_violates, Agent, AgentAction, AgentEvent,
};
use crate::resource::{resource_next, resource_reply, ResourceMsg, ResourceReply, ResourceState};
use crate::{AgentId, ResourceId};
use vstd::prelude::*;

verus! {

/// One undelivered message: a request on its way to a resource's mailbox, or
/// a reply, timer or start signal on its way to an agent's mailbox.
#[derive(Clone, Copy, PartialEq, Eq, Structural, Debug)]
pub enum Envelope {
    ToResource { resource: ResourceId, msg: ResourceMsg },
    ToAgent { agent: AgentId, event: AgentEvent },
}

/// The bootstrap's start signal on its way to agent `a`.
pub open spec fn start_env(a: AgentId) -> Envelope {
    Envelope::ToAgent { agent: a, event: AgentEvent::StartThinking }
}

/// A delayed `Eat` timer message on its way back to agent `a`.
pub open spec fn eat_env(a: AgentId) -> Envelope {
    Envelope::ToAgent { agent: a, event: AgentEvent::Eat }
}

/// A delayed `Think` timer message on its way back to agent `a`.
pub open spec fn think_env(a: AgentId) -> Envelope {
    Envelope::ToAgent { agent: a, event: AgentEvent::Think }
}

/// A `Take` request from agent `a` on its way to resource `r`.
pub open spec fn take_env(a: AgentId, r: ResourceId) -> Envelope {
    Envelope::ToResource { resource: r, msg: ResourceMsg::Take(a) }
}

/// A `Release` request from agent `a` on its way to resource `r`.
pub open spec fn release_env(a: AgentId, r: ResourceId) -> Envelope {
    Envelope::ToResource { resource: r, msg: ResourceMsg::Release(a) }
}

/// A `Taken` reply from resource `r` on its way to agent `a`.
pub open spec fn taken_env(a: AgentId, r: ResourceId) -> Envelope {
    Envelope::ToAgent { agent: a, event: AgentEvent::Taken(r) }
}

/// A `Busy` reply from resource `r` on its way to agent `a`.
pub open spec fn busy_env(a: AgentId, r: ResourceId) -> Envelope {
    Envelope::ToAgent { agent: a, event: AgentEvent::Busy(r) }
}

/// The envelope one agent action turns into. A scheduled timer becomes an
/// ordinary message to the agent itself; the simulator abstracts the delay
/// away, since delivery order is the caller's choice anyway.
pub open spec fn env_of_action(a: AgentId, act: AgentAction) -> Envelope {
    match act {
        AgentAction::SendTake(r) => take_env(a, r),
        AgentAction::SendRelease(r) => release_env(a, r),
        AgentAction::ScheduleEat(_) => eat_env(a),
        AgentAction::ScheduleThink(_) => think_env(a),
    }
}

/// The undelivered messages after agent `a` performed `acts`: the envelope
/// of each action, appended in order.
pub open spec fn apply_actions(f: Seq<Envelope>, a: AgentId, acts: Seq<AgentAction>) -> Seq<
    Envelope,
> {
    f + acts.map_values(|act: AgentAction| env_of_action(a, act))
}

/// The violation counter after one more contained protocol violation.
pub open spec fn bump(v: u64) -> u64 {
    if v < u64::MAX {
        (v + 1) as u64
    } else {
        v
    }
}

/// The whole system at specification level: one state per resource, one
/// agent per ring position, the undelivered messages, and how many protocol
/// violations were contained so far.
pub struct SimView {
    pub resources: Seq<ResourceState>,
    pub agents: Seq<Agent>,
    pub in_flight: Seq<Envelope>,
    pub violations: u64,
}

impl SimView {
    /// Ring size.
    pub open spec fn n(&self) -> int {
        self.agents.len() as int
    }

    /// How many copies of one envelope are undelivered.
    pub open spec fn cnt(&self, e: Envelope) -> nat {
        self.in_flight.to_multiset().count(e)
    }

    /// How many `Take` requests or replies are in flight between agent `a`
    /// and resource `r`: the agent's outstanding engagement with `r`.
    pub open spec fn engaged(&self, a: AgentId, r: ResourceId) -> nat {
        self.cnt(take_env(a, r)) + self.cnt(taken_env(a, r)) + self.cnt(busy_env(a, r))
    }

    /// An envelope is well-addressed: its target exists and a request or
    /// reply travels only between a resource and one of its two ring
    /// neighbors.
    pub open spec fn env_wf(&self, e: Envelope) -> bool {
        match e {
            Envelope::ToAgent { agent, event } => {
                &&& agent < self.n()
                &&& match event {
                    AgentEvent::Taken(r) => r == self.agents[agent as int].left || r
                        == self.agents[agent as int].right,
                    AgentEvent::Busy(r) => r == self.agents[agent as int].left || r
                        == self.agents[agent as int].right,
                    _ => true,
                }
            },
            Envelope::ToResource { resource, msg } => {
                &&& resource < self.resources.len()
                &&& match msg {
                    ResourceMsg::Take(a) => a < self.n() && (resource == self.agents[a as int].left
                        || resource == self.agents[a as int].right),
                    ResourceMsg::Release(a) => a < self.n() && (resource
                        == self.agents[a as int].left || resource == self.agents[a as int].right),
                }
            },
        }
    }

    /// Well-formed shape: as many resources as agents (at least two), agent
    /// `i` bound to resources `i` and `(i + 1) % n`, a held pair recorded in
    /// `AwaitingSecond` really being the agent's own pair, and every
    /// undelivered message well-addressed.
    pub open spec fn wf(&self) -> bool {
        &&& self.resources.len() == self.agents.len()
        &&& 2 <= self.agents.len()
        &&& self.agents.len() <= usize::MAX
        &&& forall|i: int|
            0 <= i < self.n() ==> (#[trigger] self.agents[i]).left == i && self.agents[i].right == (
            i + 1) % self.n()
        &&& forall|i: int| 0 <= i < self.n() ==> agent_pair_wf(#[trigger] self.agents[i])
        &&& forall|k: int|
            0 <= k < self.in_flight.len() ==> self.env_wf(#[trigger] self.in_flight[k])
    }

    /// The bootstrap configuration: every resource available, every agent
    /// idle and wired into the ring, exactly one `StartThinking` message per
    /// agent undelivered, and no violation recorded.
    pub open spec fn is_init_ring(&self) -> bool {
        &&& self.resources.len() == self.n()
        &&& 2 <= self.n()
        &&& self.n() <= usize::MAX
        &&& forall|i: int| 0 <= i < self.n() ==> (#[trigger] self.resources[i]) is Available
        &&& forall|i: int|
            0 <= i < self.n() ==> (#[trigger] self.agents[i]) == (Agent {
                left: i as usize,
                right: ((i + 1) % self.n()) as usize,
                state: crate::agent::AgentState::Idle,
            })
        &&& self.in_flight.len() == self.n()
        &&& forall|k: int| 0 <= k < self.n() ==> #[trigger] self.in_flight[k] == start_env(k as usize)
        &&& self.violations == 0
    }
}

/// What delivering the `k`-th undelivered message does to the system: the
/// target actor takes one step of its state machine and the messages it
/// produces join the undelivered ones. A resource's `Taken`/`Busy` answer
/// travels back as a reply; `Released` confirms a fire-and-forget request
/// and travels nowhere; a rejected release or an unexpected agent event is
/// dropped and counted as a contained protocol violation.
pub open spec fn deliver_spec(s: SimView, k: int) -> SimView {
    let e = s.in_flight[k];
    let rest = s.in_flight.remove(k);
    match e {
        Envelope::ToResource { resource, msg } => {
            let before = s.resources[resource as int];
            let reply = resource_reply(before, msg);
            let requester = match msg {
                ResourceMsg::Take(a) => a,
                ResourceMsg::Release(a) => a,
            };
            SimView {
                resources: s.resources.update(resource as int, resource_next(before, msg)),
                agents: s.agents,
                in_flight: match reply {
                    ResourceReply::Taken => rest.push(taken_env(requester, resource)),
                    ResourceReply::Busy => rest.push(busy_env(requester, resource)),
                    ResourceReply::Released => rest,
                    ResourceReply::Rejected => rest,
                },
                violations: if reply is Rejected {
                    bump(s.violations)
                } else {
                    s.violations
                },
            }
        },
        Envelope::ToAgent { agent, event } => {
            let ag = s.agents[agent as int];
            SimView {
                resources: s.resources,
                agents: s.agents.update(
                    agent as int,
                    Agent { left: ag.left, right: ag.right, state: agent_next(ag, event) },
                ),
                in_flight: apply_actions(rest, agent, agent_actions(ag, event)),
                violations: if agent_violates(ag, event) {
                    bump(s.violations)
                } else {
                    s.violations
                },
            }
        },
    }
}

/// A whole ring, executable: the resources' and agents' states and the
/// undelivered messages, in ring order.
pub struct Simulation {
    pub resources: Vec<ResourceState>,
    pub agents: Vec<Agent>,
    pub in_flight: Vec<Envelope>,
    pub violations: u64,
}

impl View for Simulation {
    type V = SimView;

    open spec fn view(&self) -> SimView {
        SimView {
            resources: self.resources@,
            agents: self.agents@,
            in_flight: self.in_flight@,
            violations: self.violations,
        }
    }
}

impl Simulation {
    /// Build the bootstrap configuration of a ring of `n` agents and `n`
    /// resources: agent `i` bound to resources `i` and `(i + 1) % n`, every
    /// resource available, every agent idle, and one `StartThinking` message
    /// addressed to each agent.
    pub fn new_ring(n: usize) -> (s: Simulation)
        requires
            2 <= n,
        ensures
            s@.is_init_ring(),
            s@.n() == n,
    {
        let mut resources: Vec<ResourceState> = Vec::new();
        let mut agents: Vec<Agent> = Vec::new();
        let mut in_flight: Vec<Envelope> = Vec::new();
        let mut i: usize = 0;
        while i < n
            invariant
                i <= n,
                2 <= n,
                resources@.len() == i,
                agents@.len() == i,
                in_flight@.len() == i,
                forall|j: int| 0 <= j < i ==> (#[trigger] resources@[j]) is Available,
                forall|j: int|
                    0 <= j < i ==> (#[trigger] agents@[j]) == (Agent {
                        left: j as usize,
                        right: ((j + 1) % (n as int)) as usize,
                        state: crate::agent::AgentState::Idle,
                    }),
                forall|k: int| 0 <= k < i ==> #[trigger] in_flight@[k] == start_env(k as usize),
            decreases n - i,
        {
            let right = if i + 1 == n {
                0
            } else {
                i + 1
            };
            proof {
                if i + 1 == n {
                    vstd::arithmetic::div_mod::lemma_mod_self_0(n as int);
                } else {
                    vstd::arithmetic::div_mod::lemma_small_mod((i + 1) as nat, n as nat);
                }
            }
            resources.push(ResourceState::Available);
            agents.push(Agent { left: i, right, state: crate::agent::AgentState::Idle });
            in_flight.push(
                Envelope::ToAgent { agent: i, event: AgentEvent::StartThinking },
            );
            i = i + 1;
        }
        Simulation { resources, agents, in_flight, violations: 0 }
    }

    /// Deliver the undelivered message at position `k`: remove it, let the
    /// addressed actor handle it, and append whatever messages the handling
    /// produced. The caller's choice of `k` selects one interleaving of the
    /// actors' mailboxes.
    pub fn deliver(&mut self, k: usize)
        requires
            old(self)@.wf(),
            k < old(self)@.in_flight.len(),
        ensures
            final(self)@ == deliver_spec(old(self)@, k as int),
            final(self)@.wf(),
    {
        proof {
            lemma_deliver_spec_wf(self@, k as int);
        }
        let e = self.in_flight.remove(k);
        match e {
            Envelope::ToResource { resource, msg } => {
                let mut rs = self.resources[resource];
                let reply = rs.handle(&msg);
                self.resources[resource] = rs;
                let requester = match msg {
                    ResourceMsg::Take(a) => a,
                    ResourceMsg::Release(a) => a,
                };
                match reply {
                    ResourceReply::Taken => {
                        self.in_flight.push(
                            Envelope::ToAgent { agent: requester, event: AgentEvent::Taken(resource) },
                        );
                    },
                    ResourceReply::Busy => {
                        self.in_flight.push(
                            Envelope::ToAgent { agent: requester, event: AgentEvent::Busy(resource) },
                        );
                    },
                    ResourceReply::Released => {},
                    ResourceReply::Rejected => {
                        self.violations = if self.violations < u64::MAX {
                            self.violations + 1
                        } else {
                            self.violations
                        };
                    },
                }
            },
            Envelope::ToAgent { agent, event } => {
                let mut ag = self.agents[agent];
                let (actions, violated) = ag.handle(&event);
                self.agents[agent] = ag;
                if violated {
                    self.violations = if self.violations < u64::MAX {
                        self.violations + 1
                    } else {
                        self.violations
                    };
                }
                let ghost rest = self.in_flight@;
                let ghost acts = actions@;
                let ghost resources_snap = self.resources@;
                let ghost agents_snap = self.agents@;
                let ghost violations_snap = self.violations;
                let mut j: usize = 0;
                while j < actions.len()
                    invariant
                        j <= actions.len(),
                        actions@ == acts,
                        self.in_flight@ == apply_actions(rest, agent, acts.subrange(0, j as int)),
                        self.resources@ == resources_snap,
                        self.agents@ == agents_snap,
                        self.violations == violations_snap,
                    decreases actions.len() - j,
                {
                    let act = actions[j];
                    let env = match act {
                        AgentAction::SendTake(r) => Envelope::ToResource {
                            resource: r,
                            msg: ResourceMsg::Take(agent),
                        },
                        AgentAction::SendRelease(r) => Envelope::ToResource {
                            resource: r,
                            msg: ResourceMsg::Release(agent),
                        },
                        AgentAction::ScheduleEat(_) => Envelope::ToAgent {
                            agent,
                            event: AgentEvent::Eat,
                        },
                        AgentAction::ScheduleThink(_) => Envelope::ToAgent {
                            agent,
                            event: AgentEvent::Think,
                        },
                    };
                    self.in_flight.push(env);
                    proof {
                        assert(apply_actions(rest, agent, acts.subrange(0, j as int + 1))
                            =~= apply_actions(rest, agent, acts.subrange(0, j as int)).push(
                            env_of_action(agent, acts[j as int]),
                        ));
                    }
                    j = j + 1;
                }
                proof {
                    assert(acts.subrange(0, acts.len() as int) =~= acts);
                }
            },
        }
    }
}

/// Delivering a message keeps the system well-formed: the step touches one
/// actor, keeps the wiring, and produces only well-addressed messages.
pub proof fn lemma_deliver_spec_wf(s: SimView, k: int)
    requires
        s.wf(),
        0 <= k < s.in_flight.len(),
    ensures
        deliver_spec(s, k).wf(),
{
    let s2 = deliver_spec(s, k);
    let e = s.in_flight[k];
    let rest = s.in_flight.remove(k);
    assert(s.env_wf(e));
    s.in_flight.remove_ensures(k);
    assert(forall|j: int| 0 <= j < rest.len() ==> s.env_wf(#[trigger] rest[j]));
    match e {
        Envelope::ToResource { resource, msg } => {
            assert(forall|j: int|
                0 <= j < s2.in_flight.len() ==> s2.env_wf(#[trigger] s2.in_flight[j]));
        },
        Envelope::ToAgent { agent, event } => {
            let ag = s.agents[agent as int];
            crate::agent::lemma_agent_actions_wf(ag, event);
            let acts = agent_actions(ag, event);
            let pushed = acts.map_values(|act: AgentAction| env_of_action(agent, act));
            assert(forall|i: int|
                0 <= i < s2.n() ==> (#[trigger] s2.agents[i]).left == s.agents[i].left
                    && s2.agents[i].right == s.agents[i].right);
            assert forall|j: int| 0 <= j < s2.in_flight.len() implies s2.env_wf(
                #[trigger] s2.in_flight[j],
            ) by {
                if j < rest.len() {
                    assert(s2.in_flight[j] == rest[j]);
                } else {
                    let i = j - rest.len();
                    assert(s2.in_flight[j] == env_of_action(agent, acts[i]));
                    assert(crate::agent::action_wf(ag, acts[i]));
                }
            }
        },
    }
}

} // verus!

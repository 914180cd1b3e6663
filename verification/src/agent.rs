//! The agent actor's state machine: the acquisition/backoff protocol one
//! participant runs against its two neighboring resources.
//!
//! Requests for the left and right resource are issued concurrently and the
//! two replies are correlated by resource identity, because they may arrive
//! in either order. On any denial of the second resource the agent
//! unconditionally releases the first one before backing off; this rule, not
//! an acquisition order, is what breaks the classic deadlock cycle.

use crate::{ResourceId, RETRY_DELAY_SECS, THINK_DELAY_SECS};
use vstd::prelude::*;

verus! {

/// The private state of one agent.
#[derive(Clone, Copy, PartialEq, Eq, Structural, Debug)]
pub enum AgentState {
    /// Created, not yet told to start.
    Idle,
    /// Thinking; an `Eat` timer is on its way.
    Thinking,
    /// Sent `Take` to both resources, no reply seen yet.
    Hungry,
    /// Holds `held`, waits for the reply of the one outstanding request to
    /// `pending`.
    AwaitingSecond { held: ResourceId, pending: ResourceId },
    /// Holds both resources; a `Think` timer is on its way.
    Eating,
    /// The first reply was `Busy`; one request is still outstanding.
    FirstDenied,
}

/// A message arriving in the agent's mailbox: the bootstrap's start signal,
/// one of its own delayed timer messages, or a resource's reply (correlated
/// by resource identity, never by request order).
#[derive(Clone, Copy, PartialEq, Eq, Structural, Debug)]
pub enum AgentEvent {
    StartThinking,
    /// Self-scheduled: stop thinking, get hungry.
    Eat,
    /// Self-scheduled: stop eating, put the resources down.
    Think,
    /// Reply: the named resource was granted to this agent.
    Taken(ResourceId),
    /// Reply: the named resource is held by someone else.
    Busy(ResourceId),
}

/// An action the agent asks its surroundings to perform: send a request to a
/// resource, or schedule a delayed message to itself (the delay in seconds;
/// any positive delay preserves correctness).
#[derive(Clone, Copy, PartialEq, Eq, Structural, Debug)]
pub enum AgentAction {
    SendTake(ResourceId),
    SendRelease(ResourceId),
    ScheduleEat(u64),
    ScheduleThink(u64),
}

/// One agent: fixed references to its left and right resource, and its
/// mutable state. In a ring of `n`, agent `i` is bound to resources `i`
/// (left) and `(i + 1) % n` (right).
#[derive(Clone, Copy, PartialEq, Eq, Structural, Debug)]
pub struct Agent {
    pub left: ResourceId,
    pub right: ResourceId,
    pub state: AgentState,
}

/// The full transition table of the agent state machine: for a state and an
/// incoming event, the next state, the actions to perform (in order), and
/// whether the event was a protocol violation. A violating event is one the
/// state does not expect; it is dropped with the state unchanged and no
/// action taken, so one misbehaving neighbor cannot crash the ring.
pub open spec fn agent_table(a: Agent, ev: AgentEvent) -> (AgentState, Seq<AgentAction>, bool) {
    match (a.state, ev) {
        (AgentState::Idle, AgentEvent::StartThinking) => (
            AgentState::Thinking,
            Seq::empty().push(AgentAction::ScheduleEat(THINK_DELAY_SECS)),
            false,
        ),
        (AgentState::Thinking, AgentEvent::Eat) => (
            AgentState::Hungry,
            Seq::empty().push(AgentAction::SendTake(a.left)).push(AgentAction::SendTake(a.right)),
            false,
        ),
        (AgentState::Hungry, AgentEvent::Taken(r)) => if r == a.left {
            (
                AgentState::AwaitingSecond { held: a.left, pending: a.right },
                Seq::empty(),
                false,
            )
        } else if r == a.right {
            (
                AgentState::AwaitingSecond { held: a.right, pending: a.left },
                Seq::empty(),
                false,
            )
        } else {
            (a.state, Seq::empty(), true)
        },
        (AgentState::Hungry, AgentEvent::Busy(r)) => if r == a.left || r == a.right {
            (AgentState::FirstDenied, Seq::empty(), false)
        } else {
            (a.state, Seq::empty(), true)
        },
        (AgentState::AwaitingSecond { held, pending }, AgentEvent::Taken(r)) => if r == pending {
            (
                AgentState::Eating,
                Seq::empty().push(AgentAction::ScheduleThink(THINK_DELAY_SECS)),
                false,
            )
        } else {
            (a.state, Seq::empty(), true)
        },
        (AgentState::AwaitingSecond { held, pending }, AgentEvent::Busy(r)) => if r == pending {
            (
                AgentState::Thinking,
                Seq::empty().push(AgentAction::SendRelease(held)).push(
                    AgentAction::ScheduleEat(RETRY_DELAY_SECS),
                ),
                false,
            )
        } else {
            (a.state, Seq::empty(), true)
        },
        (AgentState::FirstDenied, AgentEvent::Busy(r)) => if r == a.left || r == a.right {
            (
                AgentState::Thinking,
                Seq::empty().push(AgentAction::ScheduleEat(RETRY_DELAY_SECS)),
                false,
            )
        } else {
            (a.state, Seq::empty(), true)
        },
        (AgentState::FirstDenied, AgentEvent::Taken(r)) => if r == a.left || r == a.right {
            (
                AgentState::Thinking,
                Seq::empty().push(AgentAction::SendRelease(r)).push(
                    AgentAction::ScheduleEat(RETRY_DELAY_SECS),
                ),
                false,
            )
        } else {
            (a.state, Seq::empty(), true)
        },
        (AgentState::Eating, AgentEvent::Think) => (
            AgentState::Thinking,
            Seq::empty().push(AgentAction::SendRelease(a.left)).push(
                AgentAction::SendRelease(a.right),
            ).push(AgentAction::ScheduleEat(THINK_DELAY_SECS)),
            false,
        ),
        _ => (a.state, Seq::empty(), true),
    }
}

/// The state the agent moves to on an event.
pub open spec fn agent_next(a: Agent, ev: AgentEvent) -> AgentState {
    agent_table(a, ev).0
}

/// The actions the agent performs on an event, in order.
pub open spec fn agent_actions(a: Agent, ev: AgentEvent) -> Seq<AgentAction> {
    agent_table(a, ev).1
}

/// Whether the event is a protocol violation for the agent's current state.
pub open spec fn agent_violates(a: Agent, ev: AgentEvent) -> bool {
    agent_table(a, ev).2
}

impl Agent {
    /// Handle one mailbox message: move to the next state per the transition
    /// table and return the actions to perform, in order, together with
    /// whether the message was a protocol violation (in which case it was
    /// dropped: no action, state unchanged).
    pub fn handle(&mut self, ev: &AgentEvent) -> (r: (Vec<AgentAction>, bool))
        ensures
            final(self).left == old(self).left,
            final(self).right == old(self).right,
            final(self).state == agent_next(*old(self), *ev),
            r.0@ == agent_actions(*old(self), *ev),
            r.1 == agent_violates(*old(self), *ev),
    {
        let mut actions: Vec<AgentAction> = Vec::new();
        match (self.state, *ev) {
            (AgentState::Idle, AgentEvent::StartThinking) => {
                self.state = AgentState::Thinking;
                actions.push(AgentAction::ScheduleEat(THINK_DELAY_SECS));
                (actions, false)
            },
            (AgentState::Thinking, AgentEvent::Eat) => {
                self.state = AgentState::Hungry;
                actions.push(AgentAction::SendTake(self.left));
                actions.push(AgentAction::SendTake(self.right));
                (actions, false)
            },
            (AgentState::Hungry, AgentEvent::Taken(r)) => {
                if r == self.left {
                    self.state = AgentState::AwaitingSecond {
                        held: self.left,
                        pending: self.right,
                    };
                    (actions, false)
                } else if r == self.right {
                    self.state = AgentState::AwaitingSecond {
                        held: self.right,
                        pending: self.left,
                    };
                    (actions, false)
                } else {
                    (actions, true)
                }
            },
            (AgentState::Hungry, AgentEvent::Busy(r)) => {
                if r == self.left || r == self.right {
                    self.state = AgentState::FirstDenied;
                    (actions, false)
                } else {
                    (actions, true)
                }
            },
            (AgentState::AwaitingSecond { held, pending }, AgentEvent::Taken(r)) => {
                if r == pending {
                    self.state = AgentState::Eating;
                    actions.push(AgentAction::ScheduleThink(THINK_DELAY_SECS));
                    (actions, false)
                } else {
                    (actions, true)
                }
            },
            (AgentState::AwaitingSecond { held, pending }, AgentEvent::Busy(r)) => {
                if r == pending {
                    self.state = AgentState::Thinking;
                    actions.push(AgentAction::SendRelease(held));
                    actions.push(AgentAction::ScheduleEat(RETRY_DELAY_SECS));
                    (actions, false)
                } else {
                    (actions, true)
                }
            },
            (AgentState::FirstDenied, AgentEvent::Busy(r)) => {
                if r == self.left || r == self.right {
                    self.state = AgentState::Thinking;
                    actions.push(AgentAction::ScheduleEat(RETRY_DELAY_SECS));
                    (actions, false)
                } else {
                    (actions, true)
                }
            },
            (AgentState::FirstDenied, AgentEvent::Taken(r)) => {
                if r == self.left || r == self.right {
                    self.state = AgentState::Thinking;
                    actions.push(AgentAction::SendRelease(r));
                    actions.push(AgentAction::ScheduleEat(RETRY_DELAY_SECS));
                    (actions, false)
                } else {
                    (actions, true)
                }
            },
            (AgentState::Eating, AgentEvent::Think) => {
                self.state = AgentState::Thinking;
                actions.push(AgentAction::SendRelease(self.left));
                actions.push(AgentAction::SendRelease(self.right));
                actions.push(AgentAction::ScheduleEat(THINK_DELAY_SECS));
                (actions, false)
            },
            _ => (actions, true),
        }
    }
}

/// A pair recorded in `AwaitingSecond` really is the agent's own pair of
/// resources, one held and the other pending.
pub open spec fn agent_pair_wf(a: Agent) -> bool {
    a.state matches AgentState::AwaitingSecond { held, pending } ==> ((held == a.left && pending
        == a.right) || (held == a.right && pending == a.left))
}

/// Whether one action stays between the agent and its own two resources.
pub open spec fn action_wf(a: Agent, act: AgentAction) -> bool {
    match act {
        AgentAction::SendTake(r) => r == a.left || r == a.right,
        AgentAction::SendRelease(r) => r == a.left || r == a.right,
        AgentAction::ScheduleEat(_) => true,
        AgentAction::ScheduleThink(_) => true,
    }
}

/// Every action of a transition stays between the agent and its own two
/// resources: requests and releases only ever name the agent's left or
/// right resource.
pub proof fn lemma_agent_actions_wf(a: Agent, ev: AgentEvent)
    requires
        agent_pair_wf(a),
    ensures
        forall|i: int|
            0 <= i < agent_actions(a, ev).len() ==> action_wf(a, #[trigger] agent_actions(a, ev)[i]),
{
}

/// No silent double-acquisition: an agent that holds anything (it is in
/// `AwaitingSecond` or `Eating`) never sends a new `Take` at all, for any
/// event — so in particular never for a resource it already holds.
pub proof fn lemma_no_take_while_holding(a: Agent, ev: AgentEvent)
    requires
        a.state is AwaitingSecond || a.state is Eating,
    ensures
        forall|i: int|
            0 <= i < agent_actions(a, ev).len() ==> !(#[trigger] agent_actions(a, ev)[i]
                is SendTake),
{
}

/// Backoff resolves in one step: an agent in `AwaitingSecond` or
/// `FirstDenied` moves, on any reply it expects, either to `Eating` or back
/// to `Thinking` — it never stays blocked holding one resource.
pub proof fn lemma_backoff_resolves(a: Agent, ev: AgentEvent)
    requires
        a.state is AwaitingSecond || a.state is FirstDenied,
        !agent_violates(a, ev),
    ensures
        agent_next(a, ev) is Eating || agent_next(a, ev) is Thinking,
{
}

} // verus!

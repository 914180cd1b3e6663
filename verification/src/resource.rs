//! The resource actor's state machine: one exclusively-held unit that
//! answers take/release requests, one message at a time.

use crate::AgentId;
use vstd::prelude::*;

verus! {

/// Exclusive-use state of one resource: free, or held by exactly one agent.
/// A resource records at most one holder by construction; its state is
/// mutated only by its own message handler, so "at most one holder at any
/// instant" needs no separate lock.
#[derive(Clone, Copy, PartialEq, Eq, Structural, Debug)]
pub enum ResourceState {
    Available,
    HeldBy(AgentId),
}

/// A request an agent sends to a resource, carrying the requester's identity.
#[derive(Clone, Copy, PartialEq, Eq, Structural, Debug)]
pub enum ResourceMsg {
    Take(AgentId),
    Release(AgentId),
}

/// The resource's answer to one request. `Rejected` records a protocol
/// violation: a `Release` from an identity that is not the current holder
/// (the request is dropped and the state left unchanged).
#[derive(Clone, Copy, PartialEq, Eq, Structural, Debug)]
pub enum ResourceReply {
    Taken,
    Busy,
    Released,
    Rejected,
}

/// Transition table of the resource state machine: the state after one
/// message. Only a `Take` of an available resource or a `Release` from the
/// current holder changes anything.
pub open spec fn resource_next(s: ResourceState, m: ResourceMsg) -> ResourceState {
    match (s, m) {
        (ResourceState::Available, ResourceMsg::Take(a)) => ResourceState::HeldBy(a),
        (ResourceState::HeldBy(h), ResourceMsg::Release(a)) => if a == h {
            ResourceState::Available
        } else {
            s
        },
        _ => s,
    }
}

/// The answer the resource gives to one message.
pub open spec fn resource_reply(s: ResourceState, m: ResourceMsg) -> ResourceReply {
    match (s, m) {
        (ResourceState::Available, ResourceMsg::Take(_)) => ResourceReply::Taken,
        (ResourceState::HeldBy(_), ResourceMsg::Take(_)) => ResourceReply::Busy,
        (ResourceState::HeldBy(h), ResourceMsg::Release(a)) => if a == h {
            ResourceReply::Released
        } else {
            ResourceReply::Rejected
        },
        (ResourceState::Available, ResourceMsg::Release(_)) => ResourceReply::Rejected,
    }
}

impl ResourceState {
    /// Handle one request. The caller (the actor's mailbox) serializes
    /// requests, so this single transition is the whole concurrency story
    /// of a resource.
    pub fn handle(&mut self, m: &ResourceMsg) -> (r: ResourceReply)
        ensures
            *final(self) == resource_next(*old(self), *m),
            r == resource_reply(*old(self), *m),
    {
        match (*self, *m) {
            (ResourceState::Available, ResourceMsg::Take(a)) => {
                *self = ResourceState::HeldBy(a);
                ResourceReply::Taken
            },
            (ResourceState::HeldBy(_), ResourceMsg::Take(_)) => ResourceReply::Busy,
            (ResourceState::HeldBy(h), ResourceMsg::Release(a)) => {
                if a == h {
                    *self = ResourceState::Available;
                    ResourceReply::Released
                } else {
                    ResourceReply::Rejected
                }
            },
            (ResourceState::Available, ResourceMsg::Release(_)) => ResourceReply::Rejected,
        }
    }
}

/// Release correctness: a resource moves to `Available` only when its
/// current holder releases it, and a `Release` from any other identity is
/// rejected with the state unchanged.
pub proof fn lemma_release_correctness(s: ResourceState, m: ResourceMsg)
    ensures
        s is HeldBy && resource_next(s, m) is Available ==> m == ResourceMsg::Release(s->0),
        s is HeldBy && (m matches ResourceMsg::Release(a) && a != s->0) ==> resource_next(s, m)
            == s && resource_reply(s, m) is Rejected,
        s is Available && m is Release ==> resource_next(s, m) == s && resource_reply(s, m)
            is Rejected,
{
}

/// The state a resource reaches after answering a whole sequence of `Take`
/// requests, one at a time.
pub open spec fn after_takes(s: ResourceState, reqs: Seq<AgentId>) -> ResourceState
    decreases reqs.len(),
{
    if reqs.len() == 0 {
        s
    } else {
        resource_next(after_takes(s, reqs.drop_last()), ResourceMsg::Take(reqs.last()))
    }
}

/// A held resource is not moved by `Take` requests, however many arrive.
pub proof fn lemma_held_unmoved_by_takes(s: ResourceState, reqs: Seq<AgentId>)
    requires
        s is HeldBy,
    ensures
        after_takes(s, reqs) == s,
    decreases reqs.len(),
{
    if reqs.len() > 0 {
        lemma_held_unmoved_by_takes(s, reqs.drop_last());
    }
}

/// Idempotence of `Busy`: repeated `Take` requests against an already-held
/// resource always answer `Busy` and never mutate the state, regardless of
/// how many arrive.
pub proof fn lemma_busy_idempotent(s: ResourceState, reqs: Seq<AgentId>)
    requires
        s is HeldBy,
    ensures
        after_takes(s, reqs) == s,
        forall|i: int|
            0 <= i < reqs.len() ==> resource_reply(
                after_takes(s, #[trigger] reqs.take(i)),
                ResourceMsg::Take(reqs[i]),
            ) is Busy,
{
    lemma_held_unmoved_by_takes(s, reqs);
    assert forall|i: int| 0 <= i < reqs.len() implies resource_reply(
        after_takes(s, #[trigger] reqs.take(i)),
        ResourceMsg::Take(reqs[i]),
    ) is Busy by {
        lemma_held_unmoved_by_takes(s, reqs.take(i));
    }
}

} // verus!

//! Unit tests of the two actor state machines: every transition row, the
//! release-correctness and busy-idempotence behaviour of a resource, and the
//! no-new-take behaviour of a holding agent.

use dining_ring::agent::{Agent, AgentAction, AgentEvent, AgentState};
use dining_ring::resource::{ResourceMsg, ResourceReply, ResourceState};
use dining_ring::{RETRY_DELAY_SECS, THINK_DELAY_SECS};

#[test]
fn take_of_available_grants() {
    let mut r = ResourceState::Available;
    let reply = r.handle(&ResourceMsg::Take(7));
    assert!(matches!(reply, ResourceReply::Taken));
    assert_eq!(r, ResourceState::HeldBy(7));
}

#[test]
fn busy_is_idempotent_regardless_of_request_count() {
    let mut r = ResourceState::Available;
    r.handle(&ResourceMsg::Take(7));
    for requester in [8, 9, 7, 8, 8, 120, 7] {
        let reply = r.handle(&ResourceMsg::Take(requester));
        assert!(matches!(reply, ResourceReply::Busy));
        assert_eq!(r, ResourceState::HeldBy(7));
    }
}

#[test]
fn release_from_holder_frees_the_resource() {
    let mut r = ResourceState::HeldBy(7);
    let reply = r.handle(&ResourceMsg::Release(7));
    assert!(matches!(reply, ResourceReply::Released));
    assert_eq!(r, ResourceState::Available);
}

#[test]
fn release_from_non_holder_is_rejected_unchanged() {
    let mut r = ResourceState::HeldBy(7);
    let reply = r.handle(&ResourceMsg::Release(8));
    assert!(matches!(reply, ResourceReply::Rejected));
    assert_eq!(r, ResourceState::HeldBy(7));
}

#[test]
fn release_of_available_is_rejected_unchanged() {
    let mut r = ResourceState::Available;
    let reply = r.handle(&ResourceMsg::Release(7));
    assert!(matches!(reply, ResourceReply::Rejected));
    assert_eq!(r, ResourceState::Available);
}

#[test]
fn idle_agent_starts_thinking() {
    let mut a = Agent { left: 3, right: 4, state: AgentState::Idle };
    let (actions, violated) = a.handle(&AgentEvent::StartThinking);
    assert!(!violated);
    assert_eq!(a.state, AgentState::Thinking);
    assert_eq!(actions, vec![AgentAction::ScheduleEat(THINK_DELAY_SECS)]);
}

#[test]
fn thinking_agent_goes_hungry_and_asks_both_sides() {
    let mut a = Agent { left: 3, right: 4, state: AgentState::Thinking };
    let (actions, violated) = a.handle(&AgentEvent::Eat);
    assert!(!violated);
    assert_eq!(a.state, AgentState::Hungry);
    assert_eq!(actions, vec![AgentAction::SendTake(3), AgentAction::SendTake(4)]);
}

#[test]
fn hungry_agent_records_first_grant_by_identity() {
    // the right resource answers first: the pending one is the left
    let mut a = Agent { left: 3, right: 4, state: AgentState::Hungry };
    let (actions, violated) = a.handle(&AgentEvent::Taken(4));
    assert!(!violated);
    assert_eq!(a.state, AgentState::AwaitingSecond { held: 4, pending: 3 });
    assert!(actions.is_empty());
}

#[test]
fn hungry_agent_denied_first_waits_for_the_other_reply() {
    let mut a = Agent { left: 3, right: 4, state: AgentState::Hungry };
    let (actions, violated) = a.handle(&AgentEvent::Busy(3));
    assert!(!violated);
    assert_eq!(a.state, AgentState::FirstDenied);
    assert!(actions.is_empty());
}

#[test]
fn second_grant_starts_eating() {
    let mut a = Agent { left: 3, right: 4, state: AgentState::AwaitingSecond { held: 4, pending: 3 } };
    let (actions, violated) = a.handle(&AgentEvent::Taken(3));
    assert!(!violated);
    assert_eq!(a.state, AgentState::Eating);
    assert_eq!(actions, vec![AgentAction::ScheduleThink(THINK_DELAY_SECS)]);
}

#[test]
fn second_denial_releases_the_held_resource_and_backs_off() {
    let mut a = Agent { left: 3, right: 4, state: AgentState::AwaitingSecond { held: 4, pending: 3 } };
    let (actions, violated) = a.handle(&AgentEvent::Busy(3));
    assert!(!violated);
    assert_eq!(a.state, AgentState::Thinking);
    assert_eq!(
        actions,
        vec![AgentAction::SendRelease(4), AgentAction::ScheduleEat(RETRY_DELAY_SECS)]
    );
}

#[test]
fn denied_agent_backs_off_on_second_denial() {
    let mut a = Agent { left: 3, right: 4, state: AgentState::FirstDenied };
    let (actions, violated) = a.handle(&AgentEvent::Busy(4));
    assert!(!violated);
    assert_eq!(a.state, AgentState::Thinking);
    assert_eq!(actions, vec![AgentAction::ScheduleEat(RETRY_DELAY_SECS)]);
}

#[test]
fn denied_agent_returns_a_late_grant() {
    let mut a = Agent { left: 3, right: 4, state: AgentState::FirstDenied };
    let (actions, violated) = a.handle(&AgentEvent::Taken(3));
    assert!(!violated);
    assert_eq!(a.state, AgentState::Thinking);
    assert_eq!(
        actions,
        vec![AgentAction::SendRelease(3), AgentAction::ScheduleEat(RETRY_DELAY_SECS)]
    );
}

#[test]
fn eating_agent_puts_both_down_and_thinks_again() {
    let mut a = Agent { left: 3, right: 4, state: AgentState::Eating };
    let (actions, violated) = a.handle(&AgentEvent::Think);
    assert!(!violated);
    assert_eq!(a.state, AgentState::Thinking);
    assert_eq!(
        actions,
        vec![
            AgentAction::SendRelease(3),
            AgentAction::SendRelease(4),
            AgentAction::ScheduleEat(THINK_DELAY_SECS),
        ]
    );
}

#[test]
fn unexpected_events_are_contained_violations() {
    // an event the state does not expect is dropped: no action, no change
    let cases = [
        (AgentState::Idle, AgentEvent::Eat),
        (AgentState::Thinking, AgentEvent::Think),
        (AgentState::Thinking, AgentEvent::Taken(3)),
        (AgentState::Hungry, AgentEvent::Eat),
        (AgentState::Hungry, AgentEvent::Taken(9)),
        (AgentState::AwaitingSecond { held: 4, pending: 3 }, AgentEvent::Taken(4)),
        (AgentState::AwaitingSecond { held: 4, pending: 3 }, AgentEvent::Busy(4)),
        (AgentState::Eating, AgentEvent::Eat),
        (AgentState::FirstDenied, AgentEvent::Taken(9)),
        (AgentState::Idle, AgentEvent::Think),
    ];
    for (state, event) in cases {
        let mut a = Agent { left: 3, right: 4, state };
        let (actions, violated) = a.handle(&event);
        assert!(violated);
        assert_eq!(a.state, state);
        assert!(actions.is_empty());
    }
}

#[test]
fn holding_agent_never_sends_a_new_take() {
    // an agent in AwaitingSecond or Eating emits no Take for any event
    let states = [
        AgentState::AwaitingSecond { held: 3, pending: 4 },
        AgentState::AwaitingSecond { held: 4, pending: 3 },
        AgentState::Eating,
    ];
    let events = [
        AgentEvent::StartThinking,
        AgentEvent::Eat,
        AgentEvent::Think,
        AgentEvent::Taken(3),
        AgentEvent::Taken(4),
        AgentEvent::Busy(3),
        AgentEvent::Busy(4),
    ];
    for state in states {
        for event in events {
            let mut a = Agent { left: 3, right: 4, state };
            let (actions, _) = a.handle(&event);
            for act in actions {
                assert!(!matches!(act, AgentAction::SendTake(_)));
            }
        }
    }
}

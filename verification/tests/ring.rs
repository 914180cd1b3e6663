//! Scenario tests of whole rings, driven through the simulator with a
//! hand-picked delivery order (the deterministic test clock): the two-agent
//! round trip, contention in a ring of three, and a bounded run of a larger
//! ring in which every agent gets to eat.

use dining_ring::agent::{AgentEvent, AgentState};
use dining_ring::resource::{ResourceMsg, ResourceState};
use dining_ring::sim::{Envelope, Simulation};

fn find_env(sim: &Simulation, e: Envelope) -> usize {
    let mut j: usize = 0;
    while j < sim.in_flight.len() {
        if sim.in_flight[j] == e {
            return j;
        }
        j += 1;
    }
    panic!("expected an undelivered message that is not there");
}

fn deliver_env(sim: &mut Simulation, e: Envelope) {
    let j = find_env(sim, e);
    sim.deliver(j);
}

fn to_agent(a: usize, event: AgentEvent) -> Envelope {
    Envelope::ToAgent { agent: a, event }
}

fn take(r: usize, a: usize) -> Envelope {
    Envelope::ToResource { resource: r, msg: ResourceMsg::Take(a) }
}

fn release(r: usize, a: usize) -> Envelope {
    Envelope::ToResource { resource: r, msg: ResourceMsg::Release(a) }
}

/// The runtime shadow of the proved safety laws: one holder per resource is
/// structural, and every eating agent must hold both its resources.
fn check_eating_safety(sim: &Simulation) {
    for i in 0..sim.agents.len() {
        let ag = sim.agents[i];
        if matches!(ag.state, AgentState::Eating) {
            assert_eq!(sim.resources[ag.left], ResourceState::HeldBy(i));
            assert_eq!(sim.resources[ag.right], ResourceState::HeldBy(i));
        }
    }
}

#[test]
fn new_ring_wires_agents_to_adjacent_resources() {
    let sim = Simulation::new_ring(4);
    assert_eq!(sim.resources.len(), 4);
    assert_eq!(sim.agents.len(), 4);
    assert_eq!(sim.in_flight.len(), 4);
    assert_eq!(sim.violations, 0);
    for i in 0..4 {
        assert_eq!(sim.resources[i], ResourceState::Available);
        assert_eq!(sim.agents[i].left, i);
        assert_eq!(sim.agents[i].right, (i + 1) % 4);
        assert_eq!(sim.agents[i].state, AgentState::Idle);
        assert_eq!(sim.in_flight[i], to_agent(i, AgentEvent::StartThinking));
    }
}

#[test]
fn two_agent_round_trip() {
    // H0 bound to (R0, R1), H1 bound to (R1, R0); both go hungry together
    let mut sim = Simulation::new_ring(2);
    deliver_env(&mut sim, to_agent(0, AgentEvent::StartThinking));
    deliver_env(&mut sim, to_agent(1, AgentEvent::StartThinking));
    deliver_env(&mut sim, to_agent(0, AgentEvent::Eat));
    deliver_env(&mut sim, to_agent(1, AgentEvent::Eat));
    assert_eq!(sim.agents[0].state, AgentState::Hungry);
    assert_eq!(sim.agents[1].state, AgentState::Hungry);

    // H0 takes R0, H1 takes R1: both first grabs succeed
    deliver_env(&mut sim, take(0, 0));
    deliver_env(&mut sim, take(1, 1));
    assert_eq!(sim.resources[0], ResourceState::HeldBy(0));
    assert_eq!(sim.resources[1], ResourceState::HeldBy(1));
    deliver_env(&mut sim, to_agent(0, AgentEvent::Taken(0)));
    deliver_env(&mut sim, to_agent(1, AgentEvent::Taken(1)));
    assert_eq!(sim.agents[0].state, AgentState::AwaitingSecond { held: 0, pending: 1 });
    assert_eq!(sim.agents[1].state, AgentState::AwaitingSecond { held: 1, pending: 0 });

    // H0's second request meets a busy R1: H0 releases R0 and backs off
    deliver_env(&mut sim, take(1, 0));
    deliver_env(&mut sim, to_agent(0, AgentEvent::Busy(1)));
    assert_eq!(sim.agents[0].state, AgentState::Thinking);
    deliver_env(&mut sim, release(0, 0));
    assert_eq!(sim.resources[0], ResourceState::Available);

    // H1's second request finds R0 just released: H1 eats holding R1 + R0
    deliver_env(&mut sim, take(0, 1));
    deliver_env(&mut sim, to_agent(1, AgentEvent::Taken(0)));
    assert_eq!(sim.agents[1].state, AgentState::Eating);
    assert_eq!(sim.resources[0], ResourceState::HeldBy(1));
    assert_eq!(sim.resources[1], ResourceState::HeldBy(1));
    check_eating_safety(&sim);

    // H1 finishes and releases both; H0's retry then succeeds
    deliver_env(&mut sim, to_agent(1, AgentEvent::Think));
    deliver_env(&mut sim, release(1, 1));
    deliver_env(&mut sim, release(0, 1));
    deliver_env(&mut sim, to_agent(0, AgentEvent::Eat));
    deliver_env(&mut sim, take(0, 0));
    deliver_env(&mut sim, take(1, 0));
    deliver_env(&mut sim, to_agent(0, AgentEvent::Taken(0)));
    deliver_env(&mut sim, to_agent(0, AgentEvent::Taken(1)));
    assert_eq!(sim.agents[0].state, AgentState::Eating);
    check_eating_safety(&sim);
    assert_eq!(sim.violations, 0);
}

#[test]
fn three_ring_contention_resolves_without_deadlock() {
    // agents 0 and 1 go hungry simultaneously and contend for R1
    let mut sim = Simulation::new_ring(3);
    for i in 0..3 {
        deliver_env(&mut sim, to_agent(i, AgentEvent::StartThinking));
    }
    deliver_env(&mut sim, to_agent(0, AgentEvent::Eat));
    deliver_env(&mut sim, to_agent(1, AgentEvent::Eat));

    // each wins its left resource; agent 0 is then denied R1
    deliver_env(&mut sim, take(0, 0));
    deliver_env(&mut sim, take(1, 1));
    deliver_env(&mut sim, take(1, 0));
    deliver_env(&mut sim, to_agent(0, AgentEvent::Taken(0)));
    assert_eq!(sim.agents[0].state, AgentState::AwaitingSecond { held: 0, pending: 1 });
    deliver_env(&mut sim, to_agent(0, AgentEvent::Busy(1)));

    // the denial resolves within one step: back to Thinking, R0 released
    assert_eq!(sim.agents[0].state, AgentState::Thinking);
    deliver_env(&mut sim, release(0, 0));
    assert_eq!(sim.resources[0], ResourceState::Available);

    // agent 1 is not blocked by agent 0: its second grab succeeds
    deliver_env(&mut sim, to_agent(1, AgentEvent::Taken(1)));
    deliver_env(&mut sim, take(2, 1));
    deliver_env(&mut sim, to_agent(1, AgentEvent::Taken(2)));
    assert_eq!(sim.agents[1].state, AgentState::Eating);
    check_eating_safety(&sim);

    // nobody is left holding one resource while blocked on the other
    for i in 0..3 {
        assert!(!matches!(sim.agents[i].state, AgentState::AwaitingSecond { .. }));
        assert!(!matches!(sim.agents[i].state, AgentState::FirstDenied));
    }
    assert_eq!(sim.violations, 0);

    // agent 0 retries while agent 1 still eats; this time the denial comes
    // first, and the late grant of R0 is returned on the way out
    deliver_env(&mut sim, to_agent(0, AgentEvent::Eat));
    deliver_env(&mut sim, take(1, 0));
    deliver_env(&mut sim, to_agent(0, AgentEvent::Busy(1)));
    assert_eq!(sim.agents[0].state, AgentState::FirstDenied);
    deliver_env(&mut sim, take(0, 0));
    deliver_env(&mut sim, to_agent(0, AgentEvent::Taken(0)));
    assert_eq!(sim.agents[0].state, AgentState::Thinking);
    deliver_env(&mut sim, release(0, 0));
    assert_eq!(sim.resources[0], ResourceState::Available);
    assert_eq!(sim.violations, 0);
}

#[test]
fn rogue_messages_are_contained_and_counted() {
    // messages the protocol itself never produces are dropped, counted, and
    // change no state
    let mut sim = Simulation::new_ring(2);
    sim.in_flight.push(release(0, 0));
    let j = find_env(&sim, release(0, 0));
    sim.deliver(j);
    assert_eq!(sim.violations, 1);
    assert_eq!(sim.resources[0], ResourceState::Available);

    sim.in_flight.push(to_agent(1, AgentEvent::Think));
    let j = find_env(&sim, to_agent(1, AgentEvent::Think));
    sim.deliver(j);
    assert_eq!(sim.violations, 2);
    assert_eq!(sim.agents[1].state, AgentState::Idle);
}

#[test]
fn ring_scaling_every_agent_eats() {
    // a fair-ish first-in-first-out schedule; fairness is not guaranteed by
    // the algorithm, so the run is bounded and the schedule deterministic
    let n: usize = 5;
    let mut sim = Simulation::new_ring(n);
    let mut ate = vec![false; n];
    let mut steps: usize = 0;
    while steps < 20000 && !ate.iter().all(|b| *b) {
        assert!(sim.in_flight.len() > 0);
        sim.deliver(0);
        check_eating_safety(&sim);
        for i in 0..n {
            if matches!(sim.agents[i].state, AgentState::Eating) {
                ate[i] = true;
            }
        }
        steps += 1;
    }
    assert!(ate.iter().all(|b| *b), "an agent starved within the bounded run");
    assert_eq!(sim.violations, 0);
}

#[test]
fn no_violations_across_a_long_interleaved_run() {
    // a skewed deterministic schedule: always deliver the newest message
    let n: usize = 4;
    let mut sim = Simulation::new_ring(n);
    for _ in 0..5000 {
        let last = sim.in_flight.len() - 1;
        sim.deliver(last);
        check_eating_safety(&sim);
    }
    assert_eq!(sim.violations, 0);
}

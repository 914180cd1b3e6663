//! A ring of message-passing actors solving the dining-philosophers problem:
//! `resource` holds the exclusive-use state machine of one shared resource,
//! `agent` the acquisition/backoff state machine of one participant, and
//! `sim` a deterministic simulator of a whole ring, whose safety invariant
//! (mutual exclusion, eating only with both resources held) is proved in
//! `laws`.

use vstd::prelude::*;

pub mod agent;
pub mod laws;
pub mod resource;
pub mod sim;

verus! {

/// Identity of an agent: a stable, value-comparable handle assigned at
/// bootstrap (in a ring of `n` agents, the agent's index).
pub type AgentId = usize;

/// Identity of a resource: a stable, value-comparable handle assigned at
/// bootstrap (in a ring of `n` resources, the resource's index).
pub type ResourceId = usize;

/// Seconds an agent thinks before getting hungry, and eats before putting
/// its resources down. Any positive delay preserves correctness; the value
/// only affects throughput.
pub const THINK_DELAY_SECS: u64 = 5;

/// Seconds an agent backs off before retrying after a denied acquisition.
pub const RETRY_DELAY_SECS: u64 = 10;

} // verus!

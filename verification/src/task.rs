//! The unit of schedulable work.

use vstd::prelude::*;

verus! {

/// An immutable unit of work.  The payload is opaque to the scheduler; the
/// cost is a bounding parameter for how long execution is simulated to take.
/// Cost has no effect on scheduling order.
#[derive(Clone, Copy, Debug, PartialEq, Eq, Structural)]
pub struct Task {
    /// Opaque payload; the scheduler never interprets it.
    pub payload: u64,
    /// A bound on the amount of work that execution performs.
    pub cost: u64,
}

impl Task {
    /// Builds a task from its payload and cost.
    pub fn new(payload: u64, cost: u64) -> (t: Task)
        ensures
            t.payload == payload,
            t.cost == cost,
    {
        Task { payload, cost }
    }
}

} // verus!

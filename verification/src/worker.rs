//! One worker of the pool: its queue, its phase, and its counters.

use vstd::prelude::*;

use crate::config::QueueDiscipline;
use crate::local_queue::LocalQueue;
use crate::task::Task;

verus! {

/// Where a worker stands in its scheduling loop.
///
/// `Seeking` looks for work: own local queue first, then the global queue,
/// then each peer in order.  `Executing` runs the obtained task.  Once the
/// shutdown flag is observed, a worker that finds nothing enters `Draining`
/// and from then on only finishes its own backlog and helps empty the
/// global queue; it deliberately no longer steals from peers.  `Stopped` is
/// terminal: the counters become readable.
#[derive(Clone, Copy, Debug, PartialEq, Eq, Structural)]
pub enum WorkerPhase {
    Seeking,
    Executing,
    Draining,
    Stopped,
}

/// How far a phase still is from `Stopped`; the per-worker part of the
/// termination measure of a drain.
pub open spec fn phase_rank(p: WorkerPhase) -> int {
    match p {
        WorkerPhase::Seeking => 2,
        WorkerPhase::Executing => 2,
        WorkerPhase::Draining => 1,
        WorkerPhase::Stopped => 0,
    }
}

/// What the scheduling loop does next, as a pure decision: the next phase
/// and whether to pause (bounded backoff) before the next attempt.
///
/// An embedding that runs workers on real threads performs the pauses and
/// the queue operations itself and feeds the two observations back in:
/// whether the last seek found work, and whether the shutdown flag was set.
pub fn next_phase(phase: WorkerPhase, found_work: bool, stopping: bool) -> (r: (
    WorkerPhase,
    bool,
))
    ensures
        phase is Seeking && found_work ==> r == (WorkerPhase::Executing, false),
        phase is Seeking && !found_work && !stopping ==> r == (WorkerPhase::Seeking, true),
        phase is Seeking && !found_work && stopping ==> r == (WorkerPhase::Draining, false),
        phase is Executing ==> r == (WorkerPhase::Seeking, false),
        phase is Draining && found_work ==> r == (WorkerPhase::Draining, false),
        phase is Draining && !found_work ==> r == (WorkerPhase::Stopped, false),
        phase is Stopped ==> r == (WorkerPhase::Stopped, false),
{
    match phase {
        WorkerPhase::Seeking => {
            if found_work {
                (WorkerPhase::Executing, false)
            } else if stopping {
                (WorkerPhase::Draining, false)
            } else {
                (WorkerPhase::Seeking, true)
            }
        },
        WorkerPhase::Executing => (WorkerPhase::Seeking, false),
        WorkerPhase::Draining => {
            if found_work {
                (WorkerPhase::Draining, false)
            } else {
                (WorkerPhase::Stopped, false)
            }
        },
        WorkerPhase::Stopped => (WorkerPhase::Stopped, false),
    }
}

/// One worker: a unique index, the local queue it owns, its phase, and
/// counters that only it writes and that are read after it has stopped.
/// The ghost log `done` records every task this worker has executed.
pub struct Worker {
    /// This worker's index in the pool.
    pub id: usize,
    /// The local queue this worker owns.
    pub local: LocalQueue,
    /// Where the worker stands in its loop.
    pub phase: WorkerPhase,
    /// How many tasks this worker has executed.
    pub processed_count: u64,
    /// How many of those were stolen from a peer's local queue.
    pub stolen_count: u64,
    /// Every task this worker has executed, in order.
    pub done: Ghost<Seq<Task>>,
}

impl Worker {
    /// The counters are consistent with the ghost log.
    pub open spec fn wf(self) -> bool {
        &&& self.done@.len() == self.processed_count
        &&& self.stolen_count <= self.processed_count
    }

    /// A fresh worker: empty queue, empty log, seeking.
    pub fn new(id: usize, discipline: QueueDiscipline) -> (w: Worker)
        ensures
            w.wf(),
            w.id == id,
            w.local@ == Seq::<Task>::empty(),
            w.local.spec_discipline() == discipline,
            w.phase == WorkerPhase::Seeking,
            w.processed_count == 0,
            w.stolen_count == 0,
            w.done@ == Seq::<Task>::empty(),
    {
        Worker {
            id,
            local: LocalQueue::new(discipline),
            phase: WorkerPhase::Seeking,
            processed_count: 0,
            stolen_count: 0,
            done: Ghost(Seq::empty()),
        }
    }

    /// Executes a task to completion and accounts for it.  The returned
    /// number of work units equals the task's cost: cost bounds how much
    /// work execution performs, and nothing else.
    pub fn run_task(&mut self, t: Task, stolen: bool) -> (units: u64)
        requires
            old(self).wf(),
            old(self).processed_count < u64::MAX,
        ensures
            final(self).wf(),
            units == t.cost,
            final(self).processed_count == old(self).processed_count + 1,
            final(self).stolen_count == old(self).stolen_count + (if stolen {
                1int
            } else {
                0int
            }),
            final(self).done@ == old(self).done@.push(t),
            final(self).id == old(self).id,
            final(self).local == old(self).local,
            final(self).phase == old(self).phase,
    {
        let units = simulate_cost(t.cost);
        self.processed_count = self.processed_count + 1;
        if stolen {
            self.stolen_count = self.stolen_count + 1;
        }
        self.done = Ghost(self.done@.push(t));
        units
    }

    /// The pair `(processed_count, stolen_count)`, as `join` aggregates it.
    pub fn counters(&self) -> (c: (u64, u64))
        ensures
            c == (self.processed_count, self.stolen_count),
    {
        (self.processed_count, self.stolen_count)
    }
}

/// Performs an amount of busy work bounded by `cost`, the model's stand-in
/// for running a task: one unit per step, `cost` steps.
pub fn simulate_cost(cost: u64) -> (units: u64)
    ensures
        units == cost,
{
    let mut done: u64 = 0;
    while done < cost
        invariant
            done <= cost,
        decreases cost - done,
    {
        done = done + 1;
    }
    done
}

} // verus!

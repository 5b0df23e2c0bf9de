//! Running the worker discipline on concurrent lock-free deques.
//!
//! [`crate::scheduler`] proves the pool's laws on a deterministic model.
//! This module carries the same per-pass discipline onto the lock-free
//! queues of the `crossbeam` crate, so an embedding can run one OS thread
//! per worker: each thread owns a [`WorkerDeque`], shares one
//! [`GlobalInjector`], holds a [`StealHandle`] for every peer, and calls
//! [`seek_pass`] in its loop.  The embedding performs the pauses (task
//! cost simulation and backoff) and reads the shared shutdown flag,
//! feeding both into [`crate::worker::next_phase`] between passes.
//!
//! The queue operations themselves are trusted declarations over the
//! outside crate: a queue shared across threads promises nothing about
//! its contents to any single caller — another thread may remove an
//! element at any moment — so the wrappers state only what holds of every
//! outcome, and what is provable (the seek order, the counter discipline,
//! the phase decisions) is proved in the verified code around them.

use vstd::prelude::*;

use crate::config::QueueDiscipline;
use crate::task::Task;
use crossbeam::deque::Worker as DequeCore;

verus! {

#[verifier::external_type_specification]
#[verifier::external_body]
#[verifier::reject_recursive_types(T)]
pub struct ExInjector<T>(crossbeam::deque::Injector<T>);

#[verifier::external_type_specification]
#[verifier::external_body]
#[verifier::reject_recursive_types(T)]
pub struct ExDequeCore<T>(DequeCore<T>);

#[verifier::external_type_specification]
#[verifier::external_body]
#[verifier::reject_recursive_types(T)]
pub struct ExStealer<T>(crossbeam::deque::Stealer<T>);

/// The shared submission point: any thread may push, any worker may pop.
pub struct GlobalInjector {
    inner: crossbeam::deque::Injector<Task>,
}

impl GlobalInjector {
    /// Relies on crossbeam's `Injector::new`: builds an empty queue.
    #[verifier::external_body]
    pub fn new() -> GlobalInjector {
        GlobalInjector { inner: crossbeam::deque::Injector::new() }
    }

    /// Relies on crossbeam's `Injector::push`: enqueues the task without
    /// blocking.  The queue is shared across threads, so nothing can be
    /// promised about its contents afterwards.
    #[verifier::external_body]
    pub fn push(&self, t: Task) {
        self.inner.push(t);
    }

    /// Relies on crossbeam's `Injector::steal`: removes one task when one
    /// is available.  `None` covers both an empty queue and a lost race,
    /// which the caller simply retries on its next pass.
    #[verifier::external_body]
    fn try_pop(&self) -> Option<Task> {
        match self.inner.steal() {
            crossbeam::deque::Steal::Success(t) => Some(t),
            crossbeam::deque::Steal::Empty => None,
            crossbeam::deque::Steal::Retry => None,
        }
    }
}

/// The local queue one worker thread owns, with a cheap owner end; peers
/// reach its steal end through [`StealHandle`]s.
pub struct WorkerDeque {
    inner: DequeCore<Task>,
}

impl WorkerDeque {
    /// Relies on crossbeam's `Worker::new_fifo`: an empty deque whose
    /// owner pushes and pops at opposite ends.
    #[verifier::external_body]
    fn new_fifo() -> WorkerDeque {
        WorkerDeque { inner: DequeCore::new_fifo() }
    }

    /// Relies on crossbeam's `Worker::new_lifo`: an empty deque whose
    /// owner pushes and pops at the same end.
    #[verifier::external_body]
    fn new_lifo() -> WorkerDeque {
        WorkerDeque { inner: DequeCore::new_lifo() }
    }

    /// Builds the deque that realizes the given owner-end discipline.
    pub fn new(discipline: QueueDiscipline) -> WorkerDeque {
        match discipline {
            QueueDiscipline::Lifo => WorkerDeque::new_lifo(),
            QueueDiscipline::Fifo => WorkerDeque::new_fifo(),
        }
    }

    /// Relies on crossbeam's `Worker::push`: appends a task at the owner
    /// end without blocking.
    #[verifier::external_body]
    pub fn push(&self, t: Task) {
        self.inner.push(t);
    }

    /// Relies on crossbeam's `Worker::pop`: removes one task at the owner
    /// end when the deque is not empty.
    #[verifier::external_body]
    fn pop(&self) -> Option<Task> {
        self.inner.pop()
    }

    /// Relies on crossbeam's `Worker::stealer`: a handle through which
    /// any other thread may remove tasks from the steal end.
    #[verifier::external_body]
    pub fn stealer(&self) -> StealHandle {
        StealHandle { inner: self.inner.stealer() }
    }
}

/// A read-only capability on one worker's deque: it grants `try_steal`
/// and nothing else.  Many handles to the same deque may exist.
pub struct StealHandle {
    inner: crossbeam::deque::Stealer<Task>,
}

impl StealHandle {
    /// Relies on crossbeam's `Stealer::steal`: removes one task from the
    /// steal end when one is available.  `None` covers both an empty
    /// deque and a lost race against the owner or another stealer.
    #[verifier::external_body]
    fn try_steal(&self) -> Option<Task> {
        match self.inner.steal() {
            crossbeam::deque::Steal::Success(t) => Some(t),
            crossbeam::deque::Steal::Empty => None,
            crossbeam::deque::Steal::Retry => None,
        }
    }
}

/// Assembles the concurrent pool: one shared injector, one deque per
/// worker, and one steal handle per worker, in index order — handle `i`
/// reaches deque `i`.  An embedding moves each deque into its worker
/// thread and shares the injector and the handles among all of them.
pub fn build_pool(worker_count: usize, discipline: QueueDiscipline) -> (pool: (
    GlobalInjector,
    Vec<WorkerDeque>,
    Vec<StealHandle>,
))
    ensures
        pool.1@.len() == worker_count,
        pool.2@.len() == worker_count,
{
    let injector = GlobalInjector::new();
    let mut deques: Vec<WorkerDeque> = Vec::new();
    let mut handles: Vec<StealHandle> = Vec::new();
    let mut k: usize = 0;
    while k < worker_count
        invariant
            k <= worker_count,
            deques@.len() == k,
            handles@.len() == k,
        decreases worker_count - k,
    {
        let d = WorkerDeque::new(discipline);
        handles.push(d.stealer());
        deques.push(d);
        k = k + 1;
    }
    (injector, deques, handles)
}

/// The counters one worker thread owns.  Nothing else writes them while
/// the thread runs; the embedding reads them after the worker stops.
/// They saturate instead of wrapping, so a worker can never panic on an
/// overflowing increment.
#[derive(Clone, Copy, Debug, PartialEq, Eq, Structural)]
pub struct PassCounters {
    /// Tasks this worker has executed.
    pub processed: u64,
    /// Executed tasks that came from a peer's deque.
    pub stolen: u64,
}

impl PassCounters {
    /// Fresh counters, all zero.
    pub fn new() -> (c: PassCounters)
        ensures
            c == (PassCounters { processed: 0u64, stolen: 0u64 }),
    {
        PassCounters { processed: 0, stolen: 0 }
    }

    /// Accounts for one executed task, stolen or not.
    pub fn record_run(&mut self, stolen: bool)
        ensures
            final(self).processed == if old(self).processed < u64::MAX {
                old(self).processed + 1
            } else {
                u64::MAX as int
            },
            final(self).stolen == if stolen && old(self).stolen < u64::MAX {
                old(self).stolen + 1
            } else {
                old(self).stolen as int
            },
    {
        if self.processed < u64::MAX {
            self.processed = self.processed + 1;
        }
        if stolen {
            if self.stolen < u64::MAX {
                self.stolen = self.stolen + 1;
            }
        }
    }
}

/// Where a pass found its task, carrying the task for the embedding to
/// execute; `Idle` when every source came up empty.
#[derive(Clone, Copy, Debug, PartialEq, Eq, Structural)]
pub enum PassOutcome {
    /// Popped from the worker's own deque.
    RanLocal(Task),
    /// Popped from the shared injector.
    RanGlobal(Task),
    /// Stolen from a peer's deque.
    RanStolen(Task),
    /// All sources were empty (or momentarily contended).
    Idle,
}

/// One seeking pass in the scheduler's fixed order: the worker's own
/// deque first, then the global injector, then each peer in index order,
/// skipping `me`.  A draining worker passes `allow_steal == false` and
/// the peers are not touched.  The first task found is accounted for in
/// `counters` and handed back for the embedding to execute.
///
/// Against concurrent queues no outcome can be promised — a peer may take
/// any task first — so the contract pins what every outcome implies for
/// the counters, and the body fixes the seek order.
pub fn seek_pass(
    local: &WorkerDeque,
    injector: &GlobalInjector,
    peers: &Vec<StealHandle>,
    me: usize,
    allow_steal: bool,
    counters: &mut PassCounters,
) -> (r: PassOutcome)
    ensures
        r is Idle ==> *final(counters) == *old(counters),
        !(r is Idle) ==> final(counters).processed == if old(counters).processed < u64::MAX {
            old(counters).processed + 1
        } else {
            u64::MAX as int
        },
        r is RanStolen ==> final(counters).stolen == if old(counters).stolen < u64::MAX {
            old(counters).stolen + 1
        } else {
            old(counters).stolen as int
        },
        r is RanLocal || r is RanGlobal ==> final(counters).stolen == old(counters).stolen,
        !allow_steal ==> !(r is RanStolen),
{
    if let Some(t) = local.pop() {
        counters.record_run(false);
        return PassOutcome::RanLocal(t);
    }
    if let Some(t) = injector.try_pop() {
        counters.record_run(false);
        return PassOutcome::RanGlobal(t);
    }
    if allow_steal {
        let n = peers.len();
        let mut j: usize = 0;
        while j < n
            invariant
                j <= n,
                n == peers@.len(),
                allow_steal,
                *counters == *old(counters),
            decreases n - j,
        {
            if j != me {
                if let Some(t) = peers[j].try_steal() {
                    counters.record_run(true);
                    return PassOutcome::RanStolen(t);
                }
            }
            j = j + 1;
        }
    }
    PassOutcome::Idle
}

} // verus!

//! The scheduler: assembles the pool, accepts submissions, flips the
//! shutdown flag, and drains every queue before reporting totals.

use vstd::multiset::Multiset;
use vstd::prelude::*;

use crate::config::{Config, SchedulerError};
use crate::global_queue::GlobalQueue;
use crate::task::Task;
use crate::worker::{phase_rank, Worker, WorkerPhase};

verus! {

broadcast use vstd::seq_lib::group_to_multiset_ensures, vstd::multiset::group_multiset_axioms;

/// Sums a per-worker weight over the pool.
pub open spec fn sum_of(ws: Seq<Worker>, f: spec_fn(Worker) -> int) -> int
    decreases ws.len(),
{
    if ws.len() == 0 {
        0
    } else {
        sum_of(ws.drop_last(), f) + f(ws.last())
    }
}

/// Collects a per-worker multiset of tasks over the pool.
pub open spec fn bag_of(ws: Seq<Worker>, f: spec_fn(Worker) -> Multiset<Task>) -> Multiset<Task>
    decreases ws.len(),
{
    if ws.len() == 0 {
        Multiset::empty()
    } else {
        bag_of(ws.drop_last(), f).add(f(ws.last()))
    }
}

/// Weight: how many tasks a worker has executed.
pub open spec fn processed_weight() -> spec_fn(Worker) -> int {
    |w: Worker| w.processed_count as int
}

/// Weight: how many executed tasks a worker stole from peers.
pub open spec fn stolen_weight() -> spec_fn(Worker) -> int {
    |w: Worker| w.stolen_count as int
}

/// Weight: how many tasks sit in a worker's local queue.
pub open spec fn backlog_weight() -> spec_fn(Worker) -> int {
    |w: Worker| w.local@.len() as int
}

/// Weight: how far a worker's phase still is from `Stopped`.
pub open spec fn rank_weight() -> spec_fn(Worker) -> int {
    |w: Worker| phase_rank(w.phase)
}

/// Bag: the tasks a worker has executed.
pub open spec fn done_bag() -> spec_fn(Worker) -> Multiset<Task> {
    |w: Worker| w.done@.to_multiset()
}

/// Bag: the tasks waiting in a worker's local queue.
pub open spec fn backlog_bag() -> spec_fn(Worker) -> Multiset<Task> {
    |w: Worker| w.local@.to_multiset()
}

proof fn lemma_sum_update(ws: Seq<Worker>, i: int, w: Worker, f: spec_fn(Worker) -> int)
    requires
        0 <= i < ws.len(),
    ensures
        sum_of(ws.update(i, w), f) == sum_of(ws, f) - f(ws[i]) + f(w),
    decreases ws.len(),
{
    if i == ws.len() - 1 {
        assert(ws.update(i, w).drop_last() =~= ws.drop_last());
    } else {
        assert(ws.update(i, w).drop_last() =~= ws.drop_last().update(i, w));
        lemma_sum_update(ws.drop_last(), i, w, f);
    }
}

proof fn lemma_sum_nonneg(ws: Seq<Worker>, f: spec_fn(Worker) -> int)
    requires
        forall|j: int| 0 <= j < ws.len() ==> #[trigger] f(ws[j]) >= 0,
    ensures
        sum_of(ws, f) >= 0,
    decreases ws.len(),
{
    if ws.len() > 0 {
        lemma_sum_nonneg(ws.drop_last(), f);
    }
}

proof fn lemma_sum_lower(ws: Seq<Worker>, i: int, f: spec_fn(Worker) -> int)
    requires
        0 <= i < ws.len(),
        forall|j: int| 0 <= j < ws.len() ==> #[trigger] f(ws[j]) >= 0,
    ensures
        sum_of(ws, f) >= f(ws[i]),
    decreases ws.len(),
{
    if i == ws.len() - 1 {
        lemma_sum_nonneg(ws.drop_last(), f);
    } else {
        lemma_sum_lower(ws.drop_last(), i, f);
    }
}

proof fn lemma_sum_le(ws: Seq<Worker>, f: spec_fn(Worker) -> int, g: spec_fn(Worker) -> int)
    requires
        forall|j: int| 0 <= j < ws.len() ==> #[trigger] f(ws[j]) <= #[trigger] g(ws[j]),
    ensures
        sum_of(ws, f) <= sum_of(ws, g),
    decreases ws.len(),
{
    if ws.len() > 0 {
        lemma_sum_le(ws.drop_last(), f, g);
    }
}

proof fn lemma_sum_take_le(ws: Seq<Worker>, i: int, f: spec_fn(Worker) -> int)
    requires
        0 <= i <= ws.len(),
        forall|j: int| 0 <= j < ws.len() ==> #[trigger] f(ws[j]) >= 0,
    ensures
        sum_of(ws.take(i), f) <= sum_of(ws, f),
    decreases ws.len() - i,
{
    if i == ws.len() {
        assert(ws.take(i) =~= ws);
    } else {
        assert(ws.take(i + 1).drop_last() =~= ws.take(i));
        lemma_sum_take_le(ws, i + 1, f);
    }
}

proof fn lemma_bag_update(ws: Seq<Worker>, i: int, w: Worker, f: spec_fn(Worker) -> Multiset<Task>)
    requires
        0 <= i < ws.len(),
    ensures
        bag_of(ws.update(i, w), f).add(f(ws[i])) == bag_of(ws, f).add(f(w)),
    decreases ws.len(),
{
    let wsd = ws.drop_last();
    let u = ws.update(i, w);
    if i == ws.len() - 1 {
        assert(u.drop_last() =~= wsd);
        assert(u.last() == w);
        assert(bag_of(u, f) == bag_of(wsd, f).add(f(w)));
        assert(ws[i] == ws.last());
        assert forall|x: Task| #[trigger] bag_of(u, f).add(f(ws[i])).count(x) == bag_of(
            ws,
            f,
        ).add(f(w)).count(x) by {
            assert(bag_of(ws, f).count(x) == bag_of(wsd, f).count(x) + f(ws.last()).count(x));
            assert(bag_of(u, f).count(x) == bag_of(wsd, f).count(x) + f(w).count(x));
        }
        assert(bag_of(u, f).add(f(ws[i])) =~= bag_of(ws, f).add(f(w)));
    } else {
        assert(u.drop_last() =~= wsd.update(i, w));
        lemma_bag_update(wsd, i, w, f);
        assert(wsd[i] == ws[i]);
        assert(u.last() == ws.last());
        assert(bag_of(u, f) == bag_of(wsd.update(i, w), f).add(f(ws.last())));
        assert forall|x: Task| #[trigger] bag_of(u, f).add(f(ws[i])).count(x) == bag_of(
            ws,
            f,
        ).add(f(w)).count(x) by {
            assert(bag_of(wsd.update(i, w), f).add(f(wsd[i])).count(x) == bag_of(wsd, f).add(
                f(w),
            ).count(x));
            assert(bag_of(ws, f).count(x) == bag_of(wsd, f).count(x) + f(ws.last()).count(x));
            assert(bag_of(u, f).count(x) == bag_of(wsd.update(i, w), f).count(x) + f(
                ws.last(),
            ).count(x));
        }
        assert(bag_of(u, f).add(f(ws[i])) =~= bag_of(ws, f).add(f(w)));
    }
}

/// The aggregate counters `join` reports once every worker has stopped.
#[derive(Clone, Copy, Debug, PartialEq, Eq, Structural)]
pub struct Totals {
    /// Tasks executed across all workers.
    pub total_processed: u64,
    /// Executed tasks that were stolen from a peer's local queue.
    pub total_stolen: u64,
}

/// The deterministic scheduler core.
///
/// It assembles `worker_count` workers around one global queue, accepts
/// submissions, and — once `shutdown` has flipped the one-way flag —
/// `join` steps every worker through its scheduling loop until the pool is
/// fully drained.  The contracts prove the pool's central promises: a task
/// is executed exactly once (no loss, no duplication), draining leaves no
/// queued task behind, and shutdown is idempotent.
///
/// This type owns all queues and steps workers in rounds, which makes every
/// interleaving-sensitive claim a theorem instead of a stress test.  The
/// [`crate::stealing`] module carries the same per-step discipline onto
/// concurrent deques for embeddings that want real threads.
pub struct Scheduler {
    global: GlobalQueue,
    workers: Vec<Worker>,
    stopping: bool,
    submitted: u64,
    config: Config,
    accepted: Ghost<Seq<Task>>,
}

impl Scheduler {
    /// The workers, in index order.
    pub closed spec fn spec_workers(self) -> Seq<Worker> {
        self.workers@
    }

    /// The global queue's contents, front first.
    pub closed spec fn spec_global(self) -> Seq<Task> {
        self.global@
    }

    /// The global queue's capacity bound, if one is configured.
    pub closed spec fn spec_global_bound(self) -> Option<usize> {
        self.global.spec_bound()
    }

    /// Whether a further submission would be accepted by the global queue.
    pub closed spec fn spec_can_accept(self) -> bool {
        self.global.can_accept()
    }

    /// True once `shutdown` has been called.
    pub closed spec fn spec_stopping(self) -> bool {
        self.stopping
    }

    /// How many submissions have been accepted.
    pub closed spec fn spec_submitted(self) -> u64 {
        self.submitted
    }

    /// Every accepted task, in submission order.
    pub closed spec fn spec_accepted(self) -> Seq<Task> {
        self.accepted@
    }

    /// The configuration the pool was built with.
    pub closed spec fn spec_config(self) -> Config {
        self.config
    }

    /// Tasks executed so far, summed over the pool.
    pub open spec fn executed_total(self) -> int {
        sum_of(self.spec_workers(), processed_weight())
    }

    /// Stolen-and-executed tasks, summed over the pool.
    pub open spec fn stolen_total(self) -> int {
        sum_of(self.spec_workers(), stolen_weight())
    }

    /// Tasks still waiting in the global queue or any local queue.
    pub open spec fn pending_total(self) -> int {
        self.spec_global().len() + sum_of(self.spec_workers(), backlog_weight())
    }

    /// The multiset of tasks executed so far, over the whole pool.
    pub open spec fn executed_bag(self) -> Multiset<Task> {
        bag_of(self.spec_workers(), done_bag())
    }

    /// The multiset of tasks still waiting somewhere in the pool.
    pub open spec fn queued_bag(self) -> Multiset<Task> {
        self.spec_global().to_multiset().add(bag_of(self.spec_workers(), backlog_bag()))
    }

    /// The sum of the per-worker phase ranks; reaches zero exactly when
    /// every worker has stopped.
    pub open spec fn rank_total(self) -> int {
        sum_of(self.spec_workers(), rank_weight())
    }

    /// Well-formedness: worker ids match their indices, every counter
    /// agrees with its ghost log, and — the conservation invariant — the
    /// accepted tasks are exactly the executed ones plus the queued ones,
    /// both by count and as multisets.  No operation ever loses or
    /// duplicates a task.
    pub open spec fn wf(self) -> bool {
        &&& self.spec_workers().len() >= 1
        &&& forall|i: int|
            0 <= i < self.spec_workers().len() ==> {
                &&& (#[trigger] self.spec_workers()[i]).wf()
                &&& self.spec_workers()[i].id == i
                &&& self.spec_workers()[i].local.spec_discipline()
                    == self.spec_config().discipline
                &&& !(self.spec_workers()[i].phase is Executing)
                &&& (self.spec_workers()[i].phase is Stopped ==> self.spec_workers()[i].local@.len()
                    == 0)
            }
        &&& self.spec_submitted() == self.spec_accepted().len()
        &&& self.spec_submitted() as int == self.executed_total() + self.pending_total()
        &&& self.spec_accepted().to_multiset() == self.executed_bag().add(self.queued_bag())
        &&& self.spec_global_bound() == self.spec_config().global_bound
    }

    /// True when every worker has reached `Stopped`.
    pub open spec fn all_stopped(self) -> bool {
        forall|i: int|
            0 <= i < self.spec_workers().len()
                ==> (#[trigger] self.spec_workers()[i]).phase is Stopped
    }

    /// Builds the global queue and one seeking worker (with its local
    /// queue) per index, exactly `worker_count` of them.  Fails — and
    /// builds nothing — if and only if `worker_count` is zero.
    pub fn new(worker_count: usize, config: Config) -> (r: Result<Scheduler, SchedulerError>)
        ensures
            worker_count == 0 <==> r is Err,
            r is Err ==> r == Result::<Scheduler, SchedulerError>::Err(
                SchedulerError::ConfigurationError,
            ),
            r matches Ok(s) ==> {
                &&& s.wf()
                &&& s.spec_workers().len() == worker_count
                &&& !s.spec_stopping()
                &&& s.spec_submitted() == 0
                &&& s.spec_accepted() == Seq::<Task>::empty()
                &&& s.spec_config() == config
                &&& s.executed_total() == 0
                &&& s.stolen_total() == 0
                &&& s.pending_total() == 0
                &&& forall|i: int|
                    0 <= i < s.spec_workers().len() ==> (#[trigger] s.spec_workers()[i]).phase
                        is Seeking
            },
    {
        if worker_count == 0 {
            return Err(SchedulerError::ConfigurationError);
        }
        let mut workers: Vec<Worker> = Vec::new();
        let mut i: usize = 0;
        while i < worker_count
            invariant
                i == workers@.len(),
                i <= worker_count,
                forall|j: int|
                    0 <= j < i ==> {
                        &&& (#[trigger] workers@[j]).wf()
                        &&& workers@[j].id == j
                        &&& workers@[j].local.spec_discipline() == config.discipline
                        &&& workers@[j].phase is Seeking
                        &&& workers@[j].processed_count == 0
                        &&& workers@[j].stolen_count == 0
                        &&& workers@[j].local@.len() == 0
                        &&& workers@[j].done@.len() == 0
                    },
                sum_of(workers@, processed_weight()) == 0,
                sum_of(workers@, stolen_weight()) == 0,
                sum_of(workers@, backlog_weight()) == 0,
                bag_of(workers@, done_bag()) == Multiset::<Task>::empty(),
                bag_of(workers@, backlog_bag()) == Multiset::<Task>::empty(),
            decreases worker_count - i,
        {
            let w = Worker::new(i, config.discipline);
            let ghost before = workers@;
            workers.push(w);
            proof {
                assert(workers@.drop_last() =~= before);
                assert(w.done@.to_multiset() =~= Multiset::<Task>::empty());
                assert(w.local@.to_multiset() =~= Multiset::<Task>::empty());
                assert(bag_of(workers@, done_bag()) =~= Multiset::<Task>::empty());
                assert(bag_of(workers@, backlog_bag()) =~= Multiset::<Task>::empty());
            }
            i = i + 1;
        }
        let s = Scheduler {
            global: GlobalQueue::new(config.global_bound),
            workers,
            stopping: false,
            submitted: 0,
            config,
            accepted: Ghost(Seq::empty()),
        };
        proof {
            assert(s.spec_accepted().to_multiset() =~= s.executed_bag().add(s.queued_bag()));
        }
        Ok(s)
    }

    /// Accepts a task into the global queue.  Never blocks; fails with
    /// `QueueFull` — leaving everything unchanged — exactly when a global
    /// bound is configured and already reached.  Submissions are accepted
    /// even after shutdown: the policy is accept-and-drain, so a task that
    /// enters the global queue before draining finishes is still executed.
    pub fn submit(&mut self, t: Task) -> (r: Result<(), SchedulerError>)
        requires
            old(self).wf(),
            old(self).spec_submitted() < u64::MAX,
        ensures
            final(self).wf(),
            r is Ok <==> old(self).spec_can_accept(),
            r is Err ==> r == Result::<(), SchedulerError>::Err(SchedulerError::QueueFull)
                && *final(self) == *old(self),
            r is Ok ==> {
                &&& final(self).spec_accepted() == old(self).spec_accepted().push(t)
                &&& final(self).spec_submitted() == old(self).spec_submitted() + 1
                &&& final(self).spec_global() == old(self).spec_global().push(t)
            },
            final(self).spec_workers() == old(self).spec_workers(),
            final(self).spec_stopping() == old(self).spec_stopping(),
            final(self).spec_config() == old(self).spec_config(),
    {
        let r = self.global.push(t);
        match r {
            Ok(()) => {
                self.submitted = self.submitted + 1;
                self.accepted = Ghost(self.accepted@.push(t));
                proof {
                    assert(old(self).spec_accepted().push(t).to_multiset() == old(self).spec_accepted().to_multiset().insert(t));
                    assert(old(self).spec_global().push(t).to_multiset() == old(self).spec_global().to_multiset().insert(t));
                    assert forall|x: Task| #[trigger] self.spec_accepted().to_multiset().count(x)
                        == self.executed_bag().add(self.queued_bag()).count(x) by {
                        assert(old(self).spec_accepted().to_multiset().count(x) == old(self).executed_bag().add(old(self).queued_bag()).count(x));
                        assert(old(self).queued_bag().count(x) == old(self).spec_global().to_multiset().count(x) + bag_of(
                            old(self).spec_workers(),
                            backlog_bag(),
                        ).count(x));
                        assert(self.queued_bag().count(x) == self.spec_global().to_multiset().count(
                            x,
                        ) + bag_of(self.spec_workers(), backlog_bag()).count(x));
                    }
                    assert(self.spec_accepted().to_multiset() =~= self.executed_bag().add(
                        self.queued_bag(),
                    ));
                }
                Ok(())
            },
            Err(e) => Err(e),
        }
    }

    /// Appends a task to worker `i`'s own backlog, as the owning worker
    /// does for work it generates itself.  Local queues are unbounded, so
    /// this always succeeds.  A stopped worker generates no work and its
    /// backlog would never drain again, so the worker must not have
    /// stopped.
    pub fn submit_to_worker(&mut self, i: usize, t: Task)
        requires
            old(self).wf(),
            i < old(self).spec_workers().len(),
            !(old(self).spec_workers()[i as int].phase is Stopped),
            old(self).spec_submitted() < u64::MAX,
        ensures
            final(self).wf(),
            final(self).spec_accepted() == old(self).spec_accepted().push(t),
            final(self).spec_submitted() == old(self).spec_submitted() + 1,
            final(self).spec_workers().len() == old(self).spec_workers().len(),
            forall|j: int|
                0 <= j < old(self).spec_workers().len() && j != i ==> final(self).spec_workers()[j]
                    == old(self).spec_workers()[j],
            final(self).spec_workers()[i as int].local@ == old(self).spec_workers()[
                i as int
            ].local@.push(t),
            final(self).spec_workers()[i as int].phase == old(self).spec_workers()[
                i as int
            ].phase,
            final(self).spec_workers()[i as int].processed_count == old(self).spec_workers()[
                i as int
            ].processed_count,
            final(self).spec_workers()[i as int].stolen_count == old(self).spec_workers()[
                i as int
            ].stolen_count,
            final(self).spec_workers()[i as int].done == old(self).spec_workers()[i as int].done,
            final(self).spec_global() == old(self).spec_global(),
            final(self).spec_stopping() == old(self).spec_stopping(),
            final(self).spec_config() == old(self).spec_config(),
    {
        let ghost ws0 = self.workers@;
        let w = worker_at(&mut self.workers, i);
        w.local.push_owner(t);
        self.submitted = self.submitted + 1;
        self.accepted = Ghost(self.accepted@.push(t));
        proof {
            let wi = ws0[i as int];
            let wi2 = self.workers@[i as int];
            lemma_sum_update(ws0, i as int, wi2, processed_weight());
            lemma_sum_update(ws0, i as int, wi2, stolen_weight());
            lemma_sum_update(ws0, i as int, wi2, backlog_weight());
            lemma_bag_update(ws0, i as int, wi2, done_bag());
            lemma_bag_update(ws0, i as int, wi2, backlog_bag());
            assert(old(self).spec_accepted().push(t).to_multiset() == old(self).spec_accepted().to_multiset().insert(t));
            assert(wi.local@.push(t).to_multiset() == wi.local@.to_multiset().insert(t));
            assert forall|x: Task| #[trigger] self.spec_accepted().to_multiset().count(x)
                == self.executed_bag().add(self.queued_bag()).count(x) by {
                assert(old(self).spec_accepted().to_multiset().count(x) == old(self).executed_bag().add(old(self).queued_bag()).count(x));
                assert(old(self).queued_bag().count(x) == old(self).spec_global().to_multiset().count(x) + bag_of(ws0, backlog_bag()).count(x));
                assert(self.queued_bag().count(x) == self.spec_global().to_multiset().count(x)
                    + bag_of(self.spec_workers(), backlog_bag()).count(x));
                assert(bag_of(self.spec_workers(), done_bag()).add(done_bag()(wi)).count(x)
                    == bag_of(ws0, done_bag()).add(done_bag()(wi2)).count(x));
                assert(done_bag()(wi).count(x) == done_bag()(wi2).count(x));
                assert(bag_of(self.spec_workers(), backlog_bag()).add(backlog_bag()(wi)).count(x)
                    == bag_of(ws0, backlog_bag()).add(backlog_bag()(wi2)).count(x));
                assert(backlog_bag()(wi2).count(x) == backlog_bag()(wi).count(x) + (if x == t {
                    1int
                } else {
                    0int
                }));
            }
            assert(self.spec_accepted().to_multiset() =~= self.executed_bag().add(
                self.queued_bag(),
            ));
        }
    }

    /// What shutdown does: flips the flag, touches nothing else.
    pub closed spec fn shutdown_spec(s: Scheduler) -> Scheduler {
        Scheduler { stopping: true, ..s }
    }

    /// Signals shutdown.  Returns immediately; the flag transitions one
    /// way, from running to stopping, and nothing else changes.
    pub fn shutdown(&mut self)
        ensures
            *final(self) == Scheduler::shutdown_spec(*old(self)),
            final(self).spec_stopping(),
            old(self).wf() ==> final(self).wf(),
            final(self).spec_workers() == old(self).spec_workers(),
            final(self).spec_global() == old(self).spec_global(),
            final(self).spec_accepted() == old(self).spec_accepted(),
            final(self).spec_submitted() == old(self).spec_submitted(),
            final(self).spec_config() == old(self).spec_config(),
    {
        self.stopping = true;
    }


    /// Executes a task that has just been removed from a queue on worker
    /// `i`.  The caller holds the task "in hand": the conservation
    /// invariant momentarily counts it in neither a queue nor a log, and
    /// this call restores it.
    fn run_on_worker(&mut self, i: usize, t: Task, stolen: bool)
        requires
            i < old(self).spec_workers().len(),
            old(self).spec_workers().len() >= 1,
            forall|j: int|
                0 <= j < old(self).spec_workers().len() ==> {
                    &&& (#[trigger] old(self).spec_workers()[j]).wf()
                    &&& old(self).spec_workers()[j].id == j
                    &&& old(self).spec_workers()[j].local.spec_discipline() == old(self).spec_config().discipline
                    &&& !(old(self).spec_workers()[j].phase is Executing)
                    &&& (old(self).spec_workers()[j].phase is Stopped ==> old(
                        self,
                    ).spec_workers()[j].local@.len() == 0)
                },
            old(self).spec_submitted() == old(self).spec_accepted().len(),
            old(self).spec_submitted() as int == old(self).executed_total() + old(self).pending_total() + 1,
            old(self).spec_accepted().to_multiset() == old(self).executed_bag().add(
                old(self).queued_bag(),
            ).insert(t),
            old(self).spec_global_bound() == old(self).spec_config().global_bound,
        ensures
            final(self).wf(),
            final(self).spec_stopping() == old(self).spec_stopping(),
            final(self).spec_submitted() == old(self).spec_submitted(),
            final(self).spec_accepted() == old(self).spec_accepted(),
            final(self).spec_config() == old(self).spec_config(),
            final(self).spec_global() == old(self).spec_global(),
            final(self).spec_global_bound() == old(self).spec_global_bound(),
            final(self).spec_workers().len() == old(self).spec_workers().len(),
            forall|j: int|
                0 <= j < old(self).spec_workers().len() && j != i ==> final(self).spec_workers()[j]
                    == old(self).spec_workers()[j],
            final(self).spec_workers()[i as int].phase == old(self).spec_workers()[i as int].phase,
            final(self).spec_workers()[i as int].local == old(self).spec_workers()[i as int].local,
            final(self).spec_workers()[i as int].processed_count == old(self).spec_workers()[
                i as int
            ].processed_count + 1,
            final(self).spec_workers()[i as int].stolen_count == old(self).spec_workers()[
                i as int
            ].stolen_count + (if stolen {
                1int
            } else {
                0int
            }),
            final(self).spec_workers()[i as int].done@ == old(self).spec_workers()[
                i as int
            ].done@.push(t),
            final(self).executed_total() == old(self).executed_total() + 1,
            final(self).stolen_total() == old(self).stolen_total() + (if stolen {
                1int
            } else {
                0int
            }),
            final(self).pending_total() == old(self).pending_total(),
            final(self).rank_total() == old(self).rank_total(),
            final(self).executed_bag() == old(self).executed_bag().insert(t),
            final(self).queued_bag() == old(self).queued_bag(),
    {
        let ghost ws0 = self.workers@;
        proof {
            assert forall|j: int|
                0 <= j < ws0.len() implies #[trigger] processed_weight()(ws0[j]) >= 0 by {
                assert(processed_weight()(ws0[j]) == ws0[j].processed_count as int);
            }
            lemma_sum_lower(ws0, i as int, processed_weight());
            assert forall|j: int|
                0 <= j < ws0.len() implies #[trigger] backlog_weight()(ws0[j]) >= 0 by {
                assert(backlog_weight()(ws0[j]) == ws0[j].local@.len() as int);
            }
            lemma_sum_nonneg(ws0, backlog_weight());
            assert(processed_weight()(ws0[i as int]) == ws0[i as int].processed_count as int);
            assert(ws0[i as int].processed_count < u64::MAX);
        }
        let w = worker_at(&mut self.workers, i);
        let _units = w.run_task(t, stolen);
        proof {
            let wi = ws0[i as int];
            let wi2 = self.workers@[i as int];
            lemma_sum_update(ws0, i as int, wi2, processed_weight());
            lemma_sum_update(ws0, i as int, wi2, stolen_weight());
            lemma_sum_update(ws0, i as int, wi2, backlog_weight());
            lemma_sum_update(ws0, i as int, wi2, rank_weight());
            lemma_bag_update(ws0, i as int, wi2, done_bag());
            lemma_bag_update(ws0, i as int, wi2, backlog_bag());
            assert(wi.done@.push(t).to_multiset() == wi.done@.to_multiset().insert(t));
            assert forall|x: Task| #[trigger] self.executed_bag().count(x) == old(self).executed_bag().insert(t).count(x) by {
                assert(bag_of(self.spec_workers(), done_bag()).add(done_bag()(wi)).count(x)
                    == bag_of(ws0, done_bag()).add(done_bag()(wi2)).count(x));
                assert(done_bag()(wi2).count(x) == done_bag()(wi).count(x) + (if x == t {
                    1int
                } else {
                    0int
                }));
            }
            assert(self.executed_bag() =~= old(self).executed_bag().insert(t));
            assert forall|x: Task| #[trigger] bag_of(self.spec_workers(), backlog_bag()).count(x)
                == bag_of(ws0, backlog_bag()).count(x) by {
                assert(bag_of(self.spec_workers(), backlog_bag()).add(backlog_bag()(wi)).count(x)
                    == bag_of(ws0, backlog_bag()).add(backlog_bag()(wi2)).count(x));
                assert(backlog_bag()(wi2).count(x) == backlog_bag()(wi).count(x));
            }
            assert(bag_of(self.spec_workers(), backlog_bag()) =~= bag_of(ws0, backlog_bag()));
            assert(self.queued_bag() =~= old(self).queued_bag());
            assert forall|x: Task| #[trigger] self.spec_accepted().to_multiset().count(x)
                == self.executed_bag().add(self.queued_bag()).count(x) by {
                assert(old(self).spec_accepted().to_multiset().count(x) == old(self).executed_bag().add(old(self).queued_bag()).insert(t).count(x));
            }
            assert(self.spec_accepted().to_multiset() =~= self.executed_bag().add(
                self.queued_bag(),
            ));
        }
    }


    /// One pass of worker `i`'s scheduling loop, in the fixed seek order:
    /// the worker's own local queue first, then the global queue, then —
    /// only while seeking — each peer in index order.  The first success
    /// executes the task on worker `i`.
    /// When nothing is found a running worker backs off, a stopping worker
    /// advances toward `Stopped`, and a draining worker that sees both its
    /// own queue and the global queue empty stops, deliberately leaving
    /// peers' backlogs to their owners.
    pub fn step_worker(&mut self, i: usize) -> (r: StepResult)
        requires
            old(self).wf(),
            i < old(self).spec_workers().len(),
        ensures
            final(self).wf(),
            final(self).spec_stopping() == old(self).spec_stopping(),
            final(self).spec_submitted() == old(self).spec_submitted(),
            final(self).spec_accepted() == old(self).spec_accepted(),
            final(self).spec_config() == old(self).spec_config(),
            final(self).spec_workers().len() == old(self).spec_workers().len(),
            final(self).spec_global().len() <= old(self).spec_global().len(),
            forall|j: int|
                0 <= j < old(self).spec_workers().len() ==> (#[trigger] final(self).spec_workers()[j]).local@.len() <= old(self).spec_workers()[j].local@.len(),
            forall|j: int|
                0 <= j < old(self).spec_workers().len() && j != i ==> {
                    &&& (#[trigger] final(self).spec_workers()[j]).phase == old(self).spec_workers()[j].phase
                    &&& final(self).spec_workers()[j].processed_count == old(self).spec_workers()[j].processed_count
                    &&& final(self).spec_workers()[j].stolen_count == old(self).spec_workers()[j].stolen_count
                    &&& final(self).spec_workers()[j].done == old(self).spec_workers()[j].done
                },
            final(self).pending_total() <= old(self).pending_total(),
            final(self).rank_total() <= old(self).rank_total(),
            old(self).spec_stopping() && !(old(self).spec_workers()[i as int].phase is Stopped)
                ==> final(self).pending_total() < old(self).pending_total() || final(self).rank_total() < old(self).rank_total(),
            old(self).spec_workers()[i as int].phase is Stopped <==> r == StepResult::Idle,
            r == StepResult::Idle ==> *final(self) == *old(self),
            final(self).spec_workers()[i as int].phase is Stopped && !(old(self).spec_workers()[i as int].phase is Stopped) ==> final(self).spec_workers()[
                i as int
            ].local@.len() == 0 && final(self).spec_global().len() == 0,
            !(old(self).spec_workers()[i as int].phase is Stopped) && old(self).spec_workers()[
                i as int
            ].local@.len() > 0 ==> {
                &&& r == (StepResult::Executed { stolen: false })
                &&& final(self).spec_global() == old(self).spec_global()
                &&& final(self).spec_workers()[i as int].phase == old(self).spec_workers()[
                    i as int
                ].phase
                &&& final(self).spec_workers()[i as int].processed_count == old(self).spec_workers()[i as int].processed_count + 1
                &&& final(self).spec_workers()[i as int].stolen_count == old(self).spec_workers()[i as int].stolen_count
                &&& (old(self).spec_config().discipline is Lifo ==> final(self).spec_workers()[
                    i as int
                ].local@ == old(self).spec_workers()[i as int].local@.drop_last() && final(self).spec_workers()[i as int].done@ == old(self).spec_workers()[
                    i as int
                ].done@.push(old(self).spec_workers()[i as int].local@.last()))
                &&& (old(self).spec_config().discipline is Fifo ==> final(self).spec_workers()[
                    i as int
                ].local@ == old(self).spec_workers()[i as int].local@.drop_first() && final(self).spec_workers()[i as int].done@ == old(self).spec_workers()[
                    i as int
                ].done@.push(old(self).spec_workers()[i as int].local@.first()))
                &&& forall|j: int|
                    0 <= j < old(self).spec_workers().len() && j != i ==> (#[trigger] final(self).spec_workers()[j]).local@ == old(self).spec_workers()[j].local@
            },
            !(old(self).spec_workers()[i as int].phase is Stopped) && old(self).spec_workers()[
                i as int
            ].local@.len() == 0 && old(self).spec_global().len() > 0 ==> {
                &&& r == (StepResult::Executed { stolen: false })
                &&& final(self).spec_global() == old(self).spec_global().drop_first()
                &&& final(self).spec_workers()[i as int].phase == old(self).spec_workers()[
                    i as int
                ].phase
                &&& final(self).spec_workers()[i as int].processed_count == old(self).spec_workers()[i as int].processed_count + 1
                &&& final(self).spec_workers()[i as int].stolen_count == old(self).spec_workers()[i as int].stolen_count
                &&& final(self).spec_workers()[i as int].done@ == old(self).spec_workers()[
                    i as int
                ].done@.push(old(self).spec_global().first())
                &&& forall|j: int|
                    0 <= j < old(self).spec_workers().len() ==> (#[trigger] final(self).spec_workers()[j]).local@ == old(self).spec_workers()[j].local@
            },
            old(self).spec_workers()[i as int].phase is Seeking && old(self).spec_workers()[
                i as int
            ].local@.len() == 0 && old(self).spec_global().len() == 0 && has_victim(
                old(self).spec_workers(),
                i as int,
            ) ==> {
                &&& r == (StepResult::Executed { stolen: true })
                &&& final(self).spec_global() == old(self).spec_global()
                &&& final(self).spec_workers()[i as int].phase == old(self).spec_workers()[
                    i as int
                ].phase
                &&& final(self).spec_workers()[i as int].processed_count == old(self).spec_workers()[i as int].processed_count + 1
                &&& final(self).spec_workers()[i as int].stolen_count == old(self).spec_workers()[i as int].stolen_count + 1
                &&& final(self).spec_workers()[victim_of(old(self).spec_workers(), i as int)].local@
                    == old(self).spec_workers()[victim_of(
                    old(self).spec_workers(),
                    i as int,
                )].local@.drop_first()
                &&& final(self).spec_workers()[i as int].done@ == old(self).spec_workers()[
                    i as int
                ].done@.push(
                    old(self).spec_workers()[victim_of(
                        old(self).spec_workers(),
                        i as int,
                    )].local@.first(),
                )
                &&& forall|j: int|
                    0 <= j < old(self).spec_workers().len() && j != i && j != victim_of(
                        old(self).spec_workers(),
                        i as int,
                    ) ==> (#[trigger] final(self).spec_workers()[j]).local@ == old(self).spec_workers()[j].local@
            },
            old(self).spec_workers()[i as int].phase is Seeking && old(self).spec_workers()[
                i as int
            ].local@.len() == 0 && old(self).spec_global().len() == 0 && !has_victim(
                old(self).spec_workers(),
                i as int,
            ) && !old(self).spec_stopping() ==> r == StepResult::Backoff && same_state(
                final(self).spec_workers(),
                old(self).spec_workers(),
            ) && final(self).spec_global() == old(self).spec_global(),
            old(self).spec_workers()[i as int].phase is Seeking && old(self).spec_workers()[
                i as int
            ].local@.len() == 0 && old(self).spec_global().len() == 0 && !has_victim(
                old(self).spec_workers(),
                i as int,
            ) && old(self).spec_stopping() ==> r == StepResult::Advanced && final(self).spec_workers()[i as int].phase is Draining && final(self).spec_workers()[
                i as int
            ].processed_count == old(self).spec_workers()[i as int].processed_count && final(self).spec_workers()[i as int].stolen_count == old(self).spec_workers()[
                i as int
            ].stolen_count && final(self).spec_global() == old(self).spec_global(),
            old(self).spec_workers()[i as int].phase is Draining && old(self).spec_workers()[
                i as int
            ].local@.len() == 0 && old(self).spec_global().len() == 0 ==> r
                == StepResult::Advanced && final(self).spec_workers()[i as int].phase is Stopped
                && final(self).spec_workers()[i as int].processed_count == old(self).spec_workers()[i as int].processed_count && final(self).spec_workers()[
                i as int
            ].stolen_count == old(self).spec_workers()[i as int].stolen_count && final(self).spec_global() == old(self).spec_global(),
    {
        let n = self.workers.len();
        let phase = self.workers[i].phase;
        if phase == WorkerPhase::Stopped {
            return StepResult::Idle;
        }
        let ghost ws0 = self.workers@;
        // (a) the worker's own local queue comes first
        let popped = {
            let w = worker_at(&mut self.workers, i);
            w.local.pop_owner()
        };
        if let Some(t) = popped {
            proof {
                let wi = ws0[i as int];
                let wi1 = self.workers@[i as int];
                lemma_totals_via(self.workers@, ws0, i as int);
                if wi.local.spec_discipline() is Lifo {
                    lemma_drop_last_bag(wi.local@);
                } else {
                    lemma_drop_first_bag(wi.local@);
                }
                assert(wi.local@.to_multiset() == wi1.local@.to_multiset().insert(t));
                assert(done_bag()(wi) == wi.done@.to_multiset());
                assert(done_bag()(wi1) == wi1.done@.to_multiset());
                assert(backlog_bag()(wi) == wi.local@.to_multiset());
                assert(backlog_bag()(wi1) == wi1.local@.to_multiset());
                assert forall|x: Task| #[trigger] self.spec_accepted().to_multiset().count(x)
                    == self.executed_bag().add(self.queued_bag()).insert(t).count(x) by {
                    assert(old(self).spec_accepted().to_multiset().count(x) == old(self).executed_bag().add(old(self).queued_bag()).count(x));
                    assert(bag_of(self.spec_workers(), done_bag()).add(done_bag()(wi)).count(x)
                        == bag_of(ws0, done_bag()).add(done_bag()(wi1)).count(x));
                    assert(bag_of(self.spec_workers(), backlog_bag()).add(
                        backlog_bag()(wi),
                    ).count(x) == bag_of(ws0, backlog_bag()).add(backlog_bag()(wi1)).count(x));
                }
                assert(self.spec_accepted().to_multiset() =~= self.executed_bag().add(
                    self.queued_bag(),
                ).insert(t));
            }
            self.run_on_worker(i, t, false);
            return StepResult::Executed { stolen: false };
        }
        proof {
            assert(ws0[i as int].local@.len() == 0);
            assert forall|k: int|
                0 <= k < ws0.len() implies worker_like(#[trigger] self.workers@[k], ws0[k]) by {}
        }
        // (b) then the global queue
        let ghost g0 = self.global@;
        let from_global = self.global.try_pop();
        if let Some(t) = from_global {
            proof {
                let wi = ws0[i as int];
                let wi1 = self.workers@[i as int];
                lemma_totals_via(self.workers@, ws0, i as int);
                lemma_drop_first_bag(g0);
                assert(done_bag()(wi) == wi.done@.to_multiset());
                assert(done_bag()(wi1) == wi1.done@.to_multiset());
                assert(backlog_bag()(wi) == wi.local@.to_multiset());
                assert(backlog_bag()(wi1) == wi1.local@.to_multiset());
                assert forall|x: Task| #[trigger] self.spec_accepted().to_multiset().count(x)
                    == self.executed_bag().add(self.queued_bag()).insert(t).count(x) by {
                    assert(old(self).spec_accepted().to_multiset().count(x) == old(self).executed_bag().add(old(self).queued_bag()).count(x));
                    assert(bag_of(self.spec_workers(), done_bag()).add(done_bag()(wi)).count(x)
                        == bag_of(ws0, done_bag()).add(done_bag()(wi1)).count(x));
                    assert(bag_of(self.spec_workers(), backlog_bag()).add(
                        backlog_bag()(wi),
                    ).count(x) == bag_of(ws0, backlog_bag()).add(backlog_bag()(wi1)).count(x));
                }
                assert(self.spec_accepted().to_multiset() =~= self.executed_bag().add(
                    self.queued_bag(),
                ).insert(t));
            }
            self.run_on_worker(i, t, false);
            return StepResult::Executed { stolen: false };
        }
        proof {
            assert(g0.len() == 0);
        }
        if phase == WorkerPhase::Seeking {
            // (c) then each peer's steal end, in index order, skipping self
            let mut j: usize = 0;
            while j < n
                invariant
                    old(self).wf(),
                    ws0 == old(self).spec_workers(),
                    i < ws0.len(),
                    j <= n,
                    n == ws0.len(),
                    self.workers@.len() == ws0.len(),
                    forall|k: int|
                        0 <= k < ws0.len() ==> worker_like(
                            #[trigger] self.workers@[k],
                            ws0[k],
                        ),
                    forall|k: int| 0 <= k < j ==> k == i || (#[trigger] ws0[k]).local@.len() == 0,
                    ws0[i as int].local@.len() == 0,
                    ws0[i as int].phase is Seeking,
                    self.spec_global() == old(self).spec_global(),
                    self.spec_global().len() == 0,
                    self.spec_global_bound() == old(self).spec_global_bound(),
                    self.spec_stopping() == old(self).spec_stopping(),
                    self.spec_submitted() == old(self).spec_submitted(),
                    self.spec_accepted() == old(self).spec_accepted(),
                    self.spec_config() == old(self).spec_config(),
                decreases n - j,
            {
                if j != i {
                    let ghost before = self.workers@;
                    let got = {
                        let v = worker_at(&mut self.workers, j);
                        v.local.try_steal()
                    };
                    if let Some(t) = got {
                        proof {
                            assert(before[j as int].local@ == ws0[j as int].local@);
                            assert(ws0[j as int].local@.len() > 0);
                            lemma_victim_found(ws0, i as int, 0, j as int);
                            assert(has_victim(ws0, i as int));
                            assert(victim_of(ws0, i as int) == j as int);
                            let wv = ws0[j as int];
                            let wv1 = self.workers@[j as int];
                            assert(wv1.local@ == wv.local@.drop_first());
                            assert(t == wv.local@.first());
                            lemma_totals_via(self.workers@, ws0, j as int);
                            lemma_drop_first_bag(wv.local@);
                            assert(wv.local@.to_multiset() == wv1.local@.to_multiset().insert(t));
                            assert(done_bag()(wv) == wv.done@.to_multiset());
                            assert(done_bag()(wv1) == wv1.done@.to_multiset());
                            assert(backlog_bag()(wv) == wv.local@.to_multiset());
                            assert(backlog_bag()(wv1) == wv1.local@.to_multiset());
                            assert forall|x: Task| #[trigger] self.spec_accepted().to_multiset().count(
                                x,
                            ) == self.executed_bag().add(self.queued_bag()).insert(t).count(x) by {
                                assert(old(self).spec_accepted().to_multiset().count(x) == old(self).executed_bag().add(old(self).queued_bag()).count(x));
                                assert(bag_of(self.spec_workers(), done_bag()).add(
                                    done_bag()(wv),
                                ).count(x) == bag_of(ws0, done_bag()).add(done_bag()(wv1)).count(x));
                                assert(bag_of(self.spec_workers(), backlog_bag()).add(
                                    backlog_bag()(wv),
                                ).count(x) == bag_of(ws0, backlog_bag()).add(
                                    backlog_bag()(wv1),
                                ).count(x));
                            }
                            assert(self.spec_accepted().to_multiset() =~= self.executed_bag().add(
                                self.queued_bag(),
                            ).insert(t));
                        }
                        self.run_on_worker(i, t, true);
                        return StepResult::Executed { stolen: true };
                    }
                    proof {
                        assert forall|k: int|
                            0 <= k < ws0.len() implies worker_like(
                            #[trigger] self.workers@[k],
                            ws0[k],
                        ) by {
                            if k == j {
                                assert(worker_like(self.workers@[k], before[k]));
                                assert(worker_like(before[k], ws0[k]));
                            } else {
                                assert(self.workers@[k] == before[k]);
                            }
                        }
                    }
                }
                j = j + 1;
            }
            proof {
                assert(!has_victim(ws0, i as int));
            }
            if self.stopping {
                {
                    let w = worker_at(&mut self.workers, i);
                    w.phase = WorkerPhase::Draining;
                }
                proof {
                    lemma_step_frame(self.workers@, ws0, i as int);
                    assert(self.spec_accepted().to_multiset() =~= self.executed_bag().add(
                        self.queued_bag(),
                    ));
                }
                StepResult::Advanced
            } else {
                proof {
                    lemma_step_frame(self.workers@, ws0, i as int);
                    assert(self.spec_accepted().to_multiset() =~= self.executed_bag().add(
                        self.queued_bag(),
                    ));
                }
                StepResult::Backoff
            }
        } else {
            proof {
                assert(ws0[i as int].phase is Draining);
            }
            {
                let w = worker_at(&mut self.workers, i);
                w.phase = WorkerPhase::Stopped;
            }
            proof {
                lemma_step_frame(self.workers@, ws0, i as int);
                assert(self.spec_accepted().to_multiset() =~= self.executed_bag().add(
                    self.queued_bag(),
                ));
            }
            StepResult::Advanced
        }
    }


    /// True exactly when every worker has reached `Stopped`.
    fn check_all_stopped(&self) -> (b: bool)
        ensures
            b == self.all_stopped(),
    {
        let n = self.workers.len();
        let mut k: usize = 0;
        let mut all: bool = true;
        while k < n
            invariant
                k <= n,
                n == self.spec_workers().len(),
                all == (forall|j: int|
                    0 <= j < k ==> (#[trigger] self.spec_workers()[j]).phase is Stopped),
            decreases n - k,
        {
            if !(self.workers[k].phase == WorkerPhase::Stopped) {
                all = false;
            }
            k = k + 1;
        }
        all
    }

    /// Runs every worker's scheduling loop until the whole pool has
    /// stopped, then reports the aggregate counters.
    ///
    /// A worker only reaches `Stopped` after observing the shutdown flag,
    /// so joining a pool that is still running would never return; the
    /// contract therefore asks that `shutdown` has been signalled.
    /// Joining an already-drained pool again is allowed and changes
    /// nothing — but only while its global queue is empty, because once
    /// every worker has stopped, no one is left to drain a late
    /// submission.
    ///
    /// The postconditions are the pool's central promises.  Exactly-once
    /// delivery: the multiset of executed tasks afterwards equals the
    /// multiset of all accepted tasks — nothing is lost, nothing runs
    /// twice.  The draining guarantee: everything that sat in the global
    /// queue or in any local queue when `join` was called has been
    /// executed when it returns.  And the reported total equals the number
    /// of accepted submissions.
    pub fn join(&mut self) -> (totals: Totals)
        requires
            old(self).wf(),
            old(self).spec_stopping(),
            old(self).all_stopped() ==> old(self).spec_global().len() == 0,
        ensures
            final(self).wf(),
            final(self).spec_stopping(),
            final(self).spec_accepted() == old(self).spec_accepted(),
            final(self).spec_submitted() == old(self).spec_submitted(),
            final(self).spec_config() == old(self).spec_config(),
            final(self).all_stopped(),
            final(self).pending_total() == 0,
            final(self).executed_bag() == old(self).spec_accepted().to_multiset(),
            final(self).executed_bag() == old(self).executed_bag().add(old(self).queued_bag()),
            totals.total_processed == old(self).spec_submitted(),
            totals.total_processed as int == final(self).executed_total(),
            totals.total_stolen as int == final(self).stolen_total(),
    {
        let n = self.workers.len();
        let mut done = self.check_all_stopped();
        while !done
            invariant
                self.wf(),
                self.spec_stopping(),
                self.spec_accepted() == old(self).spec_accepted(),
                self.spec_submitted() == old(self).spec_submitted(),
                self.spec_config() == old(self).spec_config(),
                self.spec_workers().len() == old(self).spec_workers().len(),
                n == self.spec_workers().len(),
                done == self.all_stopped(),
                self.all_stopped() ==> self.spec_global().len() == 0,
            decreases self.pending_total(), self.rank_total(),
        {
            let ghost pend0 = self.pending_total();
            let ghost rank0 = self.rank_total();
            let ghost w_idx = choose|j: int|
                0 <= j < self.spec_workers().len() && !(self.spec_workers()[j].phase is Stopped);
            proof {
                assert(!self.all_stopped());
                assert(exists|j: int|
                    0 <= j < self.spec_workers().len() && !((#[trigger] self.spec_workers()[j]).phase
                        is Stopped));
            }
            let mut k: usize = 0;
            while k < n
                invariant
                    self.wf(),
                    self.spec_stopping(),
                    self.spec_accepted() == old(self).spec_accepted(),
                    self.spec_submitted() == old(self).spec_submitted(),
                    self.spec_config() == old(self).spec_config(),
                    self.spec_workers().len() == old(self).spec_workers().len(),
                    n == self.spec_workers().len(),
                    k <= n,
                    0 <= w_idx < self.spec_workers().len(),
                    self.all_stopped() ==> self.spec_global().len() == 0,
                    self.pending_total() <= pend0,
                    self.rank_total() <= rank0,
                    k as int <= w_idx ==> !(self.spec_workers()[w_idx].phase is Stopped),
                    k as int > w_idx ==> self.pending_total() < pend0 || self.rank_total()
                        < rank0,
                decreases n - k,
            {
                let ghost before = *self;
                let _res = self.step_worker(k);
                proof {
                    if self.all_stopped() {
                        if before.spec_workers()[k as int].phase is Stopped {
                            assert(*self == before);
                            assert forall|j: int|
                                0 <= j < before.spec_workers().len() implies (#[trigger] before.spec_workers()[j]).phase
                                    is Stopped by {
                                assert(self.spec_workers()[j].phase is Stopped);
                            }
                            assert(before.all_stopped());
                            assert(self.spec_global().len() == 0);
                        } else {
                            assert(self.spec_workers()[k as int].phase is Stopped);
                            assert(self.spec_global().len() == 0);
                        }
                    }
                }
                k = k + 1;
            }
            done = self.check_all_stopped();
            proof {
                assert forall|j: int|
                    0 <= j < self.spec_workers().len() implies #[trigger] backlog_weight()(
                    self.spec_workers()[j],
                ) >= 0 by {
                    assert(backlog_weight()(self.spec_workers()[j]) == self.spec_workers()[j].local@.len() as int);
                }
                lemma_sum_nonneg(self.spec_workers(), backlog_weight());
                assert forall|j: int|
                    0 <= j < self.spec_workers().len() implies #[trigger] rank_weight()(
                    self.spec_workers()[j],
                ) >= 0 by {
                    assert(rank_weight()(self.spec_workers()[j]) == phase_rank(
                        self.spec_workers()[j].phase,
                    ));
                }
                lemma_sum_nonneg(self.spec_workers(), rank_weight());
                assert(self.pending_total() >= 0);
                assert(self.rank_total() >= 0);
                assert(self.pending_total() < pend0 || self.rank_total() < rank0);
            }
        }
        proof {
            assert(self.spec_global().len() == 0);
            assert forall|j: int|
                0 <= j < self.spec_workers().len() implies #[trigger] backlog_weight()(
                self.spec_workers()[j],
            ) == 0 by {
                assert(backlog_weight()(self.spec_workers()[j]) == self.spec_workers()[j].local@.len()
                    as int);
            }
            lemma_sum_zero(self.spec_workers(), backlog_weight());
            assert(self.pending_total() == 0);
            assert forall|j: int|
                0 <= j < self.spec_workers().len() implies #[trigger] backlog_bag()(
                self.spec_workers()[j],
            ) == Multiset::<Task>::empty() by {
                assert(backlog_bag()(self.spec_workers()[j]) == self.spec_workers()[j].local@.to_multiset());
                assert(self.spec_workers()[j].local@.to_multiset().len() == 0);
                assert(self.spec_workers()[j].local@.to_multiset() =~= Multiset::<Task>::empty());
            }
            lemma_bag_empty(self.spec_workers(), backlog_bag());
            assert(self.spec_global().to_multiset().len() == 0);
            assert(self.spec_global().to_multiset() =~= Multiset::<Task>::empty());
            assert(self.queued_bag() =~= Multiset::<Task>::empty());
            assert(self.executed_bag() =~= self.spec_accepted().to_multiset());
            assert(old(self).spec_accepted().to_multiset() == old(self).executed_bag().add(
                old(self).queued_bag(),
            ));
        }
        let mut tp: u64 = 0;
        let mut ts: u64 = 0;
        let mut k: usize = 0;
        while k < n
            invariant
                self.wf(),
                n == self.spec_workers().len(),
                k <= n,
                self.pending_total() == 0,
                tp as int == sum_of(self.spec_workers().take(k as int), processed_weight()),
                ts as int == sum_of(self.spec_workers().take(k as int), stolen_weight()),
            decreases n - k,
        {
            proof {
                let ws = self.spec_workers();
                assert forall|j: int|
                    0 <= j < ws.len() implies #[trigger] processed_weight()(ws[j]) >= 0 by {
                    assert(processed_weight()(ws[j]) == ws[j].processed_count as int);
                }
                assert forall|j: int|
                    0 <= j < ws.len() implies #[trigger] stolen_weight()(ws[j]) >= 0 by {
                    assert(stolen_weight()(ws[j]) == ws[j].stolen_count as int);
                }
                assert forall|j: int|
                    0 <= j < ws.len() implies #[trigger] stolen_weight()(ws[j])
                        <= #[trigger] processed_weight()(ws[j]) by {
                    assert(stolen_weight()(ws[j]) == ws[j].stolen_count as int);
                    assert(processed_weight()(ws[j]) == ws[j].processed_count as int);
                }
                assert(ws.take(k as int + 1).drop_last() =~= ws.take(k as int));
                assert(ws.take(k as int + 1).last() == ws[k as int]);
                lemma_sum_take_le(ws, k as int + 1, processed_weight());
                lemma_sum_take_le(ws, k as int + 1, stolen_weight());
                lemma_sum_le(ws, stolen_weight(), processed_weight());
            }
            tp = tp + self.workers[k].processed_count;
            ts = ts + self.workers[k].stolen_count;
            k = k + 1;
        }
        proof {
            assert(self.spec_workers().take(n as int) =~= self.spec_workers());
        }
        Totals { total_processed: tp, total_stolen: ts }
    }


    /// How many workers the pool was built with.
    pub fn worker_count(&self) -> (n: usize)
        ensures
            n == self.spec_workers().len(),
    {
        self.workers.len()
    }

    /// True once `shutdown` has been signalled.
    pub fn is_stopping(&self) -> (b: bool)
        ensures
            b == self.spec_stopping(),
    {
        self.stopping
    }

    /// Worker `i`'s pair `(processed_count, stolen_count)`.
    pub fn worker_counters(&self, i: usize) -> (c: (u64, u64))
        requires
            i < self.spec_workers().len(),
        ensures
            c == (
                self.spec_workers()[i as int].processed_count,
                self.spec_workers()[i as int].stolen_count,
            ),
    {
        self.workers[i].counters()
    }

    /// How many tasks wait in the global queue.
    pub fn global_len(&self) -> (n: usize)
        ensures
            n == self.spec_global().len(),
    {
        self.global.len()
    }

    /// How many tasks wait in worker `i`'s local queue.
    pub fn local_len(&self, i: usize) -> (n: usize)
        requires
            i < self.spec_workers().len(),
        ensures
            n == self.spec_workers()[i as int].local@.len(),
    {
        self.workers[i].local.len()
    }

    /// Shutting down is idempotent: a second `shutdown` — and any number
    /// after that — leaves the scheduler exactly as the first one did.
    pub proof fn lemma_shutdown_idempotent(s: Scheduler)
        ensures
            Scheduler::shutdown_spec(Scheduler::shutdown_spec(s)) == Scheduler::shutdown_spec(s),
    {
    }
}


/// Field-for-field agreement of two workers, with the local queue compared
/// by contents.
pub open spec fn worker_like(a: Worker, b: Worker) -> bool {
    &&& a.id == b.id
    &&& a.phase == b.phase
    &&& a.processed_count == b.processed_count
    &&& a.stolen_count == b.stolen_count
    &&& a.done == b.done
    &&& a.local@ == b.local@
    &&& a.local.spec_discipline() == b.local.spec_discipline()
}

/// Pointwise [`worker_like`] agreement of two worker sequences.
pub open spec fn same_state(a: Seq<Worker>, b: Seq<Worker>) -> bool {
    &&& a.len() == b.len()
    &&& forall|k: int| 0 <= k < a.len() ==> worker_like(#[trigger] a[k], b[k])
}

/// True when some peer of `i` has a nonempty local queue to steal from.
pub open spec fn has_victim(ws: Seq<Worker>, i: int) -> bool {
    exists|j: int| 0 <= j < ws.len() && j != i && ws[j].local@.len() > 0
}

/// The first index at or after `lo`, skipping `i`, whose local queue is
/// nonempty; the pool size when there is none.  This is the fixed order in
/// which a seeking worker tries its peers.
pub open spec fn victim_from(ws: Seq<Worker>, i: int, lo: int) -> int
    decreases ws.len() - lo,
{
    if lo < 0 || lo >= ws.len() {
        ws.len() as int
    } else if lo != i && ws[lo].local@.len() > 0 {
        lo
    } else {
        victim_from(ws, i, lo + 1)
    }
}

/// The peer worker `i` steals from: the first loaded peer in index order.
pub open spec fn victim_of(ws: Seq<Worker>, i: int) -> int {
    victim_from(ws, i, 0)
}

proof fn lemma_victim_found(ws: Seq<Worker>, i: int, lo: int, j: int)
    requires
        0 <= lo <= j < ws.len(),
        j != i,
        ws[j].local@.len() > 0,
        forall|k: int| lo <= k < j ==> k == i || (#[trigger] ws[k]).local@.len() == 0,
    ensures
        victim_from(ws, i, lo) == j,
    decreases j - lo,
{
    if lo < j {
        lemma_victim_found(ws, i, lo + 1, j);
    }
}

proof fn lemma_sum_pointwise(a: Seq<Worker>, b: Seq<Worker>, f: spec_fn(Worker) -> int)
    requires
        a.len() == b.len(),
        forall|k: int| 0 <= k < a.len() ==> #[trigger] f(a[k]) == f(b[k]),
    ensures
        sum_of(a, f) == sum_of(b, f),
    decreases a.len(),
{
    if a.len() > 0 {
        lemma_sum_pointwise(a.drop_last(), b.drop_last(), f);
    }
}

proof fn lemma_bag_pointwise(a: Seq<Worker>, b: Seq<Worker>, f: spec_fn(Worker) -> Multiset<Task>)
    requires
        a.len() == b.len(),
        forall|k: int| 0 <= k < a.len() ==> #[trigger] f(a[k]) == f(b[k]),
    ensures
        bag_of(a, f) == bag_of(b, f),
    decreases a.len(),
{
    if a.len() > 0 {
        lemma_bag_pointwise(a.drop_last(), b.drop_last(), f);
    }
}

proof fn lemma_drop_first_bag(s: Seq<Task>)
    requires
        s.len() > 0,
    ensures
        s.to_multiset() == s.drop_first().to_multiset().insert(s.first()),
        s.to_multiset().count(s.first()) > 0,
    decreases s.len(),
{
    assert(s.drop_first() =~= s.remove(0));
    assert(s.remove(0).to_multiset() == s.to_multiset().remove(s[0]));
    assert(s.contains(s[0]));
    assert(s.to_multiset().count(s[0]) > 0);
    assert(s.to_multiset() =~= s.drop_first().to_multiset().insert(s.first()));
}

proof fn lemma_drop_last_bag(s: Seq<Task>)
    requires
        s.len() > 0,
    ensures
        s.to_multiset() == s.drop_last().to_multiset().insert(s.last()),
    decreases s.len(),
{
    assert(s =~= s.drop_last().push(s.last()));
    assert(s.drop_last().push(s.last()).to_multiset() == s.drop_last().to_multiset().insert(
        s.last(),
    ));
}


proof fn lemma_totals_via(ws_f: Seq<Worker>, ws0: Seq<Worker>, i: int)
    requires
        0 <= i < ws0.len(),
        ws_f.len() == ws0.len(),
        forall|k: int| 0 <= k < ws0.len() && k != i ==> worker_like(#[trigger] ws_f[k], ws0[k]),
    ensures
        sum_of(ws_f, processed_weight()) == sum_of(ws0, processed_weight()) - ws0[i].processed_count
            + ws_f[i].processed_count,
        sum_of(ws_f, stolen_weight()) == sum_of(ws0, stolen_weight()) - ws0[i].stolen_count
            + ws_f[i].stolen_count,
        sum_of(ws_f, backlog_weight()) == sum_of(ws0, backlog_weight()) - ws0[i].local@.len()
            + ws_f[i].local@.len(),
        sum_of(ws_f, rank_weight()) == sum_of(ws0, rank_weight()) - phase_rank(ws0[i].phase)
            + phase_rank(ws_f[i].phase),
        bag_of(ws_f, done_bag()).add(done_bag()(ws0[i])) == bag_of(ws0, done_bag()).add(
            done_bag()(ws_f[i]),
        ),
        bag_of(ws_f, backlog_bag()).add(backlog_bag()(ws0[i])) == bag_of(ws0, backlog_bag()).add(
            backlog_bag()(ws_f[i]),
        ),
{
    let wsx = ws0.update(i, ws_f[i]);
    assert forall|k: int|
        0 <= k < ws_f.len() implies #[trigger] processed_weight()(ws_f[k]) == processed_weight()(
        wsx[k],
    ) by {
        assert(processed_weight()(ws_f[k]) == ws_f[k].processed_count as int);
        assert(processed_weight()(wsx[k]) == wsx[k].processed_count as int);
    }
    lemma_sum_pointwise(ws_f, wsx, processed_weight());
    lemma_sum_update(ws0, i, ws_f[i], processed_weight());
    assert(processed_weight()(ws0[i]) == ws0[i].processed_count as int);
    assert(processed_weight()(ws_f[i]) == ws_f[i].processed_count as int);
    assert forall|k: int|
        0 <= k < ws_f.len() implies #[trigger] stolen_weight()(ws_f[k]) == stolen_weight()(
        wsx[k],
    ) by {
        assert(stolen_weight()(ws_f[k]) == ws_f[k].stolen_count as int);
        assert(stolen_weight()(wsx[k]) == wsx[k].stolen_count as int);
    }
    lemma_sum_pointwise(ws_f, wsx, stolen_weight());
    lemma_sum_update(ws0, i, ws_f[i], stolen_weight());
    assert(stolen_weight()(ws0[i]) == ws0[i].stolen_count as int);
    assert(stolen_weight()(ws_f[i]) == ws_f[i].stolen_count as int);
    assert forall|k: int|
        0 <= k < ws_f.len() implies #[trigger] backlog_weight()(ws_f[k]) == backlog_weight()(
        wsx[k],
    ) by {
        assert(backlog_weight()(ws_f[k]) == ws_f[k].local@.len() as int);
        assert(backlog_weight()(wsx[k]) == wsx[k].local@.len() as int);
    }
    lemma_sum_pointwise(ws_f, wsx, backlog_weight());
    lemma_sum_update(ws0, i, ws_f[i], backlog_weight());
    assert(backlog_weight()(ws0[i]) == ws0[i].local@.len() as int);
    assert(backlog_weight()(ws_f[i]) == ws_f[i].local@.len() as int);
    assert forall|k: int|
        0 <= k < ws_f.len() implies #[trigger] rank_weight()(ws_f[k]) == rank_weight()(wsx[k]) by {
        assert(rank_weight()(ws_f[k]) == phase_rank(ws_f[k].phase));
        assert(rank_weight()(wsx[k]) == phase_rank(wsx[k].phase));
    }
    lemma_sum_pointwise(ws_f, wsx, rank_weight());
    lemma_sum_update(ws0, i, ws_f[i], rank_weight());
    assert(rank_weight()(ws0[i]) == phase_rank(ws0[i].phase));
    assert(rank_weight()(ws_f[i]) == phase_rank(ws_f[i].phase));
    assert forall|k: int|
        0 <= k < ws_f.len() implies #[trigger] done_bag()(ws_f[k]) == done_bag()(wsx[k]) by {
        assert(done_bag()(ws_f[k]) == ws_f[k].done@.to_multiset());
        assert(done_bag()(wsx[k]) == wsx[k].done@.to_multiset());
    }
    lemma_bag_pointwise(ws_f, wsx, done_bag());
    lemma_bag_update(ws0, i, ws_f[i], done_bag());
    assert forall|k: int|
        0 <= k < ws_f.len() implies #[trigger] backlog_bag()(ws_f[k]) == backlog_bag()(wsx[k]) by {
        assert(backlog_bag()(ws_f[k]) == ws_f[k].local@.to_multiset());
        assert(backlog_bag()(wsx[k]) == wsx[k].local@.to_multiset());
    }
    lemma_bag_pointwise(ws_f, wsx, backlog_bag());
    lemma_bag_update(ws0, i, ws_f[i], backlog_bag());
}


proof fn lemma_step_frame(ws_f: Seq<Worker>, ws0: Seq<Worker>, i: int)
    requires
        0 <= i < ws0.len(),
        ws_f.len() == ws0.len(),
        forall|k: int| 0 <= k < ws0.len() && k != i ==> worker_like(#[trigger] ws_f[k], ws0[k]),
        ws_f[i].processed_count == ws0[i].processed_count,
        ws_f[i].stolen_count == ws0[i].stolen_count,
        ws_f[i].done == ws0[i].done,
        ws_f[i].local@ == ws0[i].local@,
    ensures
        sum_of(ws_f, processed_weight()) == sum_of(ws0, processed_weight()),
        sum_of(ws_f, stolen_weight()) == sum_of(ws0, stolen_weight()),
        sum_of(ws_f, backlog_weight()) == sum_of(ws0, backlog_weight()),
        sum_of(ws_f, rank_weight()) == sum_of(ws0, rank_weight()) - phase_rank(ws0[i].phase)
            + phase_rank(ws_f[i].phase),
        bag_of(ws_f, done_bag()) == bag_of(ws0, done_bag()),
        bag_of(ws_f, backlog_bag()) == bag_of(ws0, backlog_bag()),
{
    lemma_totals_via(ws_f, ws0, i);
    assert(done_bag()(ws_f[i]) == ws_f[i].done@.to_multiset());
    assert(done_bag()(ws0[i]) == ws0[i].done@.to_multiset());
    assert(backlog_bag()(ws_f[i]) == ws_f[i].local@.to_multiset());
    assert(backlog_bag()(ws0[i]) == ws0[i].local@.to_multiset());
    assert forall|x: Task| #[trigger] bag_of(ws_f, done_bag()).count(x) == bag_of(
        ws0,
        done_bag(),
    ).count(x) by {
        assert(bag_of(ws_f, done_bag()).add(done_bag()(ws0[i])).count(x) == bag_of(
            ws0,
            done_bag(),
        ).add(done_bag()(ws_f[i])).count(x));
    }
    assert(bag_of(ws_f, done_bag()) =~= bag_of(ws0, done_bag()));
    assert forall|x: Task| #[trigger] bag_of(ws_f, backlog_bag()).count(x) == bag_of(
        ws0,
        backlog_bag(),
    ).count(x) by {
        assert(bag_of(ws_f, backlog_bag()).add(backlog_bag()(ws0[i])).count(x) == bag_of(
            ws0,
            backlog_bag(),
        ).add(backlog_bag()(ws_f[i])).count(x));
    }
    assert(bag_of(ws_f, backlog_bag()) =~= bag_of(ws0, backlog_bag()));
}


proof fn lemma_sum_zero(ws: Seq<Worker>, f: spec_fn(Worker) -> int)
    requires
        forall|k: int| 0 <= k < ws.len() ==> #[trigger] f(ws[k]) == 0,
    ensures
        sum_of(ws, f) == 0,
    decreases ws.len(),
{
    if ws.len() > 0 {
        lemma_sum_zero(ws.drop_last(), f);
    }
}

proof fn lemma_bag_empty(ws: Seq<Worker>, f: spec_fn(Worker) -> Multiset<Task>)
    requires
        forall|k: int| 0 <= k < ws.len() ==> #[trigger] f(ws[k]) == Multiset::<Task>::empty(),
    ensures
        bag_of(ws, f) == Multiset::<Task>::empty(),
    decreases ws.len(),
{
    if ws.len() > 0 {
        lemma_bag_empty(ws.drop_last(), f);
        assert(bag_of(ws, f) =~= Multiset::<Task>::empty());
    }
}

/// What one scheduling step did.
#[derive(Clone, Copy, Debug, PartialEq, Eq, Structural)]
pub enum StepResult {
    /// A task was obtained — from the worker's own local queue, from the
    /// global queue, or (with `stolen` set) from a peer — and executed.
    Executed { stolen: bool },
    /// Nothing was found anywhere and the pool is still running: the
    /// worker pauses briefly before seeking again.
    Backoff,
    /// Nothing was found and shutdown is under way: the worker advanced a
    /// phase, from seeking to draining or from draining to stopped.
    Advanced,
    /// The worker had already stopped; nothing changed.
    Idle,
}

/// A mutable borrow of one worker in the pool.
fn worker_at(ws: &mut Vec<Worker>, i: usize) -> (w: &mut Worker)
    requires
        i < old(ws).len(),
    ensures
        *w == old(ws)@[i as int],
        final(ws)@ == old(ws)@.update(i as int, *final(w)),
{
    &mut ws[i]
}

} // verus!

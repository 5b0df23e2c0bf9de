//! The shared entry point for submissions and the fallback work source.

use vstd::prelude::*;

use crate::config::SchedulerError;
use crate::task::Task;

verus! {

/// A multi-producer, multi-consumer queue used for task submission and as a
/// meeting point when local queues are empty.  It is FIFO: `push` appends at
/// the back and `try_pop` removes from the front.  By default it is
/// unbounded; an optional bound makes `push` fail with
/// [`SchedulerError::QueueFull`] instead of growing past it.
///
/// This is the deterministic model the scheduler core is verified against;
/// the concurrent counterpart backed by an outside lock-free queue lives in
/// [`crate::stealing`].
pub struct GlobalQueue {
    items: Vec<Task>,
    bound: Option<usize>,
}

impl View for GlobalQueue {
    type V = Seq<Task>;

    closed spec fn view(&self) -> Seq<Task> {
        self.items@
    }
}

impl GlobalQueue {
    /// The configured capacity bound, if any.
    pub closed spec fn spec_bound(self) -> Option<usize> {
        self.bound
    }

    /// True when a further `push` would be accepted.
    pub open spec fn can_accept(self) -> bool {
        match self.spec_bound() {
            Some(b) => self@.len() < b,
            None => true,
        }
    }

    /// Builds an empty queue with the given capacity bound.
    pub fn new(bound: Option<usize>) -> (q: GlobalQueue)
        ensures
            q@ == Seq::<Task>::empty(),
            q.spec_bound() == bound,
    {
        GlobalQueue { items: Vec::new(), bound }
    }

    /// Enqueues a task at the back.  Never blocks; fails exactly when a
    /// bound is configured and already reached, leaving the queue unchanged.
    pub fn push(&mut self, t: Task) -> (r: Result<(), SchedulerError>)
        ensures
            r is Ok <==> old(self).can_accept(),
            r is Ok ==> final(self)@ == old(self)@.push(t),
            r is Err ==> r == Result::<(), SchedulerError>::Err(SchedulerError::QueueFull)
                && *final(self) == *old(self),
            final(self).spec_bound() == old(self).spec_bound(),
    {
        match self.bound {
            Some(b) => {
                if self.items.len() < b {
                    self.items.push(t);
                    Ok(())
                } else {
                    Err(SchedulerError::QueueFull)
                }
            },
            None => {
                self.items.push(t);
                Ok(())
            },
        }
    }

    /// Removes and returns the task at the front, if any.  Never blocks.
    pub fn try_pop(&mut self) -> (r: Option<Task>)
        ensures
            final(self).spec_bound() == old(self).spec_bound(),
            old(self)@.len() == 0 ==> r is None && final(self)@ == old(self)@,
            old(self)@.len() > 0 ==> r == Some(old(self)@.first())
                && final(self)@ == old(self)@.drop_first(),
    {
        if self.items.len() == 0 {
            None
        } else {
            let t = self.items.remove(0);
            proof {
                assert(self.items@ =~= old(self)@.drop_first());
            }
            Some(t)
        }
    }

    /// How many tasks are queued.
    pub fn len(&self) -> (n: usize)
        ensures
            n == self@.len(),
    {
        self.items.len()
    }

    /// True when no task is queued.
    pub fn is_empty(&self) -> (b: bool)
        ensures
            b == (self@.len() == 0),
    {
        self.items.len() == 0
    }
}

} // verus!

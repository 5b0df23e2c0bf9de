//! The per-worker queue with a cheap owner side and a contested steal side.

use vstd::prelude::*;

use crate::config::QueueDiscipline;
use crate::task::Task;

verus! {

/// A double-ended queue owned by exactly one worker.  The owner pushes at
/// the back; depending on the configured discipline the owner pops from the
/// back (`Lifo`) or from the front (`Fifo`).  Stealers always take from the
/// front.
///
/// Every removal returns exactly the element the contract names and drops
/// exactly that element from the sequence, which is how this model states
/// at-most-once delivery: a task leaves a queue at most once, either through
/// the owner's pop or through one steal.
pub struct LocalQueue {
    items: Vec<Task>,
    discipline: QueueDiscipline,
}

impl View for LocalQueue {
    type V = Seq<Task>;

    closed spec fn view(&self) -> Seq<Task> {
        self.items@
    }
}

impl LocalQueue {
    /// The owner-end pop order this queue was built with.
    pub closed spec fn spec_discipline(self) -> QueueDiscipline {
        self.discipline
    }

    /// Builds an empty queue with the given owner-end discipline.
    pub fn new(discipline: QueueDiscipline) -> (q: LocalQueue)
        ensures
            q@ == Seq::<Task>::empty(),
            q.spec_discipline() == discipline,
    {
        LocalQueue { items: Vec::new(), discipline }
    }

    /// Called only by the owning worker: appends a task at the back.
    pub fn push_owner(&mut self, t: Task)
        ensures
            final(self)@ == old(self)@.push(t),
            final(self).spec_discipline() == old(self).spec_discipline(),
    {
        self.items.push(t);
    }

    /// Called only by the owning worker: removes one task from the owner
    /// end, newest first under `Lifo` and oldest first under `Fifo`.
    pub fn pop_owner(&mut self) -> (r: Option<Task>)
        ensures
            final(self).spec_discipline() == old(self).spec_discipline(),
            old(self)@.len() == 0 ==> r is None && final(self)@ == old(self)@,
            old(self)@.len() > 0 && old(self).spec_discipline() is Lifo ==> r == Some(
                old(self)@.last(),
            ) && final(self)@ == old(self)@.drop_last(),
            old(self)@.len() > 0 && old(self).spec_discipline() is Fifo ==> r == Some(
                old(self)@.first(),
            ) && final(self)@ == old(self)@.drop_first(),
    {
        if self.items.len() == 0 {
            None
        } else {
            match self.discipline {
                QueueDiscipline::Lifo => self.items.pop(),
                QueueDiscipline::Fifo => {
                    let t = self.items.remove(0);
                    proof {
                        assert(self.items@ =~= old(self)@.drop_first());
                    }
                    Some(t)
                },
            }
        }
    }

    /// May be called through a steal handle on behalf of any other worker:
    /// removes the task at the steal end, which is always the front.
    pub fn try_steal(&mut self) -> (r: Option<Task>)
        ensures
            final(self).spec_discipline() == old(self).spec_discipline(),
            old(self)@.len() == 0 ==> r is None && final(self)@ == old(self)@,
            old(self)@.len() > 0 ==> r == Some(old(self)@.first())
                && final(self)@ == old(self)@.drop_first(),
    {
        if self.items.len() == 0 {
            None
        } else {
            let t = self.items.remove(0);
            proof {
                assert(self.items@ =~= old(self)@.drop_first());
            }
            Some(t)
        }
    }

    /// How many tasks are queued.
    pub fn len(&self) -> (n: usize)
        ensures
            n == self@.len(),
    {
        self.items.len()
    }

    /// True when no task is queued.
    pub fn is_empty(&self) -> (b: bool)
        ensures
            b == (self@.len() == 0),
    {
        self.items.len() == 0
    }
}

} // verus!

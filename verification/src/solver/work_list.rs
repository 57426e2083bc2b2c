//! The priority worklist of arcs awaiting revision.
//!
//! An arc is a pair of a variable and a constraint, queued with the
//! priority the constraint had at push time. The highest priority is
//! popped first, ties broken deterministically in favour of the
//! earliest push, and duplicate pairs never coexist in the queue:
//! re-pushing a queued pair is a no-op, while re-pushing after a pop
//! enqueues the pair again.

use vstd::prelude::*;

use crate::solver::constraint::ConstraintPriority;
use crate::solver::engine::{ConstraintId, VariableId};

verus! {

/// One queued arc: a variable, the constraint that may prune it, and
/// the priority recorded at push time.
#[derive(Debug, Clone, Copy)]
pub struct WorkItem {
    /// The priority recorded when the item was pushed.
    pub priority: ConstraintPriority,
    /// The variable of the arc.
    pub variable_id: VariableId,
    /// The constraint of the arc.
    pub constraint_id: ConstraintId,
}

/// The priority queue of arcs pending revision.
pub struct WorkList {
    queue: Vec<WorkItem>,
}

impl WorkList {
    /// The queued items, in push order.
    pub closed spec fn items(self) -> Seq<WorkItem> {
        self.queue@
    }

    /// The set of queued (variable, constraint) pairs.
    pub open spec fn pairs(self) -> Set<(VariableId, ConstraintId)> {
        Set::new(
            |p: (VariableId, ConstraintId)|
                exists|i: int|
                    0 <= i < self.items().len() && (
                    #[trigger] self.items()[i].variable_id,
                    self.items()[i].constraint_id,
                    ) == p,
        )
    }

    /// Creates an empty worklist.
    pub fn new() -> (r: Self)
        ensures
            r.items() == Seq::<WorkItem>::empty(),
    {
        WorkList { queue: Vec::new() }
    }

    /// Whether no arc is queued.
    pub fn is_empty(&self) -> (r: bool)
        ensures
            r == (self.items().len() == 0),
    {
        self.queue.len() == 0
    }

    /// Queues an arc with the given priority. A pair that is already
    /// queued is left as it is.
    #[verifier::loop_isolation(false)]
    pub fn push_back(
        &mut self,
        priority: ConstraintPriority,
        variable_id: VariableId,
        constraint_id: ConstraintId,
    )
        ensures
            final(self).pairs() == old(self).pairs().insert((variable_id, constraint_id)),
            old(self).pairs().contains((variable_id, constraint_id)) ==> final(self).items()
                == old(self).items(),
            !old(self).pairs().contains((variable_id, constraint_id)) ==> final(self).items()
                == old(self).items().push(WorkItem { priority, variable_id, constraint_id }),
    {
        let ghost pair = (variable_id, constraint_id);
        let mut i: usize = 0;
        while i < self.queue.len()
            invariant
                i <= self.queue@.len(),
                forall|j: int|
                    0 <= j < i ==> (
                    #[trigger] self.queue@[j].variable_id,
                    self.queue@[j].constraint_id,
                    ) != pair,
                self == old(self),
            decreases self.queue@.len() - i,
        {
            let it = &self.queue[i];
            if it.variable_id == variable_id && it.constraint_id == constraint_id {
                proof {
                    assert(old(self).pairs().contains(pair));
                    assert(self.pairs() =~= old(self).pairs().insert(pair));
                }
                return ;
            }
            i += 1;
        }
        proof {
            assert(!old(self).pairs().contains(pair)) by {
                if old(self).pairs().contains(pair) {
                    let j = choose|j: int|
                        0 <= j < old(self).queue@.len() && (
                        #[trigger] old(self).queue@[j].variable_id,
                        old(self).queue@[j].constraint_id,
                        ) == pair;
                    assert((self.queue@[j].variable_id, self.queue@[j].constraint_id) != pair);
                }
            }
        }
        self.queue.push(WorkItem { priority, variable_id, constraint_id });
        proof {
            assert(self.pairs() =~= old(self).pairs().insert(pair)) by {
                assert forall|p: (VariableId, ConstraintId)|
                    old(self).pairs().insert(pair).contains(p) implies self.pairs().contains(
                    p,
                ) by {
                    if p == pair {
                        let n = old(self).queue@.len() as int;
                        assert((self.queue@[n].variable_id, self.queue@[n].constraint_id) == p);
                    } else {
                        let j = choose|j: int|
                            0 <= j < old(self).queue@.len() && (
                            #[trigger] old(self).queue@[j].variable_id,
                            old(self).queue@[j].constraint_id,
                            ) == p;
                        assert((self.queue@[j].variable_id, self.queue@[j].constraint_id) == p);
                    }
                }
                assert forall|p: (VariableId, ConstraintId)| self.pairs().contains(p) implies old(
                    self,
                ).pairs().insert(pair).contains(p) by {
                    let j = choose|j: int|
                        0 <= j < self.queue@.len() && (
                        #[trigger] self.queue@[j].variable_id,
                        self.queue@[j].constraint_id,
                        ) == p;
                    if j < old(self).queue@.len() {
                        assert((old(self).queue@[j].variable_id, old(self).queue@[j].constraint_id)
                            == p);
                    }
                }
            }
        }
    }

    /// Pops the arc with the highest priority; ties go to the earliest
    /// push. Returns `None` when the worklist is empty.
    #[verifier::loop_isolation(false)]
    pub fn pop_front(&mut self) -> (r: Option<(VariableId, ConstraintId)>)
        ensures
            match r {
                Option::None => {
                    &&& old(self).items().len() == 0
                    &&& final(self).items() == old(self).items()
                },
                Option::Some(pair) => exists|k: int|
                    {
                        &&& 0 <= k < old(self).items().len()
                        &&& (
                        #[trigger] old(self).items()[k].variable_id,
                        old(self).items()[k].constraint_id,
                        ) == pair
                        &&& final(self).items() == old(self).items().remove(k)
                        &&& forall|i: int|
                            0 <= i < old(self).items().len() ==> old(self).items()[i].priority
                                <= old(self).items()[k].priority
                        &&& forall|i: int|
                            0 <= i < k ==> old(self).items()[i].priority < old(
                                self,
                            ).items()[k].priority
                    },
            },
    {
        if self.queue.len() == 0 {
            return None;
        }
        let mut best: usize = 0;
        let mut i: usize = 1;
        while i < self.queue.len()
            invariant
                best < i <= self.queue@.len(),
                forall|j: int|
                    0 <= j < i ==> self.queue@[j].priority <= self.queue@[best as int].priority,
                forall|j: int|
                    0 <= j < best ==> self.queue@[j].priority < self.queue@[best as int].priority,
                self == old(self),
            decreases self.queue@.len() - i,
        {
            if self.queue[i].priority > self.queue[best].priority {
                best = i;
            }
            i += 1;
        }
        let item = self.queue.remove(best);
        proof {
            let k = best as int;
            assert((old(self).items()[k].variable_id, old(self).items()[k].constraint_id) == (
                item.variable_id,
                item.constraint_id,
            ));
        }
        Some((item.variable_id, item.constraint_id))
    }
}

impl Default for WorkList {
    /// The default worklist is empty.
    fn default() -> (r: Self)
        ensures
            r.items() == Seq::<WorkItem>::empty(),
    {
        WorkList::new()
    }
}

} // verus!

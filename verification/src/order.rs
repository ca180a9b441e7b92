//! The order in which the scheduler reports results, stated for processes
//! whose number of steps is known: each holds its value back for a given
//! number of steps and touches nothing.

use crate::environment::StoreModel;
use crate::expressions::Value;
use crate::process::{
    lemma_schedule_in_two, lemma_schedule_works_in_passes, scheduled, served, ProcessModel,
    ScheduleModel, StepableModel,
};
use vstd::prelude::*;

verus! {

/// The process that completes with `value` after `steps` steps.
pub open spec fn delayed(value: Value, steps: nat) -> ProcessModel
    decreases steps,
{
    if steps == 0 {
        ProcessModel::Complete(value)
    } else {
        ProcessModel::Running(
            StepableModel::Deferred(Box::new(delayed(value, (steps - 1) as nat))),
        )
    }
}

/// The queue of the processes that hold the values back, each for its number
/// of steps.
pub open spec fn delayed_each(jobs: Seq<(Value, nat)>) -> Seq<ProcessModel> {
    Seq::new(jobs.len(), |i: int| delayed(jobs[i].0, jobs[i].1))
}

/// The values that are held back for exactly `steps` steps, in the order of
/// the queue.
pub open spec fn with_steps(jobs: Seq<(Value, nat)>, steps: nat) -> Seq<Value>
    decreases jobs.len(),
{
    if jobs.len() == 0 {
        Seq::empty()
    } else if jobs[0].1 == steps {
        seq![jobs[0].0] + with_steps(jobs.drop_first(), steps)
    } else {
        with_steps(jobs.drop_first(), steps)
    }
}

/// The values in the order of their numbers of steps, from `from` up to but
/// not including `from + count`, and in the order of the queue where the
/// numbers are equal.
pub open spec fn by_steps(jobs: Seq<(Value, nat)>, from: nat, count: nat) -> Seq<Value>
    decreases count,
{
    if count == 0 {
        Seq::empty()
    } else {
        with_steps(jobs, from) + by_steps(jobs, from + 1, (count - 1) as nat)
    }
}

/// The queue after one pass: what was due has left, and everything else is
/// one step nearer, in the order of the queue.
pub open spec fn later(jobs: Seq<(Value, nat)>) -> Seq<(Value, nat)>
    decreases jobs.len(),
{
    if jobs.len() == 0 {
        Seq::empty()
    } else if jobs[0].1 == 0 {
        later(jobs.drop_first())
    } else {
        seq![(jobs[0].0, (jobs[0].1 - 1) as nat)] + later(jobs.drop_first())
    }
}

/// The queue after `passes` passes.
pub open spec fn later_by(jobs: Seq<(Value, nat)>, passes: nat) -> Seq<(Value, nat)>
    decreases passes,
{
    if passes == 0 {
        jobs
    } else {
        later_by(later(jobs), (passes - 1) as nat)
    }
}

/// The number of rounds that `passes` passes take.
pub open spec fn rounds_of(jobs: Seq<(Value, nat)>, passes: nat) -> nat
    decreases passes,
{
    if passes == 0 {
        0
    } else {
        jobs.len() + rounds_of(later(jobs), (passes - 1) as nat)
    }
}

/// Whether every value is held back for less than `bound` steps.
pub open spec fn all_within(jobs: Seq<(Value, nat)>, bound: nat) -> bool {
    forall|i: int| 0 <= i < jobs.len() ==> (#[trigger] jobs[i]).1 < bound
}

/// One pass reports what is due and brings everything else one step nearer.
proof fn lemma_one_pass(jobs: Seq<(Value, nat)>, store: StoreModel)
    ensures
        served(delayed_each(jobs), store) == (ScheduleModel {
            completed: with_steps(jobs, 0),
            active: delayed_each(later(jobs)),
            store,
        }),
    decreases jobs.len(),
{
    let queue = delayed_each(jobs);
    if jobs.len() == 0 {
        assert(delayed_each(later(jobs)) =~= Seq::empty());
    } else {
        let rest = jobs.drop_first();
        assert(queue.drop_first() =~= delayed_each(rest));
        lemma_one_pass(rest, store);
        if jobs[0].1 == 0 {
        } else {
            let next = delayed(jobs[0].0, (jobs[0].1 - 1) as nat);
            assert(seq![next] + delayed_each(later(rest)) =~= delayed_each(later(jobs)));
        }
    }
}

/// What is held back for `steps` steps after a pass was held back for one
/// more before it.
proof fn lemma_later_is_nearer(jobs: Seq<(Value, nat)>, steps: nat)
    ensures
        with_steps(later(jobs), steps) == with_steps(jobs, steps + 1),
    decreases jobs.len(),
{
    if jobs.len() > 0 {
        let rest = jobs.drop_first();
        lemma_later_is_nearer(rest, steps);
        if jobs[0].1 != 0 {
            let front = (jobs[0].0, (jobs[0].1 - 1) as nat);
            let queue = seq![front] + later(rest);
            assert(queue[0] == front);
            assert(queue.drop_first() =~= later(rest));
        }
    }
}

proof fn lemma_later_by_steps(jobs: Seq<(Value, nat)>, from: nat, count: nat)
    ensures
        by_steps(later(jobs), from, count) == by_steps(jobs, from + 1, count),
    decreases count,
{
    if count > 0 {
        lemma_later_is_nearer(jobs, from);
        lemma_later_by_steps(jobs, from + 1, (count - 1) as nat);
    }
}

proof fn lemma_later_is_within(jobs: Seq<(Value, nat)>, bound: nat)
    requires
        all_within(jobs, bound),
        bound > 0,
    ensures
        all_within(later(jobs), (bound - 1) as nat),
    decreases jobs.len(),
{
    if jobs.len() > 0 {
        let rest = jobs.drop_first();
        assert forall|i: int| 0 <= i < rest.len() implies (#[trigger] rest[i]).1 < bound by {
            assert(rest[i] == jobs[i + 1]);
        }
        lemma_later_is_within(rest, bound);
        assert(jobs[0].1 < bound);
        if jobs[0].1 != 0 {
            let front = (jobs[0].0, (jobs[0].1 - 1) as nat);
            let queue = seq![front] + later(rest);
            assert forall|i: int| 0 <= i < queue.len() implies (#[trigger] queue[i]).1 < bound
                - 1 by {
                if i > 0 {
                    assert(queue[i] == later(rest)[i - 1]);
                }
            }
        }
    }
}

proof fn lemma_all_leave(jobs: Seq<(Value, nat)>, passes: nat)
    requires
        all_within(jobs, passes),
    ensures
        later_by(jobs, passes).len() == 0,
    decreases passes,
{
    if passes == 0 {
        if jobs.len() > 0 {
            assert(jobs[0].1 < 0);
        }
    } else {
        lemma_later_is_within(jobs, passes);
        lemma_all_leave(later(jobs), (passes - 1) as nat);
    }
}

/// The scheduler reports results in the order in which the processes
/// complete: the value that is held back for fewer steps comes first, and of
/// two that are held back for the same number of steps the one that stands
/// first in the queue. After `passes` passes everything that is held back
/// for less than `passes` steps has been reported so, behind what had been
/// reported before, and the rest waits in the order of the queue; where
/// nothing is held back longer, no process is left.
pub proof fn lemma_results_come_in_the_order_of_completion(
    jobs: Seq<(Value, nat)>,
    completed: Seq<Value>,
    store: StoreModel,
    passes: nat,
)
    ensures
        scheduled(delayed_each(jobs), completed, store, rounds_of(jobs, passes)) == (
        ScheduleModel {
            completed: completed + by_steps(jobs, 0, passes),
            active: delayed_each(later_by(jobs, passes)),
            store,
        }),
        all_within(jobs, passes) ==> scheduled(
            delayed_each(jobs),
            completed,
            store,
            rounds_of(jobs, passes),
        ).active.len() == 0,
    decreases passes,
{
    if passes == 0 {
        assert(completed + by_steps(jobs, 0, passes) =~= completed);
    } else {
        let queue = delayed_each(jobs);
        let due = with_steps(jobs, 0);
        lemma_schedule_works_in_passes(queue, completed, store);
        lemma_one_pass(jobs, store);
        lemma_schedule_in_two(
            queue,
            completed,
            store,
            jobs.len(),
            rounds_of(later(jobs), (passes - 1) as nat),
        );
        lemma_results_come_in_the_order_of_completion(
            later(jobs),
            completed + due,
            store,
            (passes - 1) as nat,
        );
        lemma_later_by_steps(jobs, 0, (passes - 1) as nat);
        assert(completed + due + by_steps(jobs, 1, (passes - 1) as nat) =~= completed + by_steps(
            jobs,
            0,
            passes,
        ));
    }
    if all_within(jobs, passes) {
        lemma_all_leave(jobs, passes);
    }
}

} // verus!

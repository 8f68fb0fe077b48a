pub mod basic_scheduler;
pub mod pct;
pub mod random;
pub mod recorder;

use crate::gtid::Gtid;
use vstd::prelude::*;

verus! {

/// A policy that picks the next task to run among the runnable ones.
pub trait Scheduler {
    /// The policy's well-formedness, kept by every operation.
    spec fn inv(&self) -> bool;

    /// Whether one more pick among `runnable_len` tasks can be made without a counter or a
    /// length overflowing.
    spec fn can_step(&self, runnable_len: nat) -> bool;

    /// Whether the last pick can be taken back.
    spec fn can_revert(&self) -> bool;

    /// Whether a pick among `runnable`, with `current` the task that ran last, may take the
    /// policy from `self` to `after` and give `res`.
    spec fn picks(self, after: Self, runnable: Seq<Gtid>, current: Option<Gtid>, res: (
        Option<Gtid>,
        bool,
    )) -> bool;

    /// Whether starting a new run may take the policy from `self` to `after`.
    spec fn restarts(self, after: Self) -> bool;

    /// Whether taking back the last pick may take the policy from `self` to `after`.
    spec fn reverts(self, after: Self) -> bool;

    /// Whether a pick can be made among any number of tasks up to `runnable_len`.
    fn can_step_up_to(&self, runnable_len: usize) -> (res: bool)
        requires
            self.inv(),
        ensures
            res == forall|n: nat| n <= runnable_len ==> #[trigger] self.can_step(n),
    ;

    /// Starts a new run of the program under test.
    fn new_execution(&mut self)
        requires
            old(self).inv(),
        ensures
            final(self).inv(),
            old(self).restarts(*final(self)),
    ;

    /// Picks a task among `runnable_tasks`: `None` exactly when there is none, and the flag
    /// tells whether a task was picked.
    fn next_task(&mut self, runnable_tasks: &Vec<Gtid>, current_task: Option<Gtid>) -> (res: (
        Option<Gtid>,
        bool,
    ))
        requires
            old(self).inv(),
            old(self).can_step(runnable_tasks@.len()),
        ensures
            final(self).inv(),
            res.0 is Some <==> runnable_tasks.len() > 0,
            res.1 == res.0 is Some,
            res.0 matches Some(t) ==> runnable_tasks@.contains(t),
            runnable_tasks.len() > 0 ==> final(self).can_revert(),
            old(self).picks(*final(self), runnable_tasks@, current_task, res),
    ;

    /// The lines that describe the schedules taken so far.
    fn dump_schedules(&self) -> Vec<String>;

    /// Takes back the last pick.
    fn revert_last_choice(&mut self)
        requires
            old(self).inv(),
            old(self).can_revert(),
        ensures
            final(self).inv(),
            old(self).reverts(*final(self)),
    ;
}

} // verus!

use crate::gtid::Gtid;
use crate::schedulers::Scheduler;
use std::collections::HashSet;
use vstd::prelude::*;

verus! {

/// The first element of a walk over `set` (`HashSet::iter` and the walk's first `next`):
/// `None` exactly when the set is empty, else some element of the set. Which element comes
/// first depends on the set's hasher, which each process seeds anew.
#[verifier::external_body]
fn first_of(set: &HashSet<i64>) -> (res: Option<i64>)
    ensures
        res is None <==> set@.is_empty(),
        res matches Some(x) ==> set@.contains(x),
{
    set.iter().next().copied()
}

/// A run queue without order, keyed by the raw task identifiers.
pub struct BaseScheduler {
    run_queue: HashSet<i64>,
}

impl BaseScheduler {
    /// The raw identifiers of the queued tasks.
    pub closed spec fn queued(self) -> Set<i64> {
        self.run_queue@
    }

    /// An empty run queue.
    pub fn new() -> (res: Self)
        ensures
            res.queued() == Set::<i64>::empty(),
            res.inv(),
            forall|n: nat| #[trigger] res.can_step(n),
    {
        Self { run_queue: HashSet::new() }
    }

    /// Queues the task `id`.
    pub fn add_task(&mut self, id: &Gtid)
        ensures
            final(self).queued() == old(self).queued().insert(id.gtid_raw),
    {
        broadcast use vstd::std_specs::hash::group_hash_axioms;

        self.run_queue.insert(id.gtid_raw);
    }

    /// Takes some queued task off the queue; `None` when the queue is empty. Which task comes
    /// out depends on the order in which the hash set is walked.
    pub fn get_next(&mut self) -> (res: Option<Gtid>)
        ensures
            res is None <==> old(self).queued().is_empty(),
            res is None ==> final(self).queued() == old(self).queued(),
            res matches Some(g) ==> old(self).queued().contains(g.gtid_raw) && final(self).queued()
                == old(self).queued().remove(g.gtid_raw),
    {
        broadcast use vstd::std_specs::hash::group_hash_axioms;

        let elem = match first_of(&self.run_queue) {
            None => {
                return None;
            },
            Some(e) => e,
        };
        self.run_queue.remove(&elem);
        Some(Gtid::new(elem))
    }

    /// Takes the task `id` off the queue.
    pub fn remove_task(&mut self, id: &Gtid)
        ensures
            final(self).queued() == old(self).queued().remove(id.gtid_raw),
    {
        broadcast use vstd::std_specs::hash::group_hash_axioms;

        self.run_queue.remove(&id.gtid_raw);
    }
}

impl Scheduler for BaseScheduler {
    open spec fn inv(&self) -> bool {
        true
    }

    open spec fn can_step(&self, runnable_len: nat) -> bool {
        true
    }

    open spec fn can_revert(&self) -> bool {
        true
    }

    /// The first runnable task, with the queue left as it is.
    open spec fn picks(self, after: Self, runnable: Seq<Gtid>, current: Option<Gtid>, res: (
        Option<Gtid>,
        bool,
    )) -> bool {
        &&& after == self
        &&& runnable.len() > 0 ==> res.0 == Some(runnable[0])
    }

    open spec fn restarts(self, after: Self) -> bool {
        after == self
    }

    open spec fn reverts(self, after: Self) -> bool {
        after == self
    }

    fn can_step_up_to(&self, runnable_len: usize) -> (res: bool) {
        true
    }

    fn new_execution(&mut self)
        ensures
            *final(self) == *old(self),
    {
    }

    /// Picks the first runnable task.
    fn next_task(&mut self, runnable_tasks: &Vec<Gtid>, _current_task: Option<Gtid>) -> (res: (
        Option<Gtid>,
        bool,
    ))
        ensures
            *final(self) == *old(self),
            runnable_tasks.len() > 0 ==> res.0 == Some(runnable_tasks@[0]),
    {
        if !runnable_tasks.is_empty() {
            proof {
                assert(runnable_tasks@.contains(runnable_tasks@[0]));
            }
            (Some(runnable_tasks[0]), true)
        } else {
            (None, false)
        }
    }

    fn dump_schedules(&self) -> (lines: Vec<String>)
        ensures
            lines.len() == 0,
    {
        Vec::new()
    }

    fn revert_last_choice(&mut self)
        ensures
            *final(self) == *old(self),
    {
    }
}

} // verus!

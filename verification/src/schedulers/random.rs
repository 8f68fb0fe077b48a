use crate::gtid::Gtid;
use crate::random::random_source::RandomSource;
use crate::schedulers::Scheduler;
use vstd::prelude::*;

verus! {

/// A policy that picks by the choices of a `RandomSource`, replaying its recorded choices.
pub struct RandomScheduler {
    rand: RandomSource,
}

impl RandomScheduler {
    /// The recorded choices.
    pub closed spec fn choices(self) -> Seq<usize> {
        self.rand.choices@
    }

    /// The position in the recorded choices.
    pub closed spec fn position(self) -> int {
        self.rand.index as int
    }

    /// `after` is `before` after picking `task` among the non-empty `runnable`: the position
    /// moves on by one, a value is drawn and recorded when the recording was exhausted, and
    /// the task is `runnable[c % len]` for the choice `c` at the old position.
    pub open spec fn picked(before: Self, after: Self, runnable: Seq<Gtid>, task: Option<Gtid>) -> bool {
        &&& after.position() == before.position() + 1
        &&& after.choices().len() > before.position()
        &&& before.position() < before.choices().len() ==> after.choices() == before.choices()
        &&& before.position() == before.choices().len() ==> after.choices().drop_last()
            == before.choices()
        &&& task == Some(runnable[(after.choices()[before.position()] % runnable.len() as usize) as int])
    }

    /// A policy that starts from a fixed recording of choices.
    pub fn new() -> (res: Self)
        ensures
            res.choices() == seq![0usize, 0, 0, 1, 2, 1, 2, 2, 1, 1, 0],
            res.position() == 0,
            res.inv(),
            forall|n: nat| #[trigger] res.can_step(n),
    {
        Self { rand: RandomSource::from_choices(vec![0, 0, 0, 1, 2, 1, 2, 2, 1, 1, 0]) }
    }
}

impl Scheduler for RandomScheduler {
    open spec fn inv(&self) -> bool {
        self.position() <= self.choices().len()
    }

    open spec fn can_step(&self, runnable_len: nat) -> bool {
        self.position() < usize::MAX
    }

    open spec fn can_revert(&self) -> bool {
        self.position() > 0
    }

    /// The task at the next recorded (or drawn) choice; nothing changes when no task is
    /// runnable.
    open spec fn picks(self, after: Self, runnable: Seq<Gtid>, current: Option<Gtid>, res: (
        Option<Gtid>,
        bool,
    )) -> bool {
        &&& runnable.len() == 0 ==> after == self
        &&& runnable.len() > 0 ==> Self::picked(self, after, runnable, res.0)
    }

    /// Back to the start of the same recording.
    open spec fn restarts(self, after: Self) -> bool {
        &&& after.choices() == self.choices()
        &&& after.position() == 0
    }

    /// One position back in the same recording.
    open spec fn reverts(self, after: Self) -> bool {
        &&& after.choices() == self.choices()
        &&& after.position() == self.position() - 1
    }

    fn can_step_up_to(&self, runnable_len: usize) -> (res: bool) {
        let res = self.rand.index < usize::MAX;
        proof {
            if !res {
                assert(!self.can_step(0));
            }
        }
        res
    }

    /// Rewinds to the start of the recorded choices.
    fn new_execution(&mut self)
        ensures
            final(self).choices() == old(self).choices(),
            final(self).position() == 0,
    {
        self.rand.index = 0;
    }

    /// Picks `runnable_tasks[c % len]` for the next choice `c`.
    fn next_task(&mut self, runnable_tasks: &Vec<Gtid>, _current_task: Option<Gtid>) -> (res: (
        Option<Gtid>,
        bool,
    ))
        ensures
            runnable_tasks.len() == 0 ==> *final(self) == *old(self),
            runnable_tasks.len() > 0 ==> Self::picked(*old(self), *final(self), runnable_tasks@, res.0),
    {
        if runnable_tasks.is_empty() {
            return (None, false);
        }
        let idx = self.rand.next_choice() % runnable_tasks.len();
        proof {
            assert(runnable_tasks@.contains(runnable_tasks@[idx as int]));
            if old(self).rand.index == old(self).rand.choices.len() {
                assert(self.rand.choices@.drop_last() =~= old(self).rand.choices@);
            }
        }
        (Some(runnable_tasks[idx]), true)
    }

    fn dump_schedules(&self) -> (lines: Vec<String>)
        ensures
            lines.len() == 0,
    {
        Vec::new()
    }

    /// Steps back one position in the recorded choices.
    fn revert_last_choice(&mut self)
        ensures
            final(self).choices() == old(self).choices(),
            final(self).position() == old(self).position() - 1,
    {
        self.rand.index = self.rand.index - 1;
    }
}

/// Replay: a scheduler that starts a new run and then picks among a non-empty runnable list
/// picks the task at its first recorded choice, and keeps its recording.
pub proof fn law_replay_first_choice(
    s0: RandomScheduler,
    s1: RandomScheduler,
    s2: RandomScheduler,
    runnable: Seq<Gtid>,
    task: Option<Gtid>,
)
    requires
        s0.choices().len() > 0,
        s1.choices() == s0.choices(),
        s1.position() == 0,
        runnable.len() > 0,
        RandomScheduler::picked(s1, s2, runnable, task),
    ensures
        task == Some(runnable[(s0.choices()[0] % runnable.len() as usize) as int]),
        s2.choices() == s0.choices(),
        s2.position() == 1,
{
}

/// Taking a pick back and picking again among the same tasks picks the same task, and leaves
/// the recording and the position as the first pick left them.
pub proof fn law_revert_repeats_pick(
    s1: RandomScheduler,
    s2: RandomScheduler,
    s3: RandomScheduler,
    s4: RandomScheduler,
    runnable: Seq<Gtid>,
    first: Option<Gtid>,
    second: Option<Gtid>,
)
    requires
        s1.position() <= s1.choices().len(),
        runnable.len() > 0,
        RandomScheduler::picked(s1, s2, runnable, first),
        s3.choices() == s2.choices(),
        s3.position() == s2.position() - 1,
        RandomScheduler::picked(s3, s4, runnable, second),
    ensures
        second == first,
        s4.choices() == s2.choices(),
        s4.position() == s2.position(),
{
}

} // verus!

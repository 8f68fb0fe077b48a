use crate::gtid::{first_index_of, null_gtid, position_of, Gtid};
use crate::schedulers::Scheduler;
use crate::text::{decimal_text_of, joined, push_decimal};
use vstd::string::StringExecFns;
use vstd::prelude::*;

verus! {

/// `s` without its last element, or `s` itself when it is empty.
pub open spec fn drop_last_if_any<T>(s: Seq<T>) -> Seq<T> {
    if s.len() > 0 {
        s.drop_last()
    } else {
        s
    }
}

/// A policy wrapper that records every pick of the policy it wraps.
pub struct ScheduleRecorder<S: Scheduler> {
    run_queue: Vec<Gtid>,
    choices: Vec<usize>,
    scheduler: S,
}

impl<S: Scheduler> ScheduleRecorder<S> {
    /// The tasks picked so far, `gtid_raw == 0` for a step with nothing runnable.
    pub closed spec fn schedule(self) -> Seq<Gtid> {
        self.run_queue@
    }

    /// The positions of the picked tasks in their runnable lists.
    pub closed spec fn recorded_choices(self) -> Seq<usize> {
        self.choices@
    }

    /// The wrapped policy.
    pub closed spec fn inner(self) -> S {
        self.scheduler
    }

    /// A recorder with nothing recorded.
    pub fn new(scheduler: S) -> (res: Self)
        ensures
            res.schedule() == Seq::<Gtid>::empty(),
            res.recorded_choices() == Seq::<usize>::empty(),
            res.inner() == scheduler,
            res.inv() == scheduler.inv(),
    {
        Self { run_queue: Vec::new(), choices: Vec::new(), scheduler }
    }
}

impl<S: Scheduler> Scheduler for ScheduleRecorder<S> {
    open spec fn inv(&self) -> bool {
        self.inner().inv()
    }

    open spec fn can_step(&self, runnable_len: nat) -> bool {
        self.inner().can_step(runnable_len)
    }

    open spec fn can_revert(&self) -> bool {
        self.inner().can_revert()
    }

    /// The wrapped policy's pick, with the picked task and its first position among the
    /// runnable tasks recorded (the null identifier when nothing was picked).
    open spec fn picks(self, after: Self, runnable: Seq<Gtid>, current: Option<Gtid>, res: (
        Option<Gtid>,
        bool,
    )) -> bool {
        &&& self.inner().picks(after.inner(), runnable, current, res)
        &&& match res.0 {
            Some(t) => {
                &&& after.schedule() == self.schedule().push(t)
                &&& after.recorded_choices() == self.recorded_choices().push(
                    first_index_of(runnable, t) as usize,
                )
                &&& runnable[first_index_of(runnable, t)] == t
            },
            None => {
                &&& after.schedule() == self.schedule().push(Gtid { gtid_raw: 0 })
                &&& after.recorded_choices() == self.recorded_choices()
            },
        }
    }

    /// The wrapped policy restarted, with nothing recorded.
    open spec fn restarts(self, after: Self) -> bool {
        &&& self.inner().restarts(after.inner())
        &&& after.schedule() == Seq::<Gtid>::empty()
        &&& after.recorded_choices() == Seq::<usize>::empty()
    }

    /// The wrapped policy's last pick taken back, with its record dropped.
    open spec fn reverts(self, after: Self) -> bool {
        &&& self.inner().reverts(after.inner())
        &&& after.schedule() == drop_last_if_any(self.schedule())
        &&& after.recorded_choices() == drop_last_if_any(self.recorded_choices())
    }

    fn can_step_up_to(&self, runnable_len: usize) -> (res: bool) {
        let res = self.scheduler.can_step_up_to(runnable_len);
        proof {
            if !res {
                let n = choose|n: nat| n <= runnable_len && !self.scheduler.can_step(n);
                assert(!self.can_step(n));
            }
        }
        res
    }

    /// Starts the wrapped policy afresh and forgets the recording.
    fn new_execution(&mut self)
        ensures
            final(self).schedule() == Seq::<Gtid>::empty(),
            final(self).recorded_choices() == Seq::<usize>::empty(),
    {
        self.scheduler.new_execution();
        self.run_queue.clear();
        self.choices.clear();
    }

    /// Hands on the wrapped policy's pick and records it.
    fn next_task(&mut self, runnable_tasks: &Vec<Gtid>, current_task: Option<Gtid>) -> (res: (
        Option<Gtid>,
        bool,
    ))
        ensures
            match res.0 {
                Some(t) => {
                    &&& final(self).schedule() == old(self).schedule().push(t)
                    &&& final(self).recorded_choices() == old(self).recorded_choices().push(
                        first_index_of(runnable_tasks@, t) as usize,
                    )
                    &&& runnable_tasks@[first_index_of(runnable_tasks@, t)] == t
                },
                None => {
                    &&& final(self).schedule() == old(self).schedule().push(Gtid { gtid_raw: 0 })
                    &&& final(self).recorded_choices() == old(self).recorded_choices()
                },
            },
    {
        let (task, res) = self.scheduler.next_task(runnable_tasks, current_task);
        if let Some(selected_task) = task {
            self.run_queue.push(selected_task);
            match position_of(runnable_tasks, selected_task) {
                Some(pos) => {
                    self.choices.push(pos);
                },
                None => {},
            }
        } else {
            self.run_queue.push(null_gtid());
        }
        (task, res)
    }

    /// Two lines: the schedule as task identifiers and the choices as positions, each list
    /// joined with `", "`.
    fn dump_schedules(&self) -> (lines: Vec<String>)
        ensures
            lines.len() == 2,
            lines@[0]@ == "Schedule: "@ + joined(self.schedule().map_values(|g: Gtid| g.text())),
            lines@[1]@ == "Choices: "@ + joined(
                self.recorded_choices().map_values(|c: usize| decimal_text_of(c as nat)),
            ),
    {
        let mut schedule = "Schedule: ".to_owned();
        let ghost parts = self.run_queue@.map_values(|g: Gtid| g.text());
        let mut i: usize = 0;
        while i < self.run_queue.len()
            invariant
                0 <= i <= self.run_queue.len(),
                parts == self.run_queue@.map_values(|g: Gtid| g.text()),
                schedule@ == "Schedule: "@ + joined(parts.take(i as int)),
            decreases self.run_queue.len() - i,
        {
            if i > 0 {
                schedule.append(", ");
            }
            let part = self.run_queue[i].to_string();
            schedule.append(part.as_str());
            proof {
                reveal_strlit(", ");
                assert(parts.take(i + 1).drop_last() =~= parts.take(i as int));
                assert(parts.take(i + 1).last() == part@);
                if i == 0 {
                    assert(parts.take(1) =~= seq![part@]);
                    assert(schedule@ =~= "Schedule: "@ + joined(parts.take(i + 1)));
                } else {
                    assert(schedule@ =~= "Schedule: "@ + joined(parts.take(i + 1)));
                }
            }
            i = i + 1;
        }
        proof {
            assert(parts.take(self.run_queue.len() as int) =~= parts);
        }
        let mut choices = "Choices: ".to_owned();
        let ghost cparts = self.choices@.map_values(|c: usize| decimal_text_of(c as nat));
        let mut j: usize = 0;
        while j < self.choices.len()
            invariant
                0 <= j <= self.choices.len(),
                cparts == self.choices@.map_values(|c: usize| decimal_text_of(c as nat)),
                choices@ == "Choices: "@ + joined(cparts.take(j as int)),
            decreases self.choices.len() - j,
        {
            if j > 0 {
                choices.append(", ");
            }
            push_decimal(&mut choices, self.choices[j]);
            proof {
                reveal_strlit(", ");
                assert(cparts.take(j + 1).drop_last() =~= cparts.take(j as int));
                assert(cparts.take(j + 1).last() == decimal_text_of(self.choices@[j as int] as nat));
                if j == 0 {
                    assert(cparts.take(1) =~= seq![decimal_text_of(self.choices@[0] as nat)]);
                    assert(choices@ =~= "Choices: "@ + joined(cparts.take(j + 1)));
                } else {
                    assert(choices@ =~= "Choices: "@ + joined(cparts.take(j + 1)));
                }
            }
            j = j + 1;
        }
        proof {
            assert(cparts.take(self.choices.len() as int) =~= cparts);
        }
        let mut lines: Vec<String> = Vec::new();
        lines.push(schedule);
        lines.push(choices);
        lines
    }

    /// Forgets the last recorded pick and takes it back in the wrapped policy.
    fn revert_last_choice(&mut self)
        ensures
            final(self).schedule() == drop_last_if_any(old(self).schedule()),
            final(self).recorded_choices() == drop_last_if_any(old(self).recorded_choices()),
    {
        self.run_queue.pop();
        self.choices.pop();
        self.scheduler.revert_last_choice();
    }
}

/// Taking back a pick forgets what recording it added and takes the pick back in the wrapped
/// policy: after a pick that chose a task and a revert, the schedule and the recorded choices
/// are as before the pick, and the wrapped policy went from its state after the pick through
/// its own revert.
pub proof fn law_revert_undoes_record<S: Scheduler>(
    r1: ScheduleRecorder<S>,
    r2: ScheduleRecorder<S>,
    r3: ScheduleRecorder<S>,
    runnable: Seq<Gtid>,
    current: Option<Gtid>,
    t: Gtid,
    picked: bool,
)
    requires
        r1.picks(r2, runnable, current, (Some(t), picked)),
        r2.reverts(r3),
    ensures
        r3.schedule() == r1.schedule(),
        r3.recorded_choices() == r1.recorded_choices(),
        r2.inner().reverts(r3.inner()),
{
    assert(r2.schedule().drop_last() =~= r1.schedule());
    assert(r2.recorded_choices().drop_last() =~= r1.recorded_choices());
}

} // verus!

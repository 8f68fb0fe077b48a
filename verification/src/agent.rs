use crate::abi::{
    COMMIT_AT_TXN_COMMIT, ENOENT, ESTALE, GHOST_ASSOC_SF_ALREADY, GHOST_ASSOC_SF_BRAND_NEW,
    GHOST_SW_F_CANFREE, GHOST_SW_TASK_RUNNABLE, MSG_CPU_FIRST, MSG_CPU_LAST, MSG_NOP,
    MSG_TASK_BLOCKED, MSG_TASK_DEAD, MSG_TASK_DEPARTED, MSG_TASK_NEW, MSG_TASK_PREEMPT,
    MSG_TASK_SWITCHTO, MSG_TASK_WAKEUP, MSG_TASK_YIELD, RTLA_ON_IDLE,
};
use crate::gtid::Gtid;
use crate::message::{Message, MessageHeader, Payload, SwInfo};
use crate::requester::RunRequestOption;
use crate::scheduler::{StatusWord, Task, TaskState};
use crate::schedulers::pct::PctScheduler;
use crate::schedulers::Scheduler;
use vstd::prelude::*;

verus! {

/// Work the agent hands to the kernel, in order.
#[derive(Clone, Copy, Debug, PartialEq, Eq, Structural)]
pub enum AgentAction {
    /// Wake the agent of `cpu`.
    Ping { cpu: i32 },
    /// Associate task `gtid` with the agent's queue at `barrier`; this must succeed.
    Associate { gtid: Gtid, barrier: u32 },
    /// Free the status word at `sw_info`; this must succeed.
    FreeStatusWord { sw_info: SwInfo },
}

/// What the agent does with its CPU after handling its messages.
#[derive(Clone, Copy, Debug)]
pub enum ScheduleStep {
    /// Run `target` with a transaction opened from `option`.
    Run { target: Gtid, option: RunRequestOption },
    /// Yield the CPU.
    Yield { agent_barrier: u32, run_flags: i32 },
}

/// How discovery goes on after a failed association.
#[derive(Clone, Copy, Debug, PartialEq, Eq, Structural)]
pub enum DiscoveryStep {
    /// Done with this status word.
    Stop,
    /// Read the status word again and try once more.
    Retry,
    /// Go on with the association's result.
    Proceed,
}

/// No two tasks share an identifier.
pub open spec fn unique_gtids(tasks: Seq<Task>) -> bool {
    forall|i: int, j: int| 0 <= i < j < tasks.len() ==> tasks[i].gtid != tasks[j].gtid
}

/// Some task has identifier `g`.
pub open spec fn has_task(tasks: Seq<Task>, g: Gtid) -> bool {
    exists|i: int| 0 <= i < tasks.len() && #[trigger] tasks[i].gtid == g
}

/// The pings a message about a task that stopped running asks for.
pub open spec fn switch_pings(msg: Message) -> Seq<AgentAction> {
    match msg.payload {
        Payload::Switched { from_switchto, cpu } => if from_switchto {
            seq![AgentAction::Ping { cpu }]
        } else {
            seq![]
        },
        _ => seq![],
    }
}

/// Whether a message of type `t` about a known task moves that task's sequence number on.
pub open spec fn updates_seqnum(t: u32) -> bool {
    t != MSG_TASK_NEW && t != MSG_TASK_DEAD && t != MSG_TASK_DEPARTED
}

/// A known task after a message about it (other than a new-task message).
pub open spec fn task_after(task: Task, msg: Message, agent_cpu: i32) -> Task {
    let t = msg.header.type_ as u32;
    let state = if t == MSG_TASK_PREEMPT || t == MSG_TASK_YIELD || t == MSG_TASK_WAKEUP {
        TaskState::Runnable
    } else if t == MSG_TASK_DEAD || t == MSG_TASK_BLOCKED || t == MSG_TASK_DEPARTED || t
        == MSG_TASK_SWITCHTO {
        TaskState::Blocked
    } else {
        task.state
    };
    let cpu = if t == MSG_TASK_WAKEUP && task.cpu < 0 {
        agent_cpu
    } else {
        task.cpu
    };
    let seqnum = if updates_seqnum(t) {
        (task.seqnum + 1) as u32
    } else {
        task.seqnum
    };
    Task { state, cpu, seqnum, ..task }
}

/// The work a message about a known task (other than a new-task message) asks for.
pub open spec fn actions_after(task: Task, msg: Message, agent_cpu: i32) -> Seq<AgentAction> {
    let t = msg.header.type_ as u32;
    if t == MSG_TASK_PREEMPT || t == MSG_TASK_BLOCKED || t == MSG_TASK_YIELD || t
        == MSG_TASK_DEPARTED {
        switch_pings(msg)
    } else if t == MSG_TASK_WAKEUP && task.cpu < 0 {
        seq![
            AgentAction::Associate { gtid: task.gtid, barrier: msg.header.seqnum },
            AgentAction::Ping { cpu: agent_cpu },
        ]
    } else {
        seq![]
    }
}

/// Whether a new-task message says the task can run.
pub open spec fn new_task_runnable(msg: Message) -> bool {
    match msg.payload {
        Payload::TaskNew { runnable, .. } => runnable,
        _ => false,
    }
}

/// A task that a new-task message has just been handled for, `base` being its record before.
pub open spec fn task_started(base: Task, msg: Message, agent_cpu: i32) -> Task {
    if new_task_runnable(msg) {
        Task { seqnum: msg.header.seqnum, cpu: agent_cpu, state: TaskState::Runnable, ..base }
    } else {
        Task { seqnum: msg.header.seqnum, ..base }
    }
}

/// The work a new-task message about task `g` asks for.
pub open spec fn start_actions(g: Gtid, msg: Message, agent_cpu: i32) -> Seq<AgentAction> {
    if new_task_runnable(msg) {
        seq![
            AgentAction::Associate { gtid: g, barrier: msg.header.seqnum },
            AgentAction::Ping { cpu: agent_cpu },
        ]
    } else {
        seq![]
    }
}

/// The record of a task that has just been found.
pub open spec fn fresh_task(id: Gtid, swi: SwInfo) -> Task {
    Task {
        gtid: id,
        status_word: StatusWord { sw_info: swi },
        seqnum: 0,
        cpu: -1i32,
        state: TaskState::Blocked,
    }
}

/// The task with identifier `g`.
pub open spec fn task_of(tasks: Seq<Task>, g: Gtid) -> Task {
    tasks[choose|i: int| 0 <= i < tasks.len() && #[trigger] tasks[i].gtid == g]
}

/// The identifiers of the runnable tasks, in order.
pub open spec fn runnable_gtids(tasks: Seq<Task>) -> Seq<Gtid> {
    tasks.filter(|t: Task| t.state == TaskState::Runnable).map_values(|t: Task| t.gtid)
}

/// The run request the agent opens to run `target`.
pub open spec fn run_option(target: Gtid, target_barrier: u32, agent_barrier: u32) -> RunRequestOption {
    RunRequestOption {
        target,
        target_barrier,
        agent_barrier,
        commit_flags: COMMIT_AT_TXN_COMMIT,
        run_flags: 0,
        sync_group_owner: -1i32,
        allow_txn_target_on_cpu: false,
    }
}

/// The length of a new-task message: its header and its payload.
pub const TASK_NEW_MSG_LENGTH: u16 = 48;

/// The new-task message the agent makes up for a task it found in a status word region.
pub open spec fn discovery_message(
    id: Gtid,
    sw_info: SwInfo,
    sw_barrier: u32,
    sw_flags: u32,
    sw_runtime: u32,
) -> Message {
    Message {
        header: MessageHeader {
            type_: MSG_TASK_NEW as u16,
            length: TASK_NEW_MSG_LENGTH,
            seqnum: sw_barrier,
        },
        gtid: id,
        payload: Payload::TaskNew {
            parent_gtid: 0,
            runtime: sw_runtime as u64,
            runnable: sw_flags & GHOST_SW_TASK_RUNNABLE != 0,
            sw_info,
        },
    }
}

/// `tasks` with the task `g` replaced by `f` of it.
pub open spec fn map_task(tasks: Seq<Task>, g: Gtid, f: spec_fn(Task) -> Task) -> Seq<Task> {
    tasks.map_values(|t: Task| if t.gtid == g { f(t) } else { t })
}

/// The agent of one CPU: the tasks it knows, its scheduling policy, the task it ran last and
/// the process whose tasks it schedules.
pub struct Agent<S: Scheduler> {
    pub cpu: i32,
    pub tasks: Vec<Task>,
    pub scheduler: S,
    pub current_task: Option<Gtid>,
    pub current_parent_gtid: u64,
}

impl Agent<PctScheduler> {
    /// The agent of `cpu`, scheduling with five change points per run.
    pub fn new(cpu: i32) -> (res: Self)
        ensures
            res.cpu == cpu,
            res.tasks@ == Seq::<Task>::empty(),
            res.current_task is None,
            res.current_parent_gtid == 0,
            res.scheduler.depth() == 5,
            res.scheduler.priority_order() == Seq::<Gtid>::empty(),
            res.scheduler.change_point_set() == Set::<usize>::empty(),
            res.scheduler.step_count() == 0,
            res.scheduler.max_step_count() == 0,
            res.wf(),
    {
        Self::with_scheduler(cpu, PctScheduler::new(5))
    }
}

impl<S: Scheduler> Agent<S> {
    /// The agent's well-formedness: task identifiers are unique and the policy is sound.
    pub open spec fn wf(self) -> bool {
        &&& unique_gtids(self.tasks@)
        &&& self.scheduler.inv()
    }

    /// The agent of `cpu` with the policy `scheduler`.
    pub fn with_scheduler(cpu: i32, scheduler: S) -> (res: Self)
        requires
            scheduler.inv(),
        ensures
            res.cpu == cpu,
            res.tasks@ == Seq::<Task>::empty(),
            res.current_task is None,
            res.current_parent_gtid == 0,
            res.scheduler == scheduler,
            res.wf(),
    {
        Self { cpu, tasks: Vec::new(), scheduler, current_task: None, current_parent_gtid: 0 }
    }

    /// Whether the agent's loop goes on: until it is told to finish and no task is left.
    pub fn keeps_running(&self, finished: bool) -> (res: bool)
        ensures
            res == (!finished || self.tasks.len() > 0),
    {
        !finished || !self.tasks.is_empty()
    }

    /// The position of the task `g`.
    pub fn find_task(&self, g: Gtid) -> (res: Option<usize>)
        ensures
            res is None <==> !has_task(self.tasks@, g),
            res matches Some(i) ==> i < self.tasks.len() && self.tasks@[i as int].gtid == g,
    {
        let mut i: usize = 0;
        while i < self.tasks.len()
            invariant
                0 <= i <= self.tasks.len(),
                forall|j: int| 0 <= j < i ==> self.tasks@[j].gtid != g,
            decreases self.tasks.len() - i,
        {
            if self.tasks[i].gtid == g {
                return Some(i);
            }
            i = i + 1;
        }
        None
    }

    /// Replaces the task at `i` and proves what that does to the task list.
    fn replace_task(&mut self, i: usize, t: Task)
        requires
            i < old(self).tasks.len(),
            t.gtid == old(self).tasks@[i as int].gtid,
            unique_gtids(old(self).tasks@),
        ensures
            final(self).tasks@ == old(self).tasks@.update(i as int, t),
            final(self).cpu == old(self).cpu,
            final(self).scheduler == old(self).scheduler,
            final(self).current_task == old(self).current_task,
            final(self).current_parent_gtid == old(self).current_parent_gtid,
            unique_gtids(final(self).tasks@),
    {
        self.tasks.set(i, t);
    }

    proof fn lemma_map_single(tasks: Seq<Task>, i: int, g: Gtid, f: spec_fn(Task) -> Task)
        requires
            unique_gtids(tasks),
            0 <= i < tasks.len(),
            tasks[i].gtid == g,
        ensures
            map_task(tasks, g, f) =~= tasks.update(i, f(tasks[i])),
    {
    }

    /// Marks the task `gtid` with `state` and returns the pings of a switch-to payload.
    fn set_state_and_ping(&mut self, gtid: Gtid, msg: &Message, state: TaskState, ping: bool) -> (res:
        Vec<AgentAction>)
        requires
            has_task(old(self).tasks@, gtid),
            unique_gtids(old(self).tasks@),
        ensures
            final(self).tasks@ == map_task(
                old(self).tasks@,
                gtid,
                |t: Task| Task { state: state, ..t },
            ),
            res@ == if ping {
                switch_pings(*msg)
            } else {
                seq![]
            },
            final(self).cpu == old(self).cpu,
            final(self).scheduler == old(self).scheduler,
            final(self).current_task == old(self).current_task,
            final(self).current_parent_gtid == old(self).current_parent_gtid,
            unique_gtids(final(self).tasks@),
    {
        let i = match self.find_task(gtid) {
            Some(i) => i,
            None => {
                return Vec::new();
            },
        };
        let mut t = self.tasks[i];
        t.state = state;
        self.replace_task(i, t);
        proof {
            Self::lemma_map_single(old(self).tasks@, i as int, gtid, |t: Task| Task { state: state, ..t });
        }
        let mut res: Vec<AgentAction> = Vec::new();
        if ping {
            match msg.payload {
                Payload::Switched { from_switchto, cpu } => {
                    if from_switchto {
                        res.push(AgentAction::Ping { cpu });
                    }
                },
                _ => {},
            }
        }
        proof {
            assert(res@ =~= if ping {
                switch_pings(*msg)
            } else {
                seq![]
            });
        }
        res
    }

    proof fn lemma_task_of(tasks: Seq<Task>, i: int, g: Gtid)
        requires
            unique_gtids(tasks),
            0 <= i < tasks.len(),
            tasks[i].gtid == g,
        ensures
            task_of(tasks, g) == tasks[i],
    {
        let k = choose|k: int| 0 <= k < tasks.len() && #[trigger] tasks[k].gtid == g;
        assert(tasks[k].gtid == g);
    }

    /// Records a newly found task `id` whose status word is at `swi`; `false`, with nothing
    /// changed, when the task is known already.
    pub fn create_task(&mut self, id: Gtid, swi: SwInfo) -> (res: bool)
        requires
            unique_gtids(old(self).tasks@),
        ensures
            res == !has_task(old(self).tasks@, id),
            res ==> final(self).tasks@ == old(self).tasks@.push(fresh_task(id, swi)),
            !res ==> final(self).tasks@ == old(self).tasks@,
            final(self).cpu == old(self).cpu,
            final(self).scheduler == old(self).scheduler,
            final(self).current_task == old(self).current_task,
            final(self).current_parent_gtid == old(self).current_parent_gtid,
            unique_gtids(final(self).tasks@),
    {
        if self.find_task(id).is_some() {
            return false;
        }
        self.tasks.push(
            Task {
                gtid: id,
                status_word: StatusWord::new(id, swi),
                seqnum: 0,
                cpu: -1,
                state: TaskState::Blocked,
            },
        );
        proof {
            assert(self.tasks@ =~= old(self).tasks@.push(fresh_task(id, swi)));
        }
        true
    }

    /// A preempted task can run again; pings the CPU it was switched to from, if any.
    pub fn task_preempted(&mut self, gtid: Gtid, msg: &Message) -> (res: Vec<AgentAction>)
        requires
            has_task(old(self).tasks@, gtid),
            unique_gtids(old(self).tasks@),
        ensures
            final(self).tasks@ == map_task(
                old(self).tasks@,
                gtid,
                |t: Task| Task { state: TaskState::Runnable, ..t },
            ),
            res@ == switch_pings(*msg),
            final(self).cpu == old(self).cpu,
            final(self).scheduler == old(self).scheduler,
            final(self).current_task == old(self).current_task,
            final(self).current_parent_gtid == old(self).current_parent_gtid,
            unique_gtids(final(self).tasks@),
    {
        self.set_state_and_ping(gtid, msg, TaskState::Runnable, true)
    }

    /// A task that switched to another one is blocked.
    pub fn task_switchto(&mut self, gtid: Gtid, _msg: &Message) -> (res: Vec<AgentAction>)
        requires
            has_task(old(self).tasks@, gtid),
            unique_gtids(old(self).tasks@),
        ensures
            final(self).tasks@ == map_task(
                old(self).tasks@,
                gtid,
                |t: Task| Task { state: TaskState::Blocked, ..t },
            ),
            res@ == Seq::<AgentAction>::empty(),
            final(self).cpu == old(self).cpu,
            final(self).scheduler == old(self).scheduler,
            final(self).current_task == old(self).current_task,
            final(self).current_parent_gtid == old(self).current_parent_gtid,
            unique_gtids(final(self).tasks@),
    {
        self.set_state_and_ping(gtid, _msg, TaskState::Blocked, false)
    }

    /// A blocked task cannot run; pings the CPU it was switched to from, if any.
    pub fn task_blocked(&mut self, gtid: Gtid, msg: &Message) -> (res: Vec<AgentAction>)
        requires
            has_task(old(self).tasks@, gtid),
            unique_gtids(old(self).tasks@),
        ensures
            final(self).tasks@ == map_task(
                old(self).tasks@,
                gtid,
                |t: Task| Task { state: TaskState::Blocked, ..t },
            ),
            res@ == switch_pings(*msg),
            final(self).cpu == old(self).cpu,
            final(self).scheduler == old(self).scheduler,
            final(self).current_task == old(self).current_task,
            final(self).current_parent_gtid == old(self).current_parent_gtid,
            unique_gtids(final(self).tasks@),
    {
        self.set_state_and_ping(gtid, msg, TaskState::Blocked, true)
    }

    /// A task that yielded can run again; pings the CPU it was switched to from, if any.
    pub fn task_yield(&mut self, gtid: Gtid, msg: &Message) -> (res: Vec<AgentAction>)
        requires
            has_task(old(self).tasks@, gtid),
            unique_gtids(old(self).tasks@),
        ensures
            final(self).tasks@ == map_task(
                old(self).tasks@,
                gtid,
                |t: Task| Task { state: TaskState::Runnable, ..t },
            ),
            res@ == switch_pings(*msg),
            final(self).cpu == old(self).cpu,
            final(self).scheduler == old(self).scheduler,
            final(self).current_task == old(self).current_task,
            final(self).current_parent_gtid == old(self).current_parent_gtid,
            unique_gtids(final(self).tasks@),
    {
        self.set_state_and_ping(gtid, msg, TaskState::Runnable, true)
    }

    /// A task that left the agent's care cannot run; pings the CPU it was switched to from, if
    /// any.
    pub fn task_departed(&mut self, gtid: Gtid, msg: &Message) -> (res: Vec<AgentAction>)
        requires
            has_task(old(self).tasks@, gtid),
            unique_gtids(old(self).tasks@),
        ensures
            final(self).tasks@ == map_task(
                old(self).tasks@,
                gtid,
                |t: Task| Task { state: TaskState::Blocked, ..t },
            ),
            res@ == switch_pings(*msg),
            final(self).cpu == old(self).cpu,
            final(self).scheduler == old(self).scheduler,
            final(self).current_task == old(self).current_task,
            final(self).current_parent_gtid == old(self).current_parent_gtid,
            unique_gtids(final(self).tasks@),
    {
        self.set_state_and_ping(gtid, msg, TaskState::Blocked, true)
    }

    /// A dead task cannot run.
    pub fn task_dead(&mut self, gtid: Gtid, _msg: &Message) -> (res: Vec<AgentAction>)
        requires
            has_task(old(self).tasks@, gtid),
            unique_gtids(old(self).tasks@),
        ensures
            final(self).tasks@ == map_task(
                old(self).tasks@,
                gtid,
                |t: Task| Task { state: TaskState::Blocked, ..t },
            ),
            res@ == Seq::<AgentAction>::empty(),
            final(self).cpu == old(self).cpu,
            final(self).scheduler == old(self).scheduler,
            final(self).current_task == old(self).current_task,
            final(self).current_parent_gtid == old(self).current_parent_gtid,
            unique_gtids(final(self).tasks@),
    {
        self.set_state_and_ping(gtid, _msg, TaskState::Blocked, false)
    }

    /// A new task takes the message's sequence number; when it can run it is associated with
    /// the agent's queue, placed on the agent's CPU, and the agent is pinged.
    pub fn task_new(&mut self, gtid: Gtid, msg: &Message) -> (res: Vec<AgentAction>)
        requires
            has_task(old(self).tasks@, gtid),
            unique_gtids(old(self).tasks@),
        ensures
            final(self).tasks@ == map_task(
                old(self).tasks@,
                gtid,
                |t: Task| task_started(t, *msg, old(self).cpu),
            ),
            res@ == start_actions(gtid, *msg, old(self).cpu),
            final(self).cpu == old(self).cpu,
            final(self).scheduler == old(self).scheduler,
            final(self).current_task == old(self).current_task,
            final(self).current_parent_gtid == old(self).current_parent_gtid,
            unique_gtids(final(self).tasks@),
    {
        let i = match self.find_task(gtid) {
            Some(i) => i,
            None => {
                return Vec::new();
            },
        };
        let mut t = self.tasks[i];
        t.seqnum = msg.get_seqnum();
        let runnable = match msg.payload {
            Payload::TaskNew { runnable, .. } => runnable,
            _ => false,
        };
        let mut res: Vec<AgentAction> = Vec::new();
        if runnable {
            res.push(AgentAction::Associate { gtid: t.gtid, barrier: t.seqnum });
            t.cpu = self.cpu;
            t.state = TaskState::Runnable;
            res.push(AgentAction::Ping { cpu: self.cpu });
        }
        self.replace_task(i, t);
        proof {
            Self::lemma_map_single(
                old(self).tasks@,
                i as int,
                gtid,
                |t: Task| task_started(t, *msg, old(self).cpu),
            );
            assert(res@ =~= start_actions(gtid, *msg, old(self).cpu));
        }
        res
    }

    /// A woken task can run; a task not yet placed on a CPU is associated with the agent's
    /// queue at the message's sequence number, placed on the agent's CPU, and the agent is
    /// pinged.
    pub fn task_runnable(&mut self, gtid: Gtid, msg: &Message) -> (res: Vec<AgentAction>)
        requires
            has_task(old(self).tasks@, gtid),
            unique_gtids(old(self).tasks@),
        ensures
            final(self).tasks@ == map_task(
                old(self).tasks@,
                gtid,
                |t: Task|
                    Task {
                        state: TaskState::Runnable,
                        cpu: if t.cpu < 0 {
                            old(self).cpu
                        } else {
                            t.cpu
                        },
                        ..t
                    },
            ),
            res@ == if task_of(old(self).tasks@, gtid).cpu < 0 {
                seq![
                    AgentAction::Associate { gtid, barrier: msg.header.seqnum },
                    AgentAction::Ping { cpu: old(self).cpu },
                ]
            } else {
                seq![]
            },
            final(self).cpu == old(self).cpu,
            final(self).scheduler == old(self).scheduler,
            final(self).current_task == old(self).current_task,
            final(self).current_parent_gtid == old(self).current_parent_gtid,
            unique_gtids(final(self).tasks@),
    {
        let i = match self.find_task(gtid) {
            Some(i) => i,
            None => {
                return Vec::new();
            },
        };
        proof {
            Self::lemma_task_of(old(self).tasks@, i as int, gtid);
        }
        let mut t = self.tasks[i];
        t.state = TaskState::Runnable;
        let mut res: Vec<AgentAction> = Vec::new();
        if t.cpu < 0 {
            res.push(AgentAction::Associate { gtid: t.gtid, barrier: msg.get_seqnum() });
            t.cpu = self.cpu;
            res.push(AgentAction::Ping { cpu: self.cpu });
        }
        self.replace_task(i, t);
        proof {
            Self::lemma_map_single(
                old(self).tasks@,
                i as int,
                gtid,
                |t: Task|
                    Task {
                        state: TaskState::Runnable,
                        cpu: if t.cpu < 0 {
                            old(self).cpu
                        } else {
                            t.cpu
                        },
                        ..t
                    },
            );
            assert(res@ =~= if task_of(old(self).tasks@, gtid).cpu < 0 {
                seq![
                    AgentAction::Associate { gtid, barrier: msg.header.seqnum },
                    AgentAction::Ping { cpu: old(self).cpu },
                ]
            } else {
                seq![]
            });
        }
        res
    }

    /// Whether the agent can handle `msg`: a no-op or CPU message, a new-task message with its
    /// payload, or a message about a known task whose sequence number can still move on.
    pub open spec fn dispatch_ready(self, msg: Message) -> bool {
        let t = msg.header.type_ as u32;
        ||| t == MSG_NOP
        ||| MSG_CPU_FIRST <= t <= MSG_CPU_LAST
        ||| t == MSG_TASK_NEW && msg.payload is TaskNew
        ||| t != MSG_TASK_NEW && has_task(self.tasks@, msg.gtid) && (updates_seqnum(t) ==> task_of(
            self.tasks@,
            msg.gtid,
        ).seqnum < u32::MAX)
    }

    /// Whether the agent can handle `msg` (see `dispatch_ready`).
    pub fn can_dispatch(&self, msg: &Message) -> (res: bool)
        requires
            unique_gtids(self.tasks@),
        ensures
            res == self.dispatch_ready(*msg),
    {
        let t = msg.get_type();
        if t == MSG_NOP || msg.is_cpu_msg() {
            return true;
        }
        if t == MSG_TASK_NEW {
            return match msg.payload {
                Payload::TaskNew { .. } => true,
                _ => false,
            };
        }
        match self.find_task(msg.gtid) {
            None => false,
            Some(i) => {
                proof {
                    Self::lemma_task_of(self.tasks@, i as int, msg.gtid);
                }
                if t == MSG_TASK_DEAD || t == MSG_TASK_DEPARTED {
                    true
                } else {
                    self.tasks[i].seqnum < u32::MAX
                }
            },
        }
    }

    proof fn lemma_map_push(base: Seq<Task>, t: Task, f: spec_fn(Task) -> Task)
        requires
            !has_task(base, t.gtid),
        ensures
            map_task(base.push(t), t.gtid, f) =~= base.push(f(t)),
    {
        assert forall|i: int| 0 <= i < base.len() implies base[i].gtid != t.gtid by {
            if base[i].gtid == t.gtid {
                assert(has_task(base, t.gtid));
            }
        }
    }

    /// What handling `msg` does to the agent, going from `self` to `after` with the work `res`:
    /// nothing for a no-op or CPU message; for a new task, a reset on a new process, then the
    /// task recorded and started unless it is known; for any other message, the known task it is
    /// about updated and the work it asks for.
    pub open spec fn dispatch_outcome(self, after: Self, msg: Message, res: Seq<AgentAction>) -> bool {
        let t = msg.header.type_ as u32;
        if t == MSG_NOP || (MSG_CPU_FIRST <= t <= MSG_CPU_LAST) {
            after == self && res == Seq::<AgentAction>::empty()
        } else if t == MSG_TASK_NEW {
            match msg.payload {
                Payload::TaskNew { parent_gtid, sw_info, .. } => {
                    let reset = parent_gtid != self.current_parent_gtid;
                    let base = if reset {
                        Seq::<Task>::empty()
                    } else {
                        self.tasks@
                    };
                    &&& after.current_parent_gtid == parent_gtid
                    &&& after.current_task == if reset {
                        None
                    } else {
                        self.current_task
                    }
                    &&& !reset ==> after.scheduler == self.scheduler
                    &&& reset ==> self.scheduler.restarts(after.scheduler)
                    &&& has_task(base, msg.gtid) ==> after.tasks@ == base && res
                        == Seq::<AgentAction>::empty()
                    &&& !has_task(base, msg.gtid) ==> after.tasks@ == base.push(
                        task_started(fresh_task(msg.gtid, sw_info), msg, self.cpu),
                    ) && res == start_actions(msg.gtid, msg, self.cpu)
                },
                _ => false,
            }
        } else {
            &&& after.tasks@ == map_task(
                self.tasks@,
                msg.gtid,
                |task: Task| task_after(task, msg, self.cpu),
            )
            &&& res == actions_after(task_of(self.tasks@, msg.gtid), msg, self.cpu)
            &&& after.scheduler == self.scheduler
            &&& after.current_task == self.current_task
            &&& after.current_parent_gtid == self.current_parent_gtid
        }
    }

    /// What taking in a task found in a status word region does to the agent, going from `self`
    /// to `after` with the work `res` (see `task_discovered`).
    pub open spec fn discovery_outcome(
        self,
        after: Self,
        id: Gtid,
        sw_info: SwInfo,
        sw_barrier: u32,
        sw_flags: u32,
        sw_runtime: u32,
        assoc_status: i32,
        res: Seq<AgentAction>,
    ) -> bool {
        &&& assoc_status & (GHOST_ASSOC_SF_ALREADY | GHOST_ASSOC_SF_BRAND_NEW) != 0 ==> after.tasks@
            == self.tasks@ && res == Seq::<AgentAction>::empty()
        &&& assoc_status & (GHOST_ASSOC_SF_ALREADY | GHOST_ASSOC_SF_BRAND_NEW) == 0 ==> {
            let msg = discovery_message(id, sw_info, sw_barrier, sw_flags, sw_runtime);
            let base = if has_task(self.tasks@, id) {
                self.tasks@
            } else {
                self.tasks@.push(fresh_task(id, sw_info))
            };
            &&& after.tasks@ == map_task(base, id, |t: Task| task_started(t, msg, self.cpu))
            &&& res == start_actions(id, msg, self.cpu)
        }
    }

    /// Handles one kernel message and returns the work it asks for.
    ///
    /// A new-task message from another process than the current one starts a new run: the
    /// known tasks are forgotten and the policy starts afresh. A new task is recorded unless it
    /// is known. Any other task message updates the known task it is about and, except for
    /// dead and departed tasks, moves its sequence number on.
    #[verifier::rlimit(40)]
    pub fn dispatch(&mut self, msg: &Message) -> (res: Vec<AgentAction>)
        requires
            old(self).wf(),
            old(self).dispatch_ready(*msg),
        ensures
            final(self).wf(),
            final(self).cpu == old(self).cpu,
            old(self).dispatch_outcome(*final(self), *msg, res@),
    {
        let t = msg.get_type();
        if t == MSG_NOP {
            return Vec::new();
        }
        if msg.is_cpu_msg() {
            return Vec::new();
        }
        let gtid = msg.get_gtid();
        if t == MSG_TASK_NEW {
            match msg.payload {
                Payload::TaskNew { parent_gtid, sw_info, .. } => {
                    if parent_gtid != self.current_parent_gtid {
                        self.tasks.clear();
                        self.current_parent_gtid = parent_gtid;
                        self.current_task = None;
                        self.scheduler.new_execution();
                    }
                    let ghost base = self.tasks@;
                    if !self.create_task(gtid, sw_info) {
                        return Vec::new();
                    }
                    proof {
                        assert(self.tasks@[self.tasks@.len() - 1].gtid == gtid);
                        Self::lemma_map_push(
                            base,
                            fresh_task(gtid, sw_info),
                            |t: Task| task_started(t, *msg, old(self).cpu),
                        );
                    }
                    return self.task_new(gtid, msg);
                },
                _ => {
                    return Vec::new();
                },
            }
        }
        let i = match self.find_task(gtid) {
            Some(i) => i,
            None => {
                return Vec::new();
            },
        };
        proof {
            Self::lemma_task_of(old(self).tasks@, i as int, gtid);
        }
        let ghost t0 = self.tasks@[i as int];
        let mut update_seqnum = true;
        let res: Vec<AgentAction>;
        if t == MSG_TASK_PREEMPT {
            res = self.task_preempted(gtid, msg);
        } else if t == MSG_TASK_DEAD {
            res = self.task_dead(gtid, msg);
            update_seqnum = false;
        } else if t == MSG_TASK_WAKEUP {
            res = self.task_runnable(gtid, msg);
        } else if t == MSG_TASK_BLOCKED {
            res = self.task_blocked(gtid, msg);
        } else if t == MSG_TASK_YIELD {
            res = self.task_yield(gtid, msg);
        } else if t == MSG_TASK_DEPARTED {
            res = self.task_departed(gtid, msg);
            update_seqnum = false;
        } else if t == MSG_TASK_SWITCHTO {
            res = self.task_switchto(gtid, msg);
        } else {
            res = Vec::new();
        }
        proof {
            assert(self.tasks@.len() == old(self).tasks@.len());
            assert(self.tasks@[i as int].gtid == gtid);
            assert(self.tasks@[i as int].seqnum == t0.seqnum);
        }
        if update_seqnum {
            let mut task = self.tasks[i];
            task.seqnum = task.seqnum + 1;
            self.replace_task(i, task);
        }
        proof {
            assert(self.tasks@ =~= old(self).tasks@.update(i as int, task_after(t0, *msg, old(self).cpu)));
            Self::lemma_map_single(
                old(self).tasks@,
                i as int,
                gtid,
                |task: Task| task_after(task, *msg, old(self).cpu),
            );
            assert(res@ =~= actions_after(t0, *msg, old(self).cpu));
        }
        res
    }

    proof fn lemma_map_absent(tasks: Seq<Task>, g: Gtid, f: spec_fn(Task) -> Task)
        requires
            !has_task(tasks, g),
        ensures
            map_task(tasks, g, f) =~= tasks,
    {
        assert forall|i: int| 0 <= i < tasks.len() implies tasks[i].gtid != g by {
            if tasks[i].gtid == g {
                assert(has_task(tasks, g));
            }
        }
    }

    /// The identifiers of the runnable tasks, in order.
    fn runnable_tasks(&self) -> (res: Vec<Gtid>)
        ensures
            res@ == runnable_gtids(self.tasks@),
    {
        let mut res: Vec<Gtid> = Vec::new();
        let mut i: usize = 0;
        while i < self.tasks.len()
            invariant
                0 <= i <= self.tasks.len(),
                res@ == runnable_gtids(self.tasks@.take(i as int)),
            decreases self.tasks.len() - i,
        {
            let t = self.tasks[i];
            proof {
                let p = |t: Task| t.state == TaskState::Runnable;
                assert(self.tasks@.take(i + 1) =~= self.tasks@.take(i as int).push(t));
                self.tasks@.take(i as int).lemma_filter_push(t, p);
            }
            if t.state == TaskState::Runnable {
                res.push(t.gtid);
                proof {
                    let p = |t: Task| t.state == TaskState::Runnable;
                    assert(self.tasks@.take(i as int).push(t).filter(p) == self.tasks@.take(
                        i as int,
                    ).filter(p).push(t));
                    assert(res@ =~= runnable_gtids(self.tasks@.take(i + 1)));
                }
            } else {
                proof {
                    assert(res@ =~= runnable_gtids(self.tasks@.take(i + 1)));
                }
            }
            i = i + 1;
        }
        proof {
            assert(self.tasks@.take(self.tasks.len() as int) =~= self.tasks@);
        }
        res
    }

    proof fn lemma_runnable_known(tasks: Seq<Task>, g: Gtid)
        requires
            runnable_gtids(tasks).contains(g),
        ensures
            has_task(tasks, g),
    {
        let p = |t: Task| t.state == TaskState::Runnable;
        let r = tasks.filter(p);
        let k = choose|k: int| 0 <= k < runnable_gtids(tasks).len() && runnable_gtids(tasks)[k] == g;
        assert(r.contains(r[k]));
        tasks.lemma_filter_contains_rev(p, r[k]);
        let j = choose|j: int| 0 <= j < tasks.len() && tasks[j] == r[k];
        assert(tasks[j].gtid == g);
    }

    /// Whether the policy can make a pick among any number of the agent's tasks (see
    /// `schedule`).
    pub fn can_schedule(&self) -> (res: bool)
        requires
            self.scheduler.inv(),
        ensures
            res == forall|n: nat| n <= self.tasks.len() ==> #[trigger] self.scheduler.can_step(n),
    {
        self.scheduler.can_step_up_to(self.tasks.len())
    }

    /// Decides what to do with the CPU: with a boosted priority pending, yield with a return
    /// to the agent on idle; else ask the policy for a runnable task and run it, or yield when
    /// none is runnable.
    pub fn schedule(&mut self, boosted_priority: bool, agent_barrier: u32) -> (step: ScheduleStep)
        requires
            old(self).wf(),
            forall|n: nat| n <= old(self).tasks.len() ==> old(self).scheduler.can_step(n),
        ensures
            final(self).wf(),
            final(self).tasks@ == old(self).tasks@,
            final(self).cpu == old(self).cpu,
            final(self).current_task == old(self).current_task,
            final(self).current_parent_gtid == old(self).current_parent_gtid,
            boosted_priority ==> final(self).scheduler == old(self).scheduler,
            boosted_priority ==> (step matches ScheduleStep::Yield { agent_barrier: ab, run_flags }
                && ab == agent_barrier && run_flags == RTLA_ON_IDLE),
            !boosted_priority ==> match step {
                ScheduleStep::Run { target, option } => {
                    &&& old(self).scheduler.picks(
                        final(self).scheduler,
                        runnable_gtids(old(self).tasks@),
                        old(self).current_task,
                        (Some(target), true),
                    )
                    &&& runnable_gtids(old(self).tasks@).contains(target)
                    &&& option == run_option(
                        target,
                        task_of(old(self).tasks@, target).seqnum,
                        agent_barrier,
                    )
                },
                ScheduleStep::Yield { agent_barrier: ab, run_flags } => {
                    &&& old(self).scheduler.picks(
                        final(self).scheduler,
                        runnable_gtids(old(self).tasks@),
                        old(self).current_task,
                        (None, false),
                    )
                    &&& runnable_gtids(old(self).tasks@).len() == 0
                    &&& ab == agent_barrier
                    &&& run_flags == 0
                },
            },
    {
        let next = if !boosted_priority {
            let runnable = self.runnable_tasks();
            proof {
                assert(runnable@.len() <= self.tasks@.len()) by {
                    let p = |t: Task| t.state == TaskState::Runnable;
                    self.tasks@.lemma_filter_len(p);
                }
            }
            let (task, _picked) = self.scheduler.next_task(&runnable, self.current_task);
            task
        } else {
            None
        };
        match next {
            Some(gtid) => {
                proof {
                    Self::lemma_runnable_known(self.tasks@, gtid);
                }
                match self.find_task(gtid) {
                    Some(i) => {
                        proof {
                            Self::lemma_task_of(self.tasks@, i as int, gtid);
                        }
                        let mut option = RunRequestOption::default();
                        option.target = gtid;
                        option.target_barrier = self.tasks[i].seqnum;
                        option.agent_barrier = agent_barrier;
                        option.commit_flags = COMMIT_AT_TXN_COMMIT;
                        ScheduleStep::Run { target: gtid, option }
                    },
                    None => ScheduleStep::Yield { agent_barrier, run_flags: 0 },
                }
            },
            None => {
                let mut flags: i32 = 0;
                if boosted_priority {
                    flags = flags | RTLA_ON_IDLE;
                    proof {
                        assert(0i32 | RTLA_ON_IDLE == RTLA_ON_IDLE) by (bit_vector);
                    }
                }
                ScheduleStep::Yield { agent_barrier, run_flags: flags }
            },
        }
    }

    /// Takes in the outcome of running `gtid`: a committed run makes it the current task, a
    /// failed one leaves it runnable.
    pub fn schedule_committed(&mut self, gtid: Gtid, committed: bool)
        requires
            old(self).wf(),
            has_task(old(self).tasks@, gtid),
        ensures
            final(self).wf(),
            final(self).cpu == old(self).cpu,
            final(self).scheduler == old(self).scheduler,
            final(self).current_parent_gtid == old(self).current_parent_gtid,
            committed ==> final(self).tasks@ == old(self).tasks@ && final(self).current_task == Some(
                gtid,
            ),
            !committed ==> final(self).tasks@ == map_task(
                old(self).tasks@,
                gtid,
                |t: Task| Task { state: TaskState::Runnable, ..t },
            ) && final(self).current_task == old(self).current_task,
    {
        if !committed {
            let i = match self.find_task(gtid) {
                Some(i) => i,
                None => {
                    return;
                },
            };
            let mut t = self.tasks[i];
            t.state = TaskState::Runnable;
            self.replace_task(i, t);
            proof {
                Self::lemma_map_single(
                    old(self).tasks@,
                    i as int,
                    gtid,
                    |t: Task| Task { state: TaskState::Runnable, ..t },
                );
            }
        } else {
            self.current_task = Some(gtid);
        }
    }

    /// Decides how discovery of the status word of task `id` goes on after associating the
    /// task with the agent's queue failed with `errno`: a task that is gone is marked blocked;
    /// a stale status word is freed when it may be, else read again; other errors go on with
    /// the association's result.
    pub fn association_failed(&mut self, id: Gtid, errno: i32, sw_flags: u32, sw_info: SwInfo) -> (res: (
        DiscoveryStep,
        Vec<AgentAction>,
    ))
        requires
            old(self).wf(),
        ensures
            final(self).wf(),
            final(self).cpu == old(self).cpu,
            final(self).scheduler == old(self).scheduler,
            final(self).current_task == old(self).current_task,
            final(self).current_parent_gtid == old(self).current_parent_gtid,
            errno == ENOENT ==> res.0 == DiscoveryStep::Stop && res.1@ == Seq::<AgentAction>::empty()
                && final(self).tasks@ == map_task(
                old(self).tasks@,
                id,
                |t: Task| Task { state: TaskState::Blocked, ..t },
            ),
            errno != ENOENT ==> final(self).tasks@ == old(self).tasks@,
            errno == ESTALE && sw_flags & GHOST_SW_F_CANFREE != 0 ==> res.0 == DiscoveryStep::Stop
                && res.1@ == seq![AgentAction::FreeStatusWord { sw_info }],
            errno == ESTALE && sw_flags & GHOST_SW_F_CANFREE == 0 ==> res.0 == DiscoveryStep::Retry
                && res.1@ == Seq::<AgentAction>::empty(),
            errno != ENOENT && errno != ESTALE ==> res.0 == DiscoveryStep::Proceed && res.1@
                == Seq::<AgentAction>::empty(),
    {
        let mut actions: Vec<AgentAction> = Vec::new();
        if errno == ENOENT {
            match self.find_task(id) {
                Some(i) => {
                    let mut t = self.tasks[i];
                    t.state = TaskState::Blocked;
                    self.replace_task(i, t);
                    proof {
                        Self::lemma_map_single(
                            old(self).tasks@,
                            i as int,
                            id,
                            |t: Task| Task { state: TaskState::Blocked, ..t },
                        );
                    }
                },
                None => {
                    proof {
                        Self::lemma_map_absent(
                            old(self).tasks@,
                            id,
                            |t: Task| Task { state: TaskState::Blocked, ..t },
                        );
                    }
                },
            }
            return (DiscoveryStep::Stop, actions);
        }
        if errno == ESTALE {
            if sw_flags & GHOST_SW_F_CANFREE != 0 {
                actions.push(AgentAction::FreeStatusWord { sw_info });
                proof {
                    assert(actions@ =~= seq![AgentAction::FreeStatusWord { sw_info }]);
                }
                return (DiscoveryStep::Stop, actions);
            }
            return (DiscoveryStep::Retry, actions);
        }
        (DiscoveryStep::Proceed, actions)
    }

    /// Takes in a task found in a status word region once its association with the agent's
    /// queue is done: a task that was associated before, or is brand new to the kernel, is
    /// left alone; else the task is recorded (if unknown) and handled as by a new-task message
    /// made up from its status word.
    pub fn task_discovered(
        &mut self,
        id: Gtid,
        sw_info: SwInfo,
        sw_barrier: u32,
        sw_flags: u32,
        sw_runtime: u32,
        assoc_status: i32,
    ) -> (res: Vec<AgentAction>)
        requires
            old(self).wf(),
        ensures
            final(self).wf(),
            final(self).cpu == old(self).cpu,
            final(self).scheduler == old(self).scheduler,
            final(self).current_task == old(self).current_task,
            final(self).current_parent_gtid == old(self).current_parent_gtid,
            old(self).discovery_outcome(
                *final(self),
                id,
                sw_info,
                sw_barrier,
                sw_flags,
                sw_runtime,
                assoc_status,
                res@,
            ),
    {
        if assoc_status & (GHOST_ASSOC_SF_ALREADY | GHOST_ASSOC_SF_BRAND_NEW) != 0 {
            return Vec::new();
        }
        let msg = Message::from_raw(
            MessageHeader {
                type_: MSG_TASK_NEW as u16,
                length: TASK_NEW_MSG_LENGTH,
                seqnum: sw_barrier,
            },
            id,
            Payload::TaskNew {
                parent_gtid: 0,
                runtime: sw_runtime as u64,
                runnable: (sw_flags & GHOST_SW_TASK_RUNNABLE) != 0,
                sw_info,
            },
        );
        let _created = self.create_task(id, sw_info);
        proof {
            if !has_task(old(self).tasks@, id) {
                assert(self.tasks@[self.tasks@.len() - 1].gtid == id);
            }
        }
        self.task_new(id, &msg)
    }
}

/// The slot of the next message in a ring of `nelems` slots whose reader is at `tail` and
/// writer at `head`; `None` when the ring is empty.
pub fn peek_slot(head: u32, tail: u32, overflow: u32, nelems: u32) -> (res: Option<u32>)
    requires
        tail != head ==> overflow == 0 && nelems > 0,
    ensures
        tail == head ==> res is None,
        tail != head ==> res == Some(tail & (nelems - 1) as u32),
{
    if tail == head {
        return None;
    }
    Some(tail & (nelems - 1))
}

/// For a power of two `1 << k`, masking with `(1 << k) - 1` is the remainder.
pub proof fn law_slot_is_remainder(tail: u32, k: u32)
    requires
        k < 32,
    ensures
        tail & (((1u32 << k) - 1) as u32) == tail % (1u32 << k),
{
    let a = tail & (((1u32 << k) - 1) as u32);
    let q = tail >> k;
    assert(a < (1u32 << k) && tail == (q << k) + a && (q << k) == q * (1u32 << k) && (1u32 << k) > 0)
        by (bit_vector)
        requires
            k < 32,
            a == tail & (((1u32 << k) - 1) as u32),
            q == tail >> k,
    ;
    vstd::arithmetic::div_mod::lemma_fundamental_div_mod_converse(
        tail as int,
        (1u32 << k) as int,
        q as int,
        a as int,
    );
}

/// `x` rounded up to a multiple of `y`, for `y` a power of two (`(x + y - 1) & !(y - 1)`).
pub fn roundup2(x: usize, y: usize) -> (res: usize)
    requires
        y > 0,
        x + (y - 1) <= usize::MAX,
    ensures
        res == (x + (y - 1)) as usize & !((y - 1) as usize),
{
    (x + (y - 1)) & !(y - 1)
}

/// Rounding up to a power of two `1 << k` gives the smallest multiple of it at or above `x`.
pub proof fn law_roundup2_next_multiple(x: usize, k: usize)
    requires
        k < 32,
        x <= !(((1usize << k) - 1) as usize),
    ensures
        ((x + ((1usize << k) - 1)) as usize & !(((1usize << k) - 1) as usize)) % (1usize << k) == 0,
        x <= ((x + ((1usize << k) - 1)) as usize & !(((1usize << k) - 1) as usize)),
        ((x + ((1usize << k) - 1)) as usize & !(((1usize << k) - 1) as usize)) < x + (1usize << k),
{
    let y = 1usize << k;
    let m = ((1usize << k) - 1) as usize;
    let s = (x + m) as usize;
    let res = s & !m;
    let low = s & m;
    let q = s >> k;
    assert(y > 0 && m == y - 1 && s == x + m) by (bit_vector)
        requires
            k < 32,
            x <= !(((1usize << k) - 1) as usize),
            y == 1usize << k,
            m == ((1usize << k) - 1) as usize,
            s == (x + m) as usize,
    ;
    assert(res + low == s && low < y) by (bit_vector)
        requires
            k < 32,
            y == 1usize << k,
            m == ((1usize << k) - 1) as usize,
            res == s & !m,
            low == s & m,
    ;
    assert(res == q * y) by (bit_vector)
        requires
            k < 32,
            y == 1usize << k,
            m == ((1usize << k) - 1) as usize,
            res == s & !m,
            q == s >> k,
    ;
    vstd::arithmetic::div_mod::lemma_mod_multiples_basic(q as int, y as int);
    assert(res as int == q * y);
}

/// The ring reader's position after consuming a message of `length` bytes from slots of
/// `slot_size` bytes.
pub fn consumed_tail(tail: u32, length: usize, slot_size: usize) -> (res: u32)
    requires
        slot_size > 0,
        length + (slot_size - 1) <= usize::MAX,
        tail + (((length + (slot_size - 1)) as usize & !((slot_size - 1) as usize)) / slot_size) as u32
            <= u32::MAX,
    ensures
        res == tail + (((length + (slot_size - 1)) as usize & !((slot_size - 1) as usize)) / slot_size) as u32,
{
    tail + (roundup2(length, slot_size) / slot_size) as u32
}

/// A woken task becomes a candidate to run: after a wake-up message about a known task, the
/// task is among the runnable ones.
pub proof fn law_woken_task_is_runnable(tasks: Seq<Task>, msg: Message, agent_cpu: i32)
    requires
        has_task(tasks, msg.gtid),
        msg.header.type_ as u32 == MSG_TASK_WAKEUP,
    ensures
        runnable_gtids(map_task(tasks, msg.gtid, |t: Task| task_after(t, msg, agent_cpu))).contains(
            msg.gtid,
        ),
{
    let after = map_task(tasks, msg.gtid, |t: Task| task_after(t, msg, agent_cpu));
    let p = |t: Task| t.state == TaskState::Runnable;
    let i = choose|i: int| 0 <= i < tasks.len() && #[trigger] tasks[i].gtid == msg.gtid;
    assert(after[i].gtid == msg.gtid && p(after[i]));
    after.lemma_filter_contains(p, i);
    let r = after.filter(p);
    let k = choose|k: int| 0 <= k < r.len() && r[k] == after[i];
    assert(runnable_gtids(after)[k] == msg.gtid);
}

/// A task that blocked, died, departed or switched to another task is not a candidate to
/// run: after such a message about it, the task is not among the runnable ones.
pub proof fn law_stopped_task_is_not_runnable(tasks: Seq<Task>, msg: Message, agent_cpu: i32)
    requires
        ({
            let t = msg.header.type_ as u32;
            t == MSG_TASK_BLOCKED || t == MSG_TASK_DEAD || t == MSG_TASK_DEPARTED || t
                == MSG_TASK_SWITCHTO
        }),
    ensures
        !runnable_gtids(map_task(tasks, msg.gtid, |t: Task| task_after(t, msg, agent_cpu))).contains(
            msg.gtid,
        ),
{
    let after = map_task(tasks, msg.gtid, |t: Task| task_after(t, msg, agent_cpu));
    let p = |t: Task| t.state == TaskState::Runnable;
    let r = after.filter(p);
    if runnable_gtids(after).contains(msg.gtid) {
        let k = choose|k: int| 0 <= k < runnable_gtids(after).len() && runnable_gtids(after)[k] == msg.gtid;
        assert(r.contains(r[k]));
        after.lemma_filter_contains_rev(p, r[k]);
        after.lemma_filter_pred(p, k);
        let j = choose|j: int| 0 <= j < after.len() && after[j] == r[k];
        assert(after[j].gtid == msg.gtid);
        assert(tasks[j].gtid == msg.gtid);
    }
}

/// Replacing one known task by `f` of it keeps it known and the identifiers unique, and the
/// task with its identifier is then `f` of what it was, when `f` keeps identifiers.
proof fn lemma_task_of_map(tasks: Seq<Task>, g: Gtid, f: spec_fn(Task) -> Task)
    requires
        unique_gtids(tasks),
        has_task(tasks, g),
        forall|t: Task| #[trigger] f(t).gtid == t.gtid,
    ensures
        unique_gtids(map_task(tasks, g, f)),
        has_task(map_task(tasks, g, f), g),
        task_of(map_task(tasks, g, f), g) == f(task_of(tasks, g)),
{
    let after = map_task(tasks, g, f);
    let i = choose|i: int| 0 <= i < tasks.len() && #[trigger] tasks[i].gtid == g;
    assert forall|j: int| 0 <= j < after.len() implies #[trigger] after[j].gtid == tasks[j].gtid by {
        assert(f(tasks[j]).gtid == tasks[j].gtid);
    }
    assert(after[i].gtid == g);
    let k = choose|k: int| 0 <= k < tasks.len() && #[trigger] tasks[k].gtid == g;
    assert(k == i);
    let m = choose|m: int| 0 <= m < after.len() && #[trigger] after[m].gtid == g;
    assert(after[m].gtid == tasks[m].gtid);
    assert(m == i);
}

/// A task message other than a new-task one moves the sequence number of the known task it is
/// about on by one, except a dead or departed message, which leaves it as it was; the task
/// stays known.
pub proof fn law_dispatch_moves_seqnum_on<S: Scheduler>(
    before: Agent<S>,
    after: Agent<S>,
    msg: Message,
    res: Seq<AgentAction>,
)
    requires
        before.wf(),
        before.dispatch_ready(msg),
        before.dispatch_outcome(after, msg, res),
        msg.header.type_ as u32 != MSG_NOP,
        !(MSG_CPU_FIRST <= msg.header.type_ as u32 <= MSG_CPU_LAST),
        msg.header.type_ as u32 != MSG_TASK_NEW,
    ensures
        has_task(after.tasks@, msg.gtid),
        task_of(after.tasks@, msg.gtid).seqnum == if msg.header.type_ as u32 == MSG_TASK_DEAD
            || msg.header.type_ as u32 == MSG_TASK_DEPARTED {
            task_of(before.tasks@, msg.gtid).seqnum as int
        } else {
            task_of(before.tasks@, msg.gtid).seqnum + 1
        },
{
    let cpu = before.cpu;
    let f = |task: Task| task_after(task, msg, cpu);
    lemma_task_of_map(before.tasks@, msg.gtid, f);
}

/// A preemption, block, yield or departure whose payload says the task was switched to from
/// another CPU wakes that CPU and asks for nothing else; without a switch it asks for nothing.
/// A preempted or yielding task can run again; a blocked or departed one cannot.
pub proof fn law_dispatch_pings_switch_source<S: Scheduler>(
    before: Agent<S>,
    after: Agent<S>,
    msg: Message,
    res: Seq<AgentAction>,
    from_switchto: bool,
    cpu: i32,
)
    requires
        before.wf(),
        before.dispatch_ready(msg),
        before.dispatch_outcome(after, msg, res),
        ({
            let t = msg.header.type_ as u32;
            t == MSG_TASK_PREEMPT || t == MSG_TASK_BLOCKED || t == MSG_TASK_YIELD || t
                == MSG_TASK_DEPARTED
        }),
        msg.payload == (Payload::Switched { from_switchto, cpu }),
    ensures
        res == if from_switchto {
            seq![AgentAction::Ping { cpu }]
        } else {
            Seq::<AgentAction>::empty()
        },
        task_of(after.tasks@, msg.gtid).state == if msg.header.type_ as u32 == MSG_TASK_PREEMPT
            || msg.header.type_ as u32 == MSG_TASK_YIELD {
            TaskState::Runnable
        } else {
            TaskState::Blocked
        },
{
    let c = before.cpu;
    let f = |task: Task| task_after(task, msg, c);
    lemma_task_of_map(before.tasks@, msg.gtid, f);
}

/// A task found in a status word region, when its association was neither made before nor
/// brand new, is recorded with the status word's barrier as its sequence number. It is made
/// runnable on the agent's CPU, associated at that barrier and the agent pinged exactly when
/// the status word's runnable bit is set, whatever its other flags; else nothing is asked for,
/// and a task not known before stays blocked and unplaced. Any other association leaves the
/// tasks alone and asks for nothing.
pub proof fn law_discovery_adopts_runnable_tasks<S: Scheduler>(
    before: Agent<S>,
    after: Agent<S>,
    id: Gtid,
    sw_info: SwInfo,
    sw_barrier: u32,
    sw_flags: u32,
    sw_runtime: u32,
    assoc_status: i32,
    res: Seq<AgentAction>,
)
    requires
        before.wf(),
        before.discovery_outcome(after, id, sw_info, sw_barrier, sw_flags, sw_runtime, assoc_status, res),
    ensures
        assoc_status & (GHOST_ASSOC_SF_ALREADY | GHOST_ASSOC_SF_BRAND_NEW) != 0 ==> after.tasks@
            == before.tasks@ && res == Seq::<AgentAction>::empty(),
        assoc_status & (GHOST_ASSOC_SF_ALREADY | GHOST_ASSOC_SF_BRAND_NEW) == 0 ==> {
            let t = task_of(after.tasks@, id);
            &&& has_task(after.tasks@, id)
            &&& t.seqnum == sw_barrier
            &&& sw_flags & GHOST_SW_TASK_RUNNABLE != 0 ==> {
                &&& t.state == TaskState::Runnable
                &&& t.cpu == before.cpu
                &&& res == seq![
                    AgentAction::Associate { gtid: id, barrier: sw_barrier },
                    AgentAction::Ping { cpu: before.cpu },
                ]
            }
            &&& sw_flags & GHOST_SW_TASK_RUNNABLE == 0 ==> {
                &&& res == Seq::<AgentAction>::empty()
                &&& !has_task(before.tasks@, id) ==> t.state == TaskState::Blocked && t.cpu == -1
            }
        },
{
    if assoc_status & (GHOST_ASSOC_SF_ALREADY | GHOST_ASSOC_SF_BRAND_NEW) == 0 {
        let msg = discovery_message(id, sw_info, sw_barrier, sw_flags, sw_runtime);
        let c = before.cpu;
        let f = |t: Task| task_started(t, msg, c);
        let base = if has_task(before.tasks@, id) {
            before.tasks@
        } else {
            before.tasks@.push(fresh_task(id, sw_info))
        };
        if !has_task(before.tasks@, id) {
            let n = before.tasks@.len() as int;
            assert(base[n].gtid == id);
            assert forall|i: int, j: int| 0 <= i < j < base.len() implies base[i].gtid != base[j].gtid by {
                if j == n {
                    assert(before.tasks@[i].gtid != id);
                }
            }
            let k = choose|k: int| 0 <= k < base.len() && #[trigger] base[k].gtid == id;
            assert(k == n);
        }
        lemma_task_of_map(base, id, f);
    }
}

/// A wake-up makes the known task runnable. A task not yet placed on a CPU is placed on the
/// agent's CPU, associated with the agent's queue at the message's sequence number and the
/// agent is pinged; a placed task keeps its CPU and nothing is asked for.
pub proof fn law_dispatch_wakeup<S: Scheduler>(
    before: Agent<S>,
    after: Agent<S>,
    msg: Message,
    res: Seq<AgentAction>,
)
    requires
        before.wf(),
        before.dispatch_ready(msg),
        before.dispatch_outcome(after, msg, res),
        msg.header.type_ as u32 == MSG_TASK_WAKEUP,
    ensures
        task_of(after.tasks@, msg.gtid).state == TaskState::Runnable,
        task_of(before.tasks@, msg.gtid).cpu < 0 ==> {
            &&& task_of(after.tasks@, msg.gtid).cpu == before.cpu
            &&& res == seq![
                AgentAction::Associate { gtid: msg.gtid, barrier: msg.header.seqnum },
                AgentAction::Ping { cpu: before.cpu },
            ]
        },
        task_of(before.tasks@, msg.gtid).cpu >= 0 ==> {
            &&& task_of(after.tasks@, msg.gtid).cpu == task_of(before.tasks@, msg.gtid).cpu
            &&& res == Seq::<AgentAction>::empty()
        },
{
    let c = before.cpu;
    let f = |task: Task| task_after(task, msg, c);
    lemma_task_of_map(before.tasks@, msg.gtid, f);
    let i = choose|i: int| 0 <= i < before.tasks@.len() && #[trigger] before.tasks@[i].gtid == msg.gtid;
    assert(task_of(before.tasks@, msg.gtid).gtid == msg.gtid);
}

/// A dead task, or one that switched to another task, cannot run, and nothing is asked for.
pub proof fn law_dispatch_dead_or_switched<S: Scheduler>(
    before: Agent<S>,
    after: Agent<S>,
    msg: Message,
    res: Seq<AgentAction>,
)
    requires
        before.wf(),
        before.dispatch_ready(msg),
        before.dispatch_outcome(after, msg, res),
        msg.header.type_ as u32 == MSG_TASK_DEAD || msg.header.type_ as u32 == MSG_TASK_SWITCHTO,
    ensures
        task_of(after.tasks@, msg.gtid).state == TaskState::Blocked,
        res == Seq::<AgentAction>::empty(),
{
    let c = before.cpu;
    let f = |task: Task| task_after(task, msg, c);
    lemma_task_of_map(before.tasks@, msg.gtid, f);
}

/// A new-task message about an unknown task (or any task, when it comes from another process
/// than the current one) records the task with the message's sequence number. When the
/// message says it can run, the task is runnable on the agent's CPU, associated at that
/// sequence number and the agent pinged; else it is blocked, unplaced, and nothing is asked
/// for. A new process leaves that task as the only one known.
pub proof fn law_dispatch_new_task<S: Scheduler>(
    before: Agent<S>,
    after: Agent<S>,
    msg: Message,
    res: Seq<AgentAction>,
    parent_gtid: u64,
    runtime: u64,
    runnable: bool,
    sw_info: SwInfo,
)
    requires
        before.wf(),
        before.dispatch_ready(msg),
        before.dispatch_outcome(after, msg, res),
        msg.header.type_ as u32 == MSG_TASK_NEW,
        msg.payload == (Payload::TaskNew { parent_gtid, runtime, runnable, sw_info }),
        parent_gtid != before.current_parent_gtid || !has_task(before.tasks@, msg.gtid),
    ensures
        has_task(after.tasks@, msg.gtid),
        task_of(after.tasks@, msg.gtid).seqnum == msg.header.seqnum,
        task_of(after.tasks@, msg.gtid).status_word.sw_info == sw_info,
        runnable ==> {
            &&& task_of(after.tasks@, msg.gtid).state == TaskState::Runnable
            &&& task_of(after.tasks@, msg.gtid).cpu == before.cpu
            &&& res == seq![
                AgentAction::Associate { gtid: msg.gtid, barrier: msg.header.seqnum },
                AgentAction::Ping { cpu: before.cpu },
            ]
        },
        !runnable ==> {
            &&& task_of(after.tasks@, msg.gtid).state == TaskState::Blocked
            &&& task_of(after.tasks@, msg.gtid).cpu == -1
            &&& res == Seq::<AgentAction>::empty()
        },
        parent_gtid != before.current_parent_gtid ==> after.tasks@.len() == 1,
{
    let reset = parent_gtid != before.current_parent_gtid;
    let base = if reset {
        Seq::<Task>::empty()
    } else {
        before.tasks@
    };
    let n = base.len() as int;
    let t = task_started(fresh_task(msg.gtid, sw_info), msg, before.cpu);
    assert(after.tasks@[n] == t);
    assert(after.tasks@[n].gtid == msg.gtid);
    let k = choose|k: int| 0 <= k < after.tasks@.len() && #[trigger] after.tasks@[k].gtid == msg.gtid;
    if k != n {
        assert(base[k].gtid == msg.gtid);
        assert(has_task(base, msg.gtid));
    }
}

} // verus!

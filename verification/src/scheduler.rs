use crate::abi::GHOST_SW_BOOST_PRIO;
use crate::gtid::Gtid;
use crate::message::SwInfo;
use vstd::prelude::*;

verus! {

/// A task's status word, found by its place in a status word region.
#[derive(Clone, Copy, Debug)]
pub struct StatusWord {
    pub sw_info: SwInfo,
}

impl StatusWord {
    /// The status word of `_owner` at `sw_info`.
    pub fn new(_owner: Gtid, sw_info: SwInfo) -> (res: Self)
        ensures
            res.sw_info == sw_info,
    {
        Self { sw_info }
    }

    /// Whether status word flags ask the agent to yield to a task of higher priority.
    pub fn boosted_priority(flags: u32) -> (res: bool)
        ensures
            res == (flags & GHOST_SW_BOOST_PRIO != 0),
    {
        flags & GHOST_SW_BOOST_PRIO != 0
    }
}

/// Whether a task can run.
#[derive(PartialEq, Eq, Clone, Copy, Debug, Structural)]
pub enum TaskState {
    Runnable,
    Blocked,
}

/// What the agent knows of a task.
#[derive(Clone, Copy, Debug)]
pub struct Task {
    pub gtid: Gtid,
    pub status_word: StatusWord,
    pub seqnum: u32,
    pub cpu: i32,
    pub state: TaskState,
}

} // verus!

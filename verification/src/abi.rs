use vstd::prelude::*;

verus! {

/// Message types of the ghOSt kernel interface.
pub const MSG_NOP: u32 = 0;
pub const MSG_TASK_FIRST: u32 = 64;
pub const MSG_TASK_NEW: u32 = 64;
pub const MSG_TASK_PREEMPT: u32 = 65;
pub const MSG_TASK_DEAD: u32 = 66;
pub const MSG_TASK_WAKEUP: u32 = 67;
pub const MSG_TASK_BLOCKED: u32 = 68;
pub const MSG_TASK_YIELD: u32 = 69;
pub const MSG_TASK_DEPARTED: u32 = 70;
pub const MSG_TASK_SWITCHTO: u32 = 71;
pub const MSG_TASK_AFFINITY_CHANGED: u32 = 72;
pub const MSG_TASK_LATCHED: u32 = 73;
pub const MSG_TASK_PRIORITY_CHANGED: u32 = 74;
pub const MSG_TASK_ON_CPU: u32 = 75;
pub const MSG_TASK_LAST: u32 = 127;
pub const MSG_CPU_FIRST: u32 = 128;
pub const MSG_CPU_LAST: u32 = 191;

/// Status word flags.
pub const GHOST_SW_F_INUSE: u32 = 1;
pub const GHOST_SW_F_CANFREE: u32 = 2;
pub const GHOST_SW_TASK_RUNNABLE: u32 = 0x20000;
pub const GHOST_SW_TASK_IS_AGENT: u32 = 0x40000;
pub const GHOST_SW_BOOST_PRIO: u32 = 0x2000000;

/// Results of associating a task with a queue.
pub const GHOST_ASSOC_SF_ALREADY: i32 = 1;
pub const GHOST_ASSOC_SF_BRAND_NEW: i32 = 2;

/// Run flags: return to the local agent when the CPU goes idle.
pub const RTLA_ON_IDLE: i32 = 0x20;

/// Commit flags: commit in the commit-transaction operation.
pub const COMMIT_AT_TXN_COMMIT: u8 = 2;

/// Transaction states: ready to be committed, and committed successfully.
pub const GHOST_TXN_READY: i32 = 0x7fffffff;
pub const GHOST_TXN_COMPLETE: i32 = -0x80000000;

/// A transaction's sync group owner when no CPU owns it.
pub const SYNC_GROUP_NOT_OWNED: i32 = -1;

/// Error numbers the agent tells apart.
pub const ENOENT: i32 = 2;
pub const ESTALE: i32 = 116;

} // verus!

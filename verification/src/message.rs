use crate::abi::{MSG_CPU_FIRST, MSG_CPU_LAST, MSG_TASK_FIRST, MSG_TASK_LAST};
use crate::gtid::Gtid;
use vstd::prelude::*;

verus! {

/// Where a task's status word lives: its region and its index in the region.
#[derive(Clone, Copy, Debug, PartialEq, Eq, Structural)]
pub struct SwInfo {
    pub id: u32,
    pub index: u32,
}

/// The fixed part of a kernel message.
#[derive(Clone, Copy, Debug, PartialEq, Eq, Structural)]
pub struct MessageHeader {
    pub type_: u16,
    pub length: u16,
    pub seqnum: u32,
}

/// The fields of a message's payload that the agent reads.
#[derive(Clone, Copy, Debug, PartialEq, Eq, Structural)]
pub enum Payload {
    /// A new task: its parent, its runtime so far, whether it can run, and its status word.
    TaskNew { parent_gtid: u64, runtime: u64, runnable: bool, sw_info: SwInfo },
    /// A task that stopped running: whether it came from a switch-to, and on which CPU.
    Switched { from_switchto: bool, cpu: i32 },
    /// A payload the agent does not read.
    Other,
}

/// A message header followed by its payload.
#[allow(non_camel_case_types)]
pub struct payload<T> {
    pub header: MessageHeader,
    pub payload: T,
}

/// A kernel message, decoded: its header, the task it is about and the payload fields.
#[derive(Clone, Copy, Debug)]
pub struct Message {
    pub header: MessageHeader,
    pub gtid: Gtid,
    pub payload: Payload,
}

impl Message {
    /// A message from its decoded parts.
    pub fn from_raw(header: MessageHeader, gtid: Gtid, payload: Payload) -> (m: Self)
        ensures
            m.header == header,
            m.gtid == gtid,
            m.payload == payload,
    {
        Self { header, gtid, payload }
    }

    /// The message type.
    pub fn get_type(&self) -> (t: u32)
        ensures
            t == self.header.type_ as u32,
    {
        self.header.type_ as u32
    }

    /// The length of the message in bytes, header included.
    pub fn length(&self) -> (l: usize)
        ensures
            l == self.header.length as usize,
    {
        self.header.length as usize
    }

    /// Whether the message is about a CPU.
    pub fn is_cpu_msg(&self) -> (res: bool)
        ensures
            res == (MSG_CPU_FIRST <= self.header.type_ as u32 <= MSG_CPU_LAST),
    {
        self.get_type() >= MSG_CPU_FIRST && self.get_type() <= MSG_CPU_LAST
    }

    /// Whether the message is about a task.
    pub fn is_task_msg(&self) -> (res: bool)
        ensures
            res == (MSG_TASK_FIRST <= self.header.type_ as u32 <= MSG_TASK_LAST),
    {
        self.get_type() >= MSG_TASK_FIRST && self.get_type() <= MSG_TASK_LAST
    }

    /// The task the message is about.
    pub fn get_gtid(&self) -> (g: Gtid)
        ensures
            g == self.gtid,
    {
        self.gtid
    }

    /// The message's sequence number.
    pub fn get_seqnum(&self) -> (s: u32)
        ensures
            s == self.header.seqnum,
    {
        self.header.seqnum
    }
}

} // verus!

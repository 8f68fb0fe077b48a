use crate::abi::{GHOST_TXN_COMPLETE, GHOST_TXN_READY, SYNC_GROUP_NOT_OWNED};
use crate::gtid::Gtid;
use vstd::prelude::*;

verus! {

/// What a run request asks of the kernel.
#[derive(Clone, Copy, Debug)]
pub struct RunRequestOption {
    pub target: Gtid,
    pub target_barrier: u32,
    pub agent_barrier: u32,
    pub commit_flags: u8,
    pub run_flags: u16,
    pub sync_group_owner: i32,
    pub allow_txn_target_on_cpu: bool,
}

impl Default for RunRequestOption {
    fn default() -> (res: Self)
        ensures
            res.target.gtid_raw == 0,
            res.target_barrier == 0,
            res.agent_barrier == 0,
            res.commit_flags == 0,
            res.run_flags == 0,
            res.sync_group_owner == SYNC_GROUP_NOT_OWNED,
            !res.allow_txn_target_on_cpu,
    {
        Self {
            target: Gtid { gtid_raw: 0 },
            target_barrier: 0,
            agent_barrier: 0,
            commit_flags: 0,
            run_flags: 0,
            sync_group_owner: SYNC_GROUP_NOT_OWNED,
            allow_txn_target_on_cpu: false,
        }
    }
}

/// The fields of a CPU's transaction in the memory the kernel shares with the agent.
#[derive(Clone, Copy, Debug)]
pub struct Txn {
    pub agent_barrier: u32,
    pub gtid: i64,
    pub task_barrier: u32,
    pub run_flags: u16,
    pub commit_flags: u8,
    pub sync_group_owner: i32,
    pub state: i32,
}

/// A CPU's run request: its transaction as last read from shared memory.
#[derive(Clone, Copy, Debug)]
pub struct RunRequest {
    pub txn: Txn,
    pub allow_txn_target_on_cpu: bool,
    pub cpu: i32,
}

impl RunRequest {
    /// Fills in the transaction from `option` and marks it ready. The transaction must not
    /// be owned by a sync group (the caller waits for that) and must be committed.
    pub fn open(&mut self, option: RunRequestOption)
        requires
            old(self).txn.sync_group_owner == SYNC_GROUP_NOT_OWNED,
            old(self).txn.state < 0,
            option.allow_txn_target_on_cpu ==> option.sync_group_owner != SYNC_GROUP_NOT_OWNED,
        ensures
            final(self).cpu == old(self).cpu,
            final(self).txn.agent_barrier == option.agent_barrier,
            final(self).txn.gtid == option.target.gtid_raw,
            final(self).txn.task_barrier == option.target_barrier,
            final(self).txn.run_flags == option.run_flags,
            final(self).txn.commit_flags == option.commit_flags,
            final(self).txn.sync_group_owner == option.sync_group_owner,
            final(self).txn.state == GHOST_TXN_READY,
            final(self).allow_txn_target_on_cpu == option.allow_txn_target_on_cpu,
    {
        self.txn.agent_barrier = option.agent_barrier;
        self.txn.gtid = option.target.gtid_raw;
        self.txn.task_barrier = option.target_barrier;
        self.txn.run_flags = option.run_flags;
        self.txn.commit_flags = option.commit_flags;
        if option.sync_group_owner != SYNC_GROUP_NOT_OWNED {
            self.txn.sync_group_owner = option.sync_group_owner;
        }
        self.allow_txn_target_on_cpu = option.allow_txn_target_on_cpu;
        self.txn.state = GHOST_TXN_READY;
    }

    /// The CPU that owns the transaction's sync group.
    pub fn sync_group_owner_get(&self) -> (o: i32)
        ensures
            o == self.txn.sync_group_owner,
    {
        self.txn.sync_group_owner
    }

    /// Whether a CPU owns the transaction's sync group.
    pub fn sync_group_owned(&self) -> (res: bool)
        ensures
            res == (self.txn.sync_group_owner != SYNC_GROUP_NOT_OWNED),
    {
        self.sync_group_owner_get() != SYNC_GROUP_NOT_OWNED
    }

    /// The transaction's state.
    pub fn state(&self) -> (s: i32)
        ensures
            s == self.txn.state,
    {
        self.txn.state
    }

    /// Whether the kernel is done with the transaction.
    pub fn is_committed(&self) -> (res: bool)
        ensures
            res == (self.txn.state < 0),
    {
        self.state() < 0
    }

    /// Whether the transaction waits to be committed.
    pub fn is_open(&self) -> (res: bool)
        ensures
            res == (self.txn.state == GHOST_TXN_READY),
    {
        self.state() == GHOST_TXN_READY
    }

    /// Whether a committed transaction ran its target.
    pub fn commit_succeeded(&self) -> (res: bool)
        requires
            self.txn.state < 0,
        ensures
            res == (self.txn.state == GHOST_TXN_COMPLETE),
    {
        self.state() == GHOST_TXN_COMPLETE
    }
}

/// A run request is never open and committed at once: an open transaction waits for the
/// kernel, and a committed one can be opened again.
pub proof fn law_open_excludes_committed(r: RunRequest)
    ensures
        !(r.txn.state == GHOST_TXN_READY && r.txn.state < 0),
{
}

} // verus!

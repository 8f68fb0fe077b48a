//! A verified core for a ghOSt user-space scheduling agent: CPU lists, task
//! identifiers, the scheduling policies that pick the next task, the decoded
//! kernel messages and the agent's task bookkeeping.

pub mod abi;
pub mod agent;
pub mod enclave;
pub mod ghost;
pub mod gtid;
pub mod message;
pub mod random;
pub mod requester;
pub mod scheduler;
pub mod schedulers;
pub mod text;
pub mod topology;

use crate::requester::RunRequest;
use crate::text::{parse_i32, parsed_int, trim, trimmed};
use crate::topology::CpuList;
use vstd::prelude::*;

verus! {

/// A CPU handed to an agent, with its run request.
pub struct CpuDel {
    pub requester: RunRequest,
}

/// The number of ASCII digits in `text` from position `from` on.
pub open spec fn digit_run(text: Seq<u8>, from: int) -> nat
    decreases text.len() - from,
{
    if from < 0 || from >= text.len() || !(48 <= text[from] <= 57) {
        0
    } else {
        1 + digit_run(text, from + 1)
    }
}

/// The value of the ASCII digits `s`.
pub open spec fn bytes_value(s: Seq<u8>) -> int
    decreases s.len(),
{
    if s.len() == 0 {
        0
    } else {
        10 * bytes_value(s.drop_last()) + (s.last() - 48)
    }
}

/// What `atoi::atoi` gives for an integer type with values `lo..=hi`: an optional sign byte
/// then the longest run of ASCII digits, the bytes after it ignored; `None` when there is
/// neither a sign nor a digit, or the value is out of range.
pub open spec fn atoi_value(text: Seq<u8>, lo: int, hi: int) -> Option<int> {
    let signed = text.len() > 0 && (text[0] == 43 || text[0] == 45);
    let neg = text.len() > 0 && text[0] == 45;
    let off: int = if signed {
        1
    } else {
        0
    };
    let n = digit_run(text, off);
    if !signed && n == 0 {
        None
    } else {
        let v = bytes_value(text.subrange(off, off + n));
        let val = if neg {
            -v
        } else {
            v
        };
        if lo <= val <= hi {
            Some(val)
        } else {
            None
        }
    }
}

/// `text` parsed as a `u64` (`atoi::atoi::<u64>`).
#[verifier::external_body]
fn atoi_u64(text: &[u8]) -> (res: Option<u64>)
    ensures
        res == match atoi_value(text@, 0, u64::MAX as int) {
            Some(v) => Some(v as u64),
            None => None::<u64>,
        },
{
    atoi::atoi::<u64>(text)
}

/// `text` parsed as an `i32` (`atoi::atoi::<i32>`).
#[verifier::external_body]
fn atoi_i32(text: &[u8]) -> (res: Option<i32>)
    ensures
        res == match atoi_value(text@, i32::MIN as int, i32::MAX as int) {
            Some(v) => Some(v as i32),
            None => None::<i32>,
        },
{
    atoi::atoi::<i32>(text)
}

/// The id of a new enclave, read from its control file; `None` when it is not a number.
pub fn parse_enclave_id(buf: &[u8]) -> (res: Option<u64>)
    ensures
        res == match atoi_value(buf@, 0, u64::MAX as int) {
            Some(v) => Some(v as u64),
            None => None::<u64>,
        },
{
    atoi_u64(buf)
}

/// Whether the `agent_online` file, read into `buf`, holds `until`; `None` when it holds no
/// number.
pub fn agent_online_matches(buf: &[u8], until: i32) -> (res: Option<bool>)
    ensures
        res == match atoi_value(buf@, i32::MIN as int, i32::MAX as int) {
            Some(v) => Some(v == until),
            None => None::<bool>,
        },
{
    match atoi_i32(buf) {
        Some(v) => Some(v == until),
        None => None,
    }
}

/// The ABI version in the text of an enclave's `abi_version` file: the number it holds,
/// white space around it ignored; `None` when it holds no `i32`.
pub fn parse_abi_version(content: &str) -> (res: Option<i32>)
    ensures
        res == match parsed_int(trimmed(content@), i32::MIN as int, i32::MAX as int) {
            Some(v) => Some(v as i32),
            None => None::<i32>,
        },
{
    parse_i32(trim(content))
}

/// What writing an enclave creation command came to.
#[derive(Clone, Copy, Debug, PartialEq, Eq, Structural)]
pub enum WriteOutcome {
    /// The write took this many bytes.
    Written(usize),
    /// An enclave with that id exists.
    AlreadyExists,
    /// Any other error.
    Failed,
}

/// How the search for a free enclave id goes on.
#[derive(Clone, Copy, Debug, PartialEq, Eq, Structural)]
pub enum CreateStep {
    /// The enclave was created.
    Created,
    /// Try the next id.
    TryNext(i32),
    /// Give up.
    GiveUp,
}

/// The next step after writing a creation command of `cmd_len` bytes for enclave `e_id`:
/// created when all of it was written, the next id when the id is taken, else give up.
pub fn enclave_create_step(e_id: i32, cmd_len: usize, outcome: WriteOutcome) -> (res: CreateStep)
    requires
        outcome == WriteOutcome::AlreadyExists ==> e_id < i32::MAX,
    ensures
        res == match outcome {
            WriteOutcome::Written(len) => if len == cmd_len {
                CreateStep::Created
            } else {
                CreateStep::GiveUp
            },
            WriteOutcome::AlreadyExists => CreateStep::TryNext((e_id + 1) as i32),
            WriteOutcome::Failed => CreateStep::GiveUp,
        },
{
    match outcome {
        WriteOutcome::Written(len) => {
            if len == cmd_len {
                CreateStep::Created
            } else {
                CreateStep::GiveUp
            }
        },
        WriteOutcome::AlreadyExists => CreateStep::TryNext(e_id + 1),
        WriteOutcome::Failed => CreateStep::GiveUp,
    }
}

/// Whether an agent pinned itself to `cpu` alone: the CPUs `i` with `allowed[i]` (its
/// affinity) are exactly `cpu`.
pub fn agent_affinity_ok(num_cpus: i32, allowed: &Vec<bool>, cpu: i32) -> (res: bool)
    requires
        num_cpus <= i32::MAX - 64,
        allowed.len() <= i32::MAX,
        forall|i: int| 0 <= i < allowed.len() && #[trigger] allowed@[i] ==> i < 512,
        0 <= cpu < 512,
    ensures
        res == (cpu < allowed.len() && forall|j: int|
            0 <= j < allowed.len() ==> (#[trigger] allowed@[j] <==> j == cpu)),
{
    let agent_affinity = CpuList::from_cpuset(num_cpus, allowed);
    proof {
        agent_affinity.lemma_count_one(512);
    }
    let res = agent_affinity.size() == 1 && agent_affinity.is_set(cpu);
    proof {
        if cpu < allowed.len() && forall|j: int| 0 <= j < allowed.len() ==> (#[trigger] allowed@[j] <==> j == cpu) {
            assert(agent_affinity.has(cpu as int));
            assert forall|j: int| 0 <= j < 512 && j != cpu implies !agent_affinity.has(j) by {
                if j < allowed.len() {
                    assert(!allowed@[j]);
                }
            }
            assert(agent_affinity.only_listed_below(cpu as int, 512));
        }
        if res {
            let k = choose|k: int| #[trigger] agent_affinity.only_listed_below(k, 512);
            assert(k == cpu);
            assert forall|j: int| 0 <= j < allowed.len() implies (#[trigger] allowed@[j] <==> j == cpu) by {
                if allowed@[j] {
                    assert(agent_affinity.has(j));
                }
            }
        }
    }
    res
}

} // verus!

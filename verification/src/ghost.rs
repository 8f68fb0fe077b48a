use crate::abi::{GHOST_SW_F_INUSE, GHOST_SW_TASK_IS_AGENT};
use vstd::prelude::*;

verus! {

/// Whether a status word with `flags` belongs to a task the agent schedules: it is in use and
/// is not an agent's.
pub fn is_task_status_word(flags: u32) -> (res: bool)
    ensures
        res == (flags & GHOST_SW_F_INUSE != 0 && flags & GHOST_SW_TASK_IS_AGENT == 0),
{
    if flags & GHOST_SW_F_INUSE == 0 {
        return false;
    }
    if flags & GHOST_SW_TASK_IS_AGENT != 0 {
        return false;
    }
    true
}

/// The indices, below `capacity`, of the status words of scheduled tasks among `flags`, the
/// flags of the region's words in order.
pub fn task_status_words(flags: &Vec<u32>, capacity: u32) -> (res: Vec<u32>)
    ensures
        forall|k: int, l: int| 0 <= k < l < res.len() ==> res@[k] < res@[l],
        forall|i: u32|
            res@.contains(i) <==> i < capacity && i < flags.len() && flags@[i as int]
                & GHOST_SW_F_INUSE != 0 && flags@[i as int] & GHOST_SW_TASK_IS_AGENT == 0,
{
    let mut res: Vec<u32> = Vec::new();
    let mut i: u32 = 0;
    while i < capacity && (i as usize) < flags.len()
        invariant
            i <= capacity,
            forall|k: int, l: int| 0 <= k < l < res.len() ==> res@[k] < res@[l],
            forall|k: int| 0 <= k < res.len() ==> res@[k] < i,
            forall|j: u32|
                res@.contains(j) <==> j < i && j < flags.len() && flags@[j as int] & GHOST_SW_F_INUSE
                    != 0 && flags@[j as int] & GHOST_SW_TASK_IS_AGENT == 0,
        decreases capacity - i,
    {
        let ghost before = res@;
        if is_task_status_word(flags[i as usize]) {
            res.push(i);
        }
        proof {
            assert forall|j: u32|
                res@.contains(j) <==> j < i + 1 && j < flags.len() && flags@[j as int]
                    & GHOST_SW_F_INUSE != 0 && flags@[j as int] & GHOST_SW_TASK_IS_AGENT == 0 by {
                if before.contains(j) {
                    let k = choose|k: int| 0 <= k < before.len() && before[k] == j;
                    assert(res@[k] == j);
                }
                if res@.contains(j) && !before.contains(j) {
                    let k = choose|k: int| 0 <= k < res.len() && res@[k] == j;
                    if k < before.len() {
                        assert(before[k] == j);
                    }
                }
                if j == i && res@.len() > before.len() {
                    assert(res@[res.len() - 1] == j);
                }
            }
        }
        i = i + 1;
    }
    proof {
        assert forall|j: u32| res@.contains(j) implies j < capacity by {
            let k = choose|k: int| 0 <= k < res.len() && res@[k] == j;
        }
    }
    res
}

/// Whether a mapped status word region's header is the one asked for: it has room for some
/// words, and its id and NUMA node are the requested ones.
pub fn sw_region_header_ok(capacity: u32, region_id: u32, region_node: u32, id: i32, numa_node: i32) -> (res:
    bool)
    ensures
        res == (capacity > 0 && region_id == id as u32 && region_node == numa_node as u32),
{
    capacity > 0 && region_id == id as u32 && region_node == numa_node as u32
}

} // verus!

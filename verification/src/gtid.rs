use crate::text::{hex_text_of, parse_i64, parsed_int, push_char, push_hex, trim, trimmed};
use vstd::prelude::*;

verus! {

/// A ghOSt task identifier.
#[derive(Clone, Copy, Debug, PartialEq, Eq, Structural, Hash)]
pub struct Gtid {
    pub gtid_raw: i64,
}

impl Gtid {
    pub fn new(gtid_raw: i64) -> (g: Self)
        ensures
            g.gtid_raw == gtid_raw,
    {
        Self { gtid_raw }
    }
}

impl Gtid {
    /// The text of the identifier: `0x` and its lower-case hex digits, a negative identifier
    /// taken as its 64-bit two's complement (`{:#x}`).
    pub open spec fn text(self) -> Seq<char> {
        seq!['0', 'x'] + hex_text_of(self.gtid_raw as u64 as nat)
    }

    /// The text of the identifier (see `text`).
    pub fn to_string(&self) -> (s: String)
        ensures
            s@ == self.text(),
    {
        let mut s = String::new();
        push_char(&mut s, '0');
        push_char(&mut s, 'x');
        push_hex(&mut s, self.gtid_raw as u64);
        proof {
            assert(s@ =~= self.text());
        }
        s
    }
}

/// The identifier that stands for "no task".
pub fn null_gtid() -> (g: Gtid)
    ensures
        g.gtid_raw == 0,
{
    Gtid::new(0)
}

/// The identifier that stands for the agent itself.
pub fn agent_gtid() -> (g: Gtid)
    ensures
        g.gtid_raw == -1,
{
    Gtid::new(-1)
}

/// The identifier that stands for the idle task.
pub fn idle_gtid() -> (g: Gtid)
    ensures
        g.gtid_raw == -2,
{
    Gtid::new(-2)
}

/// A registry of task identifiers; it holds nothing.
pub struct GtidStore {}

/// The index of the first occurrence of `t` in `s`, or `s.len()` if there is none.
pub open spec fn first_index_of(s: Seq<Gtid>, t: Gtid) -> int
    decreases s.len(),
{
    if s.len() == 0 {
        0
    } else if s[0] == t {
        0
    } else {
        1 + first_index_of(s.drop_first(), t)
    }
}

proof fn lemma_first_index_of(s: Seq<Gtid>, t: Gtid)
    ensures
        0 <= first_index_of(s, t) <= s.len(),
        first_index_of(s, t) < s.len() <==> s.contains(t),
        first_index_of(s, t) < s.len() ==> s[first_index_of(s, t)] == t,
        forall|j: int| 0 <= j < first_index_of(s, t) ==> s[j] != t,
    decreases s.len(),
{
    if s.len() > 0 && s[0] != t {
        lemma_first_index_of(s.drop_first(), t);
        if s.contains(t) {
            let k = choose|k: int| 0 <= k < s.len() && s[k] == t;
            assert(s.drop_first()[k - 1] == t);
        }
        assert forall|j: int| 0 <= j < first_index_of(s, t) implies s[j] != t by {
            if j > 0 {
                assert(s[j] == s.drop_first()[j - 1]);
            }
        }
    }
}

/// The position of the first occurrence of `t` in `s`.
pub fn position_of(s: &Vec<Gtid>, t: Gtid) -> (res: Option<usize>)
    ensures
        res is Some <==> s@.contains(t),
        res matches Some(i) ==> i == first_index_of(s@, t) && s@[i as int] == t,
{
    proof {
        lemma_first_index_of(s@, t);
    }
    let mut i: usize = 0;
    while i < s.len()
        invariant
            0 <= i <= s.len(),
            forall|j: int| 0 <= j < i ==> s@[j] != t,
            0 <= first_index_of(s@, t) <= s@.len(),
            first_index_of(s@, t) < s@.len() <==> s@.contains(t),
            first_index_of(s@, t) < s@.len() ==> s@[first_index_of(s@, t)] == t,
            forall|j: int| 0 <= j < first_index_of(s@, t) ==> s@[j] != t,
        decreases s.len() - i,
    {
        if s[i] == t {
            return Some(i);
        }
        i = i + 1;
    }
    None
}

/// The calling thread's id (`nix::unistd::gettid`, the `gettid` system call), which is
/// positive. Which id comes back depends on the thread.
#[verifier::external_body]
fn gettid() -> (tid: i32)
    ensures
        tid > 0,
{
    nix::unistd::gettid().as_raw()
}

/// The identifier of the calling thread.
pub fn current() -> (g: Gtid)
    ensures
        0 < g.gtid_raw <= i32::MAX,
{
    let gtid_raw = gettid() as i64;
    Gtid { gtid_raw }
}

/// The identifier in the text of a task's `ghost/gtid` file: the number it holds, white
/// space around it ignored; `None` when it holds no number.
pub fn parse_gtid(content: &str) -> (res: Option<i64>)
    ensures
        res == match parsed_int(trimmed(content@), i64::MIN as int, i64::MAX as int) {
            Some(v) => Some(v as i64),
            None => None::<i64>,
        },
{
    parse_i64(trim(content))
}

} // verus!

use crate::text::{hex_char, hex_digit, parse_usize, parsed_int, push_char, trim, trimmed};
use nix::errno::Errno;
use nix::sched::CpuSet;
use regex::Regex;
use vstd::prelude::*;
use vstd::std_specs::cmp::PartialEqSpec;

verus! {

/// The largest number of CPUs a `CpuList` can hold.
pub const MAX_CPUS: usize = 512;

/// Bits in one bitmap word.
pub const INTS_BITS: i32 = 64;

/// Words in a `CpuList` bitmap.
pub const MAP_CAPACITY: usize = 8;

/// Bit `b` of the word `w`.
pub open spec fn bit_set(w: u64, b: int) -> bool {
    0 <= b < 64 && (w >> (b as u64)) & 1u64 == 1u64
}

/// Rust's truncating division of an `i32` by 64 (`/` on signed integers rounds toward zero).
pub open spec fn trunc_div64(x: int) -> int {
    if x >= 0 {
        x / 64
    } else {
        -((-x) / 64)
    }
}

/// Setting bit `k` of `w` sets exactly that bit.
proof fn lemma_or_bit(w: u64, k: u64, j: u64)
    by (bit_vector)
    requires
        k < 64,
        j < 64,
    ensures
        ((w | (1u64 << k)) >> j) & 1u64 == 1u64 <==> ((w >> j) & 1u64 == 1u64 || j == k),
{
}

/// Testing bit `k` with a mask.
proof fn lemma_and_bit(w: u64, k: u64)
    by (bit_vector)
    requires
        k < 64,
    ensures
        (w & (1u64 << k)) != 0u64 <==> (w >> k) & 1u64 == 1u64,
{
}

/// Masking a word with all bits from `off` upward keeps exactly those bits.
proof fn lemma_mask_from(w: u64, off: u64, b: u64)
    by (bit_vector)
    requires
        off < 64,
        b < 64,
    ensures
        ((w & (!0u64 << off)) >> b) & 1u64 == 1u64 <==> ((w >> b) & 1u64 == 1u64 && b >= off),
{
}

/// A word is non-zero exactly when one of its bits is set.
proof fn lemma_zero_word(w: u64, b: u64)
    by (bit_vector)
    requires
        w == 0u64,
        b < 64,
    ensures
        (w >> b) & 1u64 == 0u64,
{
}

/// A nibble of a word is the sum of its four bits.
proof fn lemma_nibble_bits(w: u64, s0: u64, s1: u64, s2: u64, s3: u64)
    by (bit_vector)
    requires
        s0 <= 60,
        s1 == s0 + 1,
        s2 == s0 + 2,
        s3 == s0 + 3,
    ensures
        (w >> s0) & 0xfu64 == 8 * ((w >> s3) & 1u64) + 4 * ((w >> s2) & 1u64) + 2 * ((w >> s1)
            & 1u64) + ((w >> s0) & 1u64),
        (w >> s0) & 1u64 <= 1,
        (w >> s1) & 1u64 <= 1,
        (w >> s2) & 1u64 <= 1,
        (w >> s3) & 1u64 <= 1,
{
}

/// Two words that agree on every bit are equal.
proof fn lemma_word_ext(x: u64, y: u64)
    requires
        forall|b: int| 0 <= b < 64 ==> bit_set(x, b) == bit_set(y, b),
    ensures
        x == y,
{
    broadcast use vstd::std_specs::bits::axiom_u64_trailing_zeros;

    if x != y {
        let z = x ^ y;
        assert(z != 0u64) by (bit_vector)
            requires
                x != y,
                z == x ^ y,
        ;
        let t = vstd::std_specs::bits::u64_trailing_zeros(z) as u64;
        assert(t < 64);
        assert((z >> t) & 1u64 == 1u64);
        assert(((x >> t) & 1u64 == 1u64) != ((y >> t) & 1u64 == 1u64)) by (bit_vector)
            requires
                z == x ^ y,
                (z >> t) & 1u64 == 1u64,
                t < 64,
        ;
        assert(bit_set(x, t as int) != bit_set(y, t as int));
    }
}

/// For `-64 < id < 0`, `id & 63` is `id + 64`.
proof fn lemma_neg_offset(id: i32)
    by (bit_vector)
    requires
        -64 < id < 0,
    ensures
        id & 63i32 == id + 64,
{
}

/// For `0 <= id`, `id & 63` is `id % 64`.
proof fn lemma_pos_offset(id: i32)
    by (bit_vector)
    requires
        0 <= id,
    ensures
        id & 63i32 == id % 64,
{
}

/// A set of CPU ids below `MAX_CPUS`, kept as a bitmap.
#[derive(Clone, Copy, Debug)]
pub struct CpuList {
    num_cpus: i32,
    map_size: i32,
    bitmap: [u64; 8],
}

impl CpuList {
    /// The number of CPUs this list was made for.
    pub closed spec fn spec_num_cpus(self) -> int {
        self.num_cpus as int
    }

    /// The number of bitmap words in use.
    pub closed spec fn spec_map_size(self) -> int {
        self.map_size as int
    }

    /// Whether CPU `id` is in the list.
    pub closed spec fn has(self, id: int) -> bool {
        0 <= id < 512 && bit_set(self.bitmap@[id / 64], id % 64)
    }

    /// The number of CPUs below `n` that are in the list.
    pub open spec fn count_below(self, n: int) -> nat
        decreases n,
    {
        if n <= 0 {
            0
        } else {
            self.count_below(n - 1) + if self.has(n - 1) {
                1nat
            } else {
                0nat
            }
        }
    }

    /// No listed CPU lies below `n` exactly when the count below `n` is zero.
    pub proof fn lemma_count_zero(self, n: int)
        requires
            n >= 0,
        ensures
            (self.count_below(n) == 0) <==> forall|j: int| 0 <= j < n ==> !self.has(j),
        decreases n,
    {
        if n > 0 {
            self.lemma_count_zero(n - 1);
        }
    }

    /// `k` is the only listed CPU below `n`.
    pub open spec fn only_listed_below(self, k: int, n: int) -> bool {
        &&& 0 <= k < n
        &&& self.has(k)
        &&& forall|j: int| 0 <= j < n && j != k ==> !self.has(j)
    }

    /// The count below `n` is one exactly when a single listed CPU lies below `n`.
    pub proof fn lemma_count_one(self, n: int)
        requires
            n >= 0,
        ensures
            (self.count_below(n) == 1) <==> exists|k: int| #[trigger] self.only_listed_below(k, n),
        decreases n,
    {
        if n > 0 {
            let m = n - 1;
            self.lemma_count_one(m);
            self.lemma_count_zero(m);
            if self.has(m) {
                if self.count_below(n) == 1 {
                    assert(self.only_listed_below(m, n));
                }
                if exists|k: int| #[trigger] self.only_listed_below(k, n) {
                    let k = choose|k: int| #[trigger] self.only_listed_below(k, n);
                    assert(k == m);
                    assert forall|j: int| 0 <= j < m implies !self.has(j) by {
                        assert(j != k);
                    }
                }
            } else {
                if self.count_below(n) == 1 {
                    let k = choose|k: int| #[trigger] self.only_listed_below(k, m);
                    assert(self.only_listed_below(k, n));
                }
                if exists|k: int| #[trigger] self.only_listed_below(k, n) {
                    let k = choose|k: int| #[trigger] self.only_listed_below(k, n);
                    assert(self.only_listed_below(k, m));
                }
            }
        }
    }

    /// Two lists that differ at most at `id` count alike below `n`, up to `id` itself.
    proof fn lemma_count_after_set(before: Self, after: Self, id: int, n: int)
        requires
            0 <= id < 512,
            n >= 0,
            forall|j: int| after.has(j) <==> (before.has(j) || j == id),
        ensures
            after.count_below(n) == before.count_below(n) + if id < n && !before.has(id) {
                1nat
            } else {
                0nat
            },
        decreases n,
    {
        if n > 0 {
            Self::lemma_count_after_set(before, after, id, n - 1);
        }
    }

    /// Adding a CPU that is not listed yet grows the list's size by one; adding a listed CPU
    /// leaves the size as it was.
    pub proof fn law_set_grows_size(before: Self, after: Self, id: int)
        requires
            0 <= id < 512,
            forall|j: int| after.has(j) <==> (before.has(j) || j == id),
        ensures
            after.count_below(512) == before.count_below(512) + if before.has(id) {
                0nat
            } else {
                1nat
            },
    {
        Self::lemma_count_after_set(before, after, id, 512);
    }

    /// Lists made by `from_vec` for the same number of CPUs from two vectors holding the same
    /// CPUs are equal: the order of the vectors and repeats in them do not matter.
    pub proof fn law_from_vec_ignores_order(a: Seq<i32>, b: Seq<i32>, la: Self, lb: Self)
        requires
            la.spec_num_cpus() == lb.spec_num_cpus(),
            la.spec_map_size() == lb.spec_map_size(),
            forall|id: int| la.has(id) ==> 0 <= id < 512,
            forall|id: int| lb.has(id) ==> 0 <= id < 512,
            forall|id: i32| la.has(id as int) <==> a.contains(id),
            forall|id: i32| lb.has(id as int) <==> b.contains(id),
            forall|c: i32| a.contains(c) <==> b.contains(c),
        ensures
            la == lb,
    {
        assert forall|id: int| la.has(id) == lb.has(id) by {
            if la.has(id) || lb.has(id) {
                assert(la.has((id as i32) as int) == a.contains(id as i32));
                assert(lb.has((id as i32) as int) == b.contains(id as i32));
            }
        }
        Self::lemma_same_cpus_equal(la, lb);
    }

    /// Adding a CPU twice gives the same list as adding it once.
    pub proof fn law_set_is_idempotent(before: Self, once: Self, twice: Self, id: int)
        requires
            0 <= id < 512,
            once.spec_num_cpus() == before.spec_num_cpus(),
            once.spec_map_size() == before.spec_map_size(),
            forall|j: int| once.has(j) <==> (before.has(j) || j == id),
            twice.spec_num_cpus() == once.spec_num_cpus(),
            twice.spec_map_size() == once.spec_map_size(),
            forall|j: int| twice.has(j) <==> (once.has(j) || j == id),
        ensures
            twice == once,
    {
        Self::lemma_same_cpus_equal(twice, once);
    }

    /// An empty list for `num_cpus` CPUs.
    pub fn new(num_cpus: i32) -> (res: Self)
        requires
            num_cpus <= i32::MAX - 64,
        ensures
            res.spec_num_cpus() == num_cpus,
            res.spec_map_size() == trunc_div64(num_cpus + 63),
            forall|id: int| !res.has(id),
    {
        let map_size = (num_cpus + INTS_BITS - 1) / INTS_BITS;
        let res = Self { num_cpus, map_size, bitmap: [0u64; 8] };
        assert forall|id: int| !res.has(id) by {
            if 0 <= id < 512 {
                assert(res.bitmap@[id / 64] == 0u64);
                let b = (id % 64) as u64;
                assert((0u64 >> b) & 1u64 == 0u64) by (bit_vector);
            }
        }
        res
    }

    /// Adds CPU `id`.
    pub fn set(&mut self, id: i32)
        requires
            0 <= id < 512,
        ensures
            final(self).spec_num_cpus() == old(self).spec_num_cpus(),
            final(self).spec_map_size() == old(self).spec_map_size(),
            forall|j: int| final(self).has(j) <==> (old(self).has(j) || j == id),
    {
        let idx = (id / INTS_BITS) as usize;
        let off = (id % INTS_BITS) as u64;
        let w = self.bitmap[idx];
        self.bitmap[idx] = w | (1u64 << off);
        assert forall|j: int| self.has(j) <==> (old(self).has(j) || j == id) by {
            if 0 <= j < 512 {
                lemma_or_bit(w, off, (j % 64) as u64);
            }
        }
    }

    /// Whether CPU `id` is in the list.
    pub fn is_set(&self, id: i32) -> (res: bool)
        requires
            0 <= id < 512,
        ensures
            res == self.has(id as int),
    {
        let idx = (id / INTS_BITS) as usize;
        let off = (id % INTS_BITS) as u64;
        proof {
            lemma_and_bit(self.bitmap@[idx as int], off);
        }
        (self.bitmap[idx] & (1u64 << off)) != 0
    }

    /// The number of CPUs in the list.
    pub fn size(&self) -> (res: usize)
        ensures
            res == self.count_below(512),
    {
        let mut size: usize = 0;
        let mut id: i32 = 0;
        while id < 512
            invariant
                0 <= id <= 512,
                size == self.count_below(id as int),
                size <= id,
            decreases 512 - id,
        {
            if self.is_set(id) {
                size = size + 1;
            }
            id = id + 1;
        }
        size
    }

    /// A list for `num_cpus` CPUs holding exactly the CPUs of `cpus`.
    pub fn from_vec(num_cpus: i32, cpus: &Vec<i32>) -> (res: Self)
        requires
            num_cpus <= i32::MAX - 64,
            forall|i: int| 0 <= i < cpus.len() ==> 0 <= #[trigger] cpus@[i] < 512,
        ensures
            res.spec_num_cpus() == num_cpus,
            res.spec_map_size() == trunc_div64(num_cpus + 63),
            forall|id: int| res.has(id) ==> 0 <= id < 512,
            forall|id: i32| res.has(id as int) <==> cpus@.contains(id),
    {
        let mut cpu_list = CpuList::new(num_cpus);
        let mut i: usize = 0;
        while i < cpus.len()
            invariant
                0 <= i <= cpus.len(),
                forall|k: int| 0 <= k < cpus.len() ==> 0 <= #[trigger] cpus@[k] < 512,
                cpu_list.spec_num_cpus() == num_cpus,
                cpu_list.spec_map_size() == trunc_div64(num_cpus + 63),
                forall|id: int| cpu_list.has(id) ==> 0 <= id < 512,
                forall|id: i32| cpu_list.has(id as int) <==> cpus@.subrange(0, i as int).contains(id),
            decreases cpus.len() - i,
        {
            let ghost prev = cpu_list;
            cpu_list.set(cpus[i]);
            proof {
                let s0 = cpus@.subrange(0, i as int);
                let s1 = cpus@.subrange(0, i + 1);
                assert(s1 =~= s0.push(cpus@[i as int]));
                assert forall|id: i32| cpu_list.has(id as int) <==> s1.contains(id) by {
                    if s1.contains(id) && id != cpus@[i as int] {
                        let k = choose|k: int| 0 <= k < s1.len() && s1[k] == id;
                        assert(s0[k] == id);
                    }
                    if s0.contains(id) {
                        let k = choose|k: int| 0 <= k < s0.len() && s0[k] == id;
                        assert(s1[k] == id);
                    }
                    assert(s1[i as int] == cpus@[i as int]);
                }
            }
            i = i + 1;
        }
        proof {
            assert(cpus@.subrange(0, cpus.len() as int) =~= cpus@);
        }
        cpu_list
    }

    /// The position a search for the next CPU in the list, starting at `start`, ends at:
    /// the smallest listed CPU in `start..64 * map_size` if there is one, else `num_cpus`.
    pub open spec fn is_next_set(self, start: int, r: int) -> bool {
        if exists|p: int| start <= p < 64 * self.spec_map_size() && #[trigger] self.has(p) {
            &&& start <= r < 64 * self.spec_map_size()
            &&& self.has(r)
            &&& forall|p: int| start <= p < r ==> !#[trigger] self.has(p)
        } else {
            r == self.spec_num_cpus()
        }
    }

    /// Where the search of `CpuListIter::find_next_set_bit` starts for an iterator at `id`:
    /// the bit offset is taken with a mask, so `-64 < id < 0` starts at `id + 64`.
    pub open spec fn search_start(id: int) -> int {
        if id >= 0 {
            id
        } else {
            id + 64
        }
    }

    proof fn lemma_has_word(self, m: int, b: int)
        requires
            0 <= m < 8,
            0 <= b < 64,
        ensures
            self.has(64 * m + b) == bit_set(self.bitmap@[m], b),
    {
    }

    /// The search of `CpuListIter::find_next_set_bit`.
    fn next_set_bit(&self, id: i32) -> (r: i32)
        requires
            self.map_size <= 8,
            -64 < id,
        ensures
            self.is_next_set(Self::search_start(id as int), r as int),
    {
        broadcast use vstd::std_specs::bits::axiom_u64_trailing_zeros;

        let ghost start = Self::search_start(id as int);
        let map_idx0 = id / INTS_BITS;
        let bit_offset = id & (INTS_BITS - 1);
        proof {
            if id < 0 {
                lemma_neg_offset(id);
            } else {
                lemma_pos_offset(id);
            }
        }
        if map_idx0 >= self.map_size {
            proof {
                assert(!exists|p: int| start <= p < 64 * self.map_size && #[trigger] self.has(p));
            }
            return self.num_cpus;
        }
        let mut map_idx = map_idx0;
        let w0 = self.bitmap[map_idx as usize];
        let mut word = w0 & (!0u64 << (bit_offset as u64));
        proof {
            assert forall|b: int| 0 <= b < 64 implies bit_set(word, b) == (self.has(64 * map_idx + b)
                && 64 * map_idx + b >= start) by {
                lemma_mask_from(w0, bit_offset as u64, b as u64);
                self.lemma_has_word(map_idx as int, b);
            }
        }
        while map_idx < self.map_size
            invariant
                self.map_size <= 8,
                0 <= map_idx <= self.map_size,
                start == Self::search_start(id as int),
                64 * map_idx0 <= start < 64 * map_idx0 + 64,
                map_idx0 <= map_idx,
                map_idx < self.map_size ==> forall|b: int|
                    0 <= b < 64 ==> bit_set(word, b) == (self.has(64 * map_idx + b) && 64 * map_idx + b
                        >= start),
                forall|p: int| start <= p < 64 * map_idx ==> !#[trigger] self.has(p),
            decreases self.map_size - map_idx,
        {
            if word != 0 {
                let tz = word.trailing_zeros();
                let r = map_idx * INTS_BITS + tz as i32;
                proof {
                    assert(bit_set(word, tz as int));
                    assert forall|p: int| start <= p < r implies !#[trigger] self.has(p) by {
                        if p >= 64 * map_idx {
                            let b = p - 64 * map_idx;
                            assert((word >> (b as u64)) & 1u64 == 0u64);
                            assert(!bit_set(word, b));
                        }
                    }
                    assert(self.has(r as int));
                    assert(start <= r < 64 * self.map_size);
                    assert(exists|p: int| start <= p < 64 * self.map_size && #[trigger] self.has(p));
                }
                return r;
            }
            proof {
                assert forall|p: int| start <= p < 64 * map_idx + 64 implies !#[trigger] self.has(p) by {
                    if p >= 64 * map_idx {
                        lemma_zero_word(word, (p - 64 * map_idx) as u64);
                        assert(!bit_set(word, p - 64 * map_idx));
                    }
                }
            }
            map_idx = map_idx + 1;
            if map_idx < self.map_size {
                word = self.bitmap[map_idx as usize];
                proof {
                    assert forall|b: int| 0 <= b < 64 implies bit_set(word, b) == (self.has(64 * map_idx + b)
                        && 64 * map_idx + b >= start) by {
                        self.lemma_has_word(map_idx as int, b);
                    }
                }
            }
        }
        proof {
            assert(!exists|p: int| start <= p < 64 * self.map_size && #[trigger] self.has(p));
        }
        self.num_cpus
    }
}

impl CpuList {
    /// Whether a search over this list can run: the words in use fit the bitmap.
    pub open spec fn searchable(self) -> bool {
        self.spec_map_size() <= 8
    }

    /// An iterator at the first listed CPU.
    pub fn begin(&self) -> (it: CpuListIter)
        requires
            self.searchable(),
        ensures
            it.map() == *self,
            self.is_next_set(0, it.spec_id()),
    {
        CpuListIter::new(self, 0)
    }

    /// An iterator whose search starts at `map_size`.
    pub fn end(&self) -> (it: CpuListIter)
        requires
            self.searchable(),
            -64 < self.spec_map_size(),
        ensures
            it.map() == *self,
            self.is_next_set(Self::search_start(self.spec_map_size()), it.spec_id()),
    {
        CpuListIter::new(self, self.map_size)
    }
}

impl CpuList {
    /// Where a walk from `begin` stops: at `num_cpus` if that CPU is listed within the words in
    /// use, else after the last word in use.
    pub open spec fn walk_bound(self) -> int {
        if 0 <= self.spec_num_cpus() < 64 * self.spec_map_size() && self.has(self.spec_num_cpus()) {
            self.spec_num_cpus()
        } else {
            64 * self.spec_map_size()
        }
    }

    /// The CPUs a walk from `begin` visits, in increasing order: every listed CPU below
    /// `walk_bound`.
    pub fn cpus(&self) -> (res: Vec<i32>)
        requires
            self.searchable(),
        ensures
            forall|i: int, j: int| 0 <= i < j < res.len() ==> res@[i] < res@[j],
            forall|i: int|
                0 <= i < res.len() ==> self.has(#[trigger] res@[i] as int) && 0 <= res@[i]
                    < self.walk_bound(),
            forall|p: int| 0 <= p < self.walk_bound() && self.has(p) ==> res@.contains(p as i32),
    {
        let mut it = self.begin();
        let mut res: Vec<i32> = Vec::new();
        loop
            invariant
                it.map() == *self,
                forall|i: int, j: int| 0 <= i < j < res.len() ==> res@[i] < res@[j],
                forall|i: int|
                    0 <= i < res.len() ==> self.has(#[trigger] res@[i] as int) && 0 <= res@[i]
                        < self.walk_bound(),
                it.spec_id() != self.num_cpus ==> {
                    &&& 0 <= it.spec_id() < self.walk_bound()
                    &&& self.has(it.spec_id())
                    &&& forall|i: int| 0 <= i < res.len() ==> res@[i] < it.spec_id()
                    &&& forall|p: int|
                        0 <= p < it.spec_id() && #[trigger] self.has(p) ==> res@.contains(p as i32)
                },
                it.spec_id() == self.num_cpus ==> forall|p: int|
                    0 <= p < self.walk_bound() && #[trigger] self.has(p) ==> res@.contains(p as i32),
            ensures
                forall|p: int|
                    0 <= p < self.walk_bound() && #[trigger] self.has(p) ==> res@.contains(p as i32),
            decreases
                    if it.spec_id() == self.num_cpus {
                        0
                    } else {
                        600 - it.spec_id()
                    },
        {
            let ghost prev = res@;
            let ghost c = it.spec_id();
            match it.next() {
                None => {
                    break;
                },
                Some(v) => {
                    res.push(v);
                    proof {
                        assert(res@[res.len() - 1] == v);
                        if it.spec_id() != self.num_cpus {
                            assert forall|p: int|
                                0 <= p < it.spec_id() && #[trigger] self.has(p) implies res@.contains(
                                p as i32,
                            ) by {
                                if p < c {
                                    let k = choose|k: int| 0 <= k < prev.len() && prev[k] == p as i32;
                                    assert(res@[k] == p as i32);
                                } else if p == c {
                                    assert(res@[res.len() - 1] == p as i32);
                                }
                            }
                        } else {
                            assert forall|p: int|
                                0 <= p < self.walk_bound() && #[trigger] self.has(p) implies res@.contains(
                                p as i32,
                            ) by {
                                if p < c {
                                    let k = choose|k: int| 0 <= k < prev.len() && prev[k] == p as i32;
                                    assert(res@[k] == p as i32);
                                } else if p == c {
                                    assert(res@[res.len() - 1] == p as i32);
                                }
                            }
                        }
                    }
                },
            }
        }
        res
    }
}

/// Nibble `k` of `w`, counted from the most significant one (`0 <= k < 16`).
pub open spec fn nibble(w: u64, k: int) -> u8 {
    ((w >> ((4 * (15 - k)) as u64)) & 0xfu64) as u8
}

/// The hex digits of the nibbles `t`.
pub open spec fn hex_text(t: Seq<u8>) -> Seq<char> {
    t.map_values(|n: u8| hex_char(n))
}

/// `t` without its leading zeros, built from the left.
pub open spec fn drop_leading_zeros(t: Seq<u8>) -> Seq<u8>
    decreases t.len(),
{
    if t.len() == 0 {
        t
    } else {
        let prev = drop_leading_zeros(t.drop_last());
        if prev.len() == 0 && t.last() == 0 {
            prev
        } else {
            prev.push(t.last())
        }
    }
}

/// The first `n` characters of `s` with a comma before every character at a position
/// `i > 0` whose distance `len - i` to the end of `s` is a multiple of eight: groups of eight
/// digits counted from the right.
pub open spec fn group_by_eight(s: Seq<char>, n: int) -> Seq<char>
    decreases n,
{
    if n <= 0 {
        Seq::empty()
    } else {
        let i = n - 1;
        let before = group_by_eight(s, i);
        let with_comma = if i > 0 && (s.len() - i) % 8 == 0 {
            before.push(',')
        } else {
            before
        };
        with_comma.push(s[i])
    }
}

/// One more nibble: the hex text without leading zeros grows by that nibble's digit unless
/// it is a leading zero.
proof fn lemma_emit_step(t: Seq<u8>, before: Seq<char>, after: Seq<char>)
    requires
        t.len() > 0,
        before == hex_text(drop_leading_zeros(t.drop_last())),
        after == if before.len() == 0 && t.last() == 0 {
            before
        } else {
            before.push(hex_char(t.last()))
        },
    ensures
        after =~= hex_text(drop_leading_zeros(t)),
{
    let prev = drop_leading_zeros(t.drop_last());
    if !(prev.len() == 0 && t.last() == 0) {
        assert(prev.push(t.last()).map_values(|n: u8| hex_char(n)) =~= prev.map_values(
            |n: u8| hex_char(n),
        ).push(hex_char(t.last())));
    }
}

proof fn lemma_byte_nibbles(w: u64, o: u64)
    by (bit_vector)
    requires
        o < 8,
    ensures
        (((w >> (8 * o)) & 0xffu64) as u8) >> 4u8 == ((w >> (8 * o + 4)) & 0xfu64) as u8,
        (((w >> (8 * o)) & 0xffu64) as u8) & 0xfu8 == ((w >> (8 * o)) & 0xfu64) as u8,
        (((w >> (8 * o)) & 0xffu64) as u8) >> 4u8 < 16,
        (((w >> (8 * o)) & 0xffu64) as u8) & 0xfu8 < 16,
{
}

impl CpuList {
    /// The nibbles of the words in use, each word from its most significant nibble down.
    spec fn word_nibbles(self) -> Seq<u8> {
        let len: nat = if self.map_size > 0 {
            (16 * self.map_size) as nat
        } else {
            0
        };
        Seq::new(len, |j: int| nibble(self.bitmap@[j / 16], j % 16))
    }

    /// 1 when CPU `id` is listed, else 0.
    pub open spec fn cpu_bit(self, id: int) -> int {
        if self.has(id) {
            1
        } else {
            0
        }
    }

    /// Nibble `j` of the mask: the CPUs `b..b + 4` of the word `j / 16`, where `b` counts
    /// down from the word's top nibble, CPU `b + 3` being the nibble's high bit.
    pub open spec fn nibble_at(self, j: int) -> u8 {
        let b = 64 * (j / 16) + 4 * (15 - j % 16);
        (8 * self.cpu_bit(b + 3) + 4 * self.cpu_bit(b + 2) + 2 * self.cpu_bit(b + 1) + self.cpu_bit(
            b,
        )) as u8
    }

    /// The nibbles of the words in use, each word from its most significant nibble down.
    pub open spec fn nibbles(self) -> Seq<u8> {
        let len: nat = if self.spec_map_size() > 0 {
            (16 * self.spec_map_size()) as nat
        } else {
            0
        };
        Seq::new(len, |j: int| self.nibble_at(j))
    }

    /// The nibble of a word is made of its four bits.
    proof fn lemma_word_nibble(self, j: int)
        requires
            0 <= j < 16 * self.map_size,
            self.map_size <= 8,
        ensures
            nibble(self.bitmap@[j / 16], j % 16) == self.nibble_at(j),
    {
        let m = j / 16;
        let k = j % 16;
        let w = self.bitmap@[m];
        let base = 4 * (15 - k);
        let s0 = base as u64;
        let s1 = (base + 1) as u64;
        let s2 = (base + 2) as u64;
        let s3 = (base + 3) as u64;
        lemma_nibble_bits(w, s0, s1, s2, s3);
        self.lemma_has_word(m, base);
        self.lemma_has_word(m, base + 1);
        self.lemma_has_word(m, base + 2);
        self.lemma_has_word(m, base + 3);
        let b = 64 * m + base;
        assert(64 * m + (base + 1) == b + 1);
        assert(64 * m + (base + 2) == b + 2);
        assert(64 * m + (base + 3) == b + 3);
        assert(self.cpu_bit(b) == (w >> s0) & 1u64);
        assert(self.cpu_bit(b + 1) == (w >> s1) & 1u64);
        assert(self.cpu_bit(b + 2) == (w >> s2) & 1u64);
        assert(self.cpu_bit(b + 3) == (w >> s3) & 1u64);
    }

    /// The nibbles read off the words are the nibbles of the listed CPUs.
    proof fn lemma_word_nibbles(self)
        requires
            self.map_size <= 8,
        ensures
            self.word_nibbles() == self.nibbles(),
    {
        assert forall|j: int| 0 <= j < self.word_nibbles().len() implies self.word_nibbles()[j]
            == self.nibbles()[j] by {
            self.lemma_word_nibble(j);
        }
        assert(self.word_nibbles() =~= self.nibbles());
    }

    /// Two lists made for the same number of CPUs, with the same number of words in use and
    /// the same CPUs, are equal.
    pub proof fn lemma_same_cpus_equal(a: Self, b: Self)
        requires
            a.spec_num_cpus() == b.spec_num_cpus(),
            a.spec_map_size() == b.spec_map_size(),
            forall|id: int| a.has(id) == b.has(id),
        ensures
            a == b,
    {
        assert forall|m: int| 0 <= m < 8 implies a.bitmap[m] == b.bitmap[m] by {
            assert forall|bit: int| 0 <= bit < 64 implies bit_set(a.bitmap@[m], bit) == bit_set(
                b.bitmap@[m],
                bit,
            ) by {
                a.lemma_has_word(m, bit);
                b.lemma_has_word(m, bit);
                assert(a.has(64 * m + bit) == b.has(64 * m + bit));
            }
            lemma_word_ext(a.bitmap@[m], b.bitmap@[m]);
        }
        assert(a.bitmap =~= b.bitmap);
    }

    /// The text of `cpu_mask_string`: the hex digits of `nibbles` without leading zeros,
    /// grouped by eight from the right with commas, or `"0"` when no digit is left.
    pub open spec fn mask_text(self) -> Seq<char> {
        let digits = hex_text(drop_leading_zeros(self.nibbles()));
        if digits.len() == 0 {
            seq!['0']
        } else {
            group_by_eight(digits, digits.len() as int)
        }
    }

    /// The CPU mask as the kernel's `cpumask` file takes it.
    pub fn cpu_mask_string(&self) -> (res: String)
        requires
            self.searchable(),
        ensures
            res@ == self.mask_text(),
    {
        let mut digits: Vec<char> = Vec::new();
        let mut emitted_nibble = false;
        let ghost nib = self.word_nibbles();
        let n = if self.map_size > 0 {
            self.map_size * 8
        } else {
            0
        };
        let mut i: i32 = 0;
        while i < n
            invariant
                self.map_size <= 8,
                n == if self.map_size > 0 { self.map_size * 8 } else { 0 },
                nib == self.word_nibbles(),
                0 <= i <= n,
                digits@ == hex_text(drop_leading_zeros(nib.take(2 * i))),
                emitted_nibble == (digits@.len() > 0),
            decreases n - i,
        {
            let idx = i / 8;
            let value = self.bitmap[idx as usize];
            let offset = 8 - (i % 8) - 1;
            let byte = ((value >> ((8 * offset) as u64)) & 0xff) as u8;
            let hi = byte >> 4;
            let lo = byte & 0xf;
            proof {
                lemma_byte_nibbles(value, offset as u64);
                assert(nib[2 * i] == hi) by {
                    assert((2 * i) / 16 == idx);
                    assert(4 * (15 - (2 * i) % 16) == 8 * offset + 4);
                }
                assert(nib[2 * i + 1] == lo) by {
                    assert((2 * i + 1) / 16 == idx);
                    assert(4 * (15 - (2 * i + 1) % 16) == 8 * offset);
                }
                assert(nib.take(2 * i + 1).drop_last() =~= nib.take(2 * i));
                assert(nib.take(2 * i + 2).drop_last() =~= nib.take(2 * i + 1));
            }
            let ghost d0 = digits@;
            if hi != 0 || emitted_nibble {
                digits.push(hex_digit(hi));
                emitted_nibble = true;
            }
            proof {
                lemma_emit_step(nib.take(2 * i + 1), d0, digits@);
            }
            let ghost d1 = digits@;
            if lo != 0 || emitted_nibble {
                digits.push(hex_digit(lo));
                emitted_nibble = true;
            }
            proof {
                lemma_emit_step(nib.take(2 * i + 2), d1, digits@);
            }
            i = i + 1;
        }
        proof {
            assert(nib.take(2 * n) =~= nib);
            self.lemma_word_nibbles();
        }
        let mut ret = String::new();
        let len = digits.len();
        let mut nibble_til_next_comma = len % 8;
        if nibble_til_next_comma == 0 {
            nibble_til_next_comma = 8;
        }
        let mut k: usize = 0;
        while k < len
            invariant
                len == digits@.len(),
                0 <= k <= len,
                ret@ == group_by_eight(digits@, k as int),
                k == 0 ==> 1 <= nibble_til_next_comma <= 8 && nibble_til_next_comma % 8 == len % 8,
                k > 0 ==> nibble_til_next_comma < 8 && nibble_til_next_comma == (len - k) % 8,
            decreases len - k,
        {
            if nibble_til_next_comma == 0 {
                nibble_til_next_comma = 8;
                push_char(&mut ret, ',');
            }
            nibble_til_next_comma = nibble_til_next_comma - 1;
            push_char(&mut ret, digits[k]);
            k = k + 1;
        }
        if len == 0 {
            push_char(&mut ret, '0');
        }
        ret
    }
}

impl PartialEq for CpuList {
    fn eq(&self, other: &Self) -> (res: bool) {
        if self.num_cpus != other.num_cpus || self.map_size != other.map_size {
            return false;
        }
        let mut i: usize = 0;
        while i < 8
            invariant
                0 <= i <= 8,
                forall|k: int| 0 <= k < i ==> self.bitmap@[k] == other.bitmap@[k],
            decreases 8 - i,
        {
            if self.bitmap[i] != other.bitmap[i] {
                return false;
            }
            i = i + 1;
        }
        proof {
            assert(self.bitmap@ =~= other.bitmap@);
        }
        true
    }
}

impl Eq for CpuList {

}

impl vstd::std_specs::cmp::PartialEqSpecImpl for CpuList {
    open spec fn obeys_eq_spec() -> bool {
        true
    }

    closed spec fn eq_spec(&self, other: &Self) -> bool {
        &&& self.num_cpus == other.num_cpus
        &&& self.map_size == other.map_size
        &&& self.bitmap@ == other.bitmap@
    }
}

impl CpuList {
    /// Two lists are equal (`==`) exactly when they are the same value.
    pub proof fn lemma_eq_spec(a: CpuList, b: CpuList)
        ensures
            a.eq_spec(&b) <==> a == b,
    {
        if a.eq_spec(&b) {
            assert(a.bitmap =~= b.bitmap);
        }
    }
}

/// A walk over the CPUs of a `CpuList` in increasing order.
pub struct CpuListIter<'a> {
    map: &'a CpuList,
    id: i32,
}

impl<'a> CpuListIter<'a> {
    /// The list walked over.
    pub closed spec fn map(self) -> CpuList {
        *self.map
    }

    /// The current position: a listed CPU, or `num_cpus` at the end.
    pub closed spec fn spec_id(self) -> int {
        self.id as int
    }

    #[verifier::type_invariant]
    closed spec fn inv(self) -> bool {
        &&& self.map.searchable()
        &&& (self.id == self.map.num_cpus || (0 <= self.id < 64 * self.map.map_size && self.map.has(
            self.id as int,
        )))
    }

    proof fn lemma_next_set_valid(map: CpuList, start: int, r: int)
        requires
            map.is_next_set(start, r),
            start >= 0,
        ensures
            r == map.num_cpus || (0 <= r < 64 * map.map_size && map.has(r)),
    {
    }

    /// An iterator at the first listed CPU at or after `id`.
    pub fn new(map: &'a CpuList, id: i32) -> (it: Self)
        requires
            map.searchable(),
            -64 < id,
        ensures
            it.map() == *map,
            map.is_next_set(CpuList::search_start(id as int), it.spec_id()),
    {
        let r = map.next_set_bit(id);
        proof {
            Self::lemma_next_set_valid(*map, CpuList::search_start(id as int), r as int);
        }
        Self { map, id: r }
    }

    /// Moves to the first listed CPU at or after the current position.
    pub fn find_next_set_bit(&mut self)
        requires
            -64 < old(self).spec_id(),
        ensures
            final(self).map() == old(self).map(),
            old(self).map().is_next_set(CpuList::search_start(old(self).spec_id()), final(self).spec_id()),
    {
        proof {
            use_type_invariant(&*self);
        }
        let r = self.map.next_set_bit(self.id);
        proof {
            Self::lemma_next_set_valid(*self.map, CpuList::search_start(self.id as int), r as int);
        }
        self.id = r;
    }

    /// The current CPU, moving on to the next listed one; `None` at the end.
    pub fn next(&mut self) -> (res: Option<i32>)
        ensures
            final(self).map() == old(self).map(),
            old(self).spec_id() == old(self).map().spec_num_cpus() ==> res is None && *final(self)
                == *old(self),
            old(self).spec_id() != old(self).map().spec_num_cpus() ==> {
                &&& res == Some(old(self).spec_id() as i32)
                &&& old(self).map().has(old(self).spec_id())
                &&& old(self).map().is_next_set(old(self).spec_id() + 1, final(self).spec_id())
            },
    {
        proof {
            use_type_invariant(&*self);
        }
        if self.id == self.map.num_cpus {
            return None;
        }
        let current = self.id;
        let r = self.map.next_set_bit(current + 1);
        proof {
            Self::lemma_next_set_valid(*self.map, current + 1, r as int);
        }
        self.id = r;
        Some(current)
    }
}

/// Where step `i` of a walk from `k` that visited `ids` starts its search: at `k`, then one
/// past the CPU visited last.
pub open spec fn walk_start(k: int, ids: Seq<int>, i: int) -> int {
    if i == 0 {
        k
    } else {
        ids[i - 1] + 1
    }
}

/// `ids` are the CPUs a walk over `l` from `k` visits before it stops, as repeated
/// `CpuListIter::next` calls give them: each is what a search from where the last one left off
/// finds, and the search after the last one ends at `num_cpus`.
pub open spec fn is_walk(l: CpuList, k: int, ids: Seq<int>) -> bool {
    &&& forall|i: int|
        #![trigger ids[i]]
        0 <= i < ids.len() ==> l.is_next_set(walk_start(k, ids, i), ids[i]) && ids[i]
            != l.spec_num_cpus()
    &&& l.is_next_set(walk_start(k, ids, ids.len() as int), l.spec_num_cpus())
}

/// The first `m` steps of a walk are increasing, listed, at or after `k`, and visit every
/// listed CPU from `k` up to where step `m` starts.
proof fn lemma_walk_prefix(l: CpuList, k: int, ids: Seq<int>, m: int)
    requires
        0 <= k,
        0 <= m <= ids.len(),
        forall|c: int| l.has(c) ==> c < l.spec_num_cpus(),
        is_walk(l, k, ids),
    ensures
        k <= walk_start(k, ids, m),
        forall|i: int| 0 <= i < m ==> k <= #[trigger] ids[i] < walk_start(k, ids, m) && l.has(ids[i]),
        forall|i: int, j: int| 0 <= i < j < m ==> ids[i] < ids[j],
        forall|c: int|
            k <= c < walk_start(k, ids, m) && #[trigger] l.has(c) ==> exists|i: int|
                0 <= i < m && ids[i] == c,
    decreases m,
{
    if m > 0 {
        let p = m - 1;
        lemma_walk_prefix(l, k, ids, p);
        let s = walk_start(k, ids, p);
        assert(l.is_next_set(s, ids[p]) && ids[p] != l.spec_num_cpus());
        assert(exists|q: int| s <= q < 64 * l.spec_map_size() && #[trigger] l.has(q));
        assert(walk_start(k, ids, m) == ids[p] + 1);
        assert forall|c: int| k <= c < walk_start(k, ids, m) && #[trigger] l.has(c) implies exists|i: int|
            0 <= i < m && ids[i] == c by {
            if c >= s {
                assert(c == ids[p]);
            } else {
                let i = choose|i: int| 0 <= i < p && ids[i] == c;
                assert(0 <= i < m && ids[i] == c);
            }
        }
    }
}

/// A walk from `k` over a list whose CPUs all lie below its CPU count visits each listed CPU
/// from `k` on exactly once, in increasing order.
pub proof fn law_walk_sorted_and_complete(l: CpuList, k: int, ids: Seq<int>)
    requires
        0 <= k,
        0 <= l.spec_num_cpus() <= 64 * l.spec_map_size(),
        forall|c: int| l.has(c) ==> c < l.spec_num_cpus(),
        is_walk(l, k, ids),
    ensures
        forall|i: int, j: int| 0 <= i < j < ids.len() ==> ids[i] < ids[j],
        forall|c: int| ids.contains(c) <==> (k <= c && l.has(c)),
{
    let n = ids.len() as int;
    lemma_walk_prefix(l, k, ids, n);
    let s = walk_start(k, ids, n);
    assert(!l.has(l.spec_num_cpus()));
    assert forall|c: int| ids.contains(c) <==> (k <= c && l.has(c)) by {
        if ids.contains(c) {
            let i = choose|i: int| 0 <= i < n && ids[i] == c;
            assert(k <= ids[i] && l.has(ids[i]));
        }
        if k <= c && l.has(c) {
            if c >= s {
                assert(s <= c < 64 * l.spec_map_size());
                assert(false);
            }
            let i = choose|i: int| 0 <= i < n && ids[i] == c;
        }
    }
}

#[verifier::external_type_specification]
#[verifier::external_body]
pub struct ExCpuSet(CpuSet);

#[verifier::external_type_specification]
#[verifier::external_body]
pub struct ExErrno(Errno);

/// The CPUs a `nix` CPU set holds.
pub uninterp spec fn cpu_set_members(set: CpuSet) -> Set<usize>;

/// An empty CPU set (`CpuSet::new`).
#[verifier::external_body]
fn cpu_set_new() -> (set: CpuSet)
    ensures
        cpu_set_members(set) == Set::<usize>::empty(),
{
    CpuSet::new()
}

/// Adds `cpu` to `set` (`CpuSet::set`): a set holds the CPUs below `8 * size_of::<cpu_set_t>()`,
/// 1024 on Linux; for a larger id an error comes back and the set is unchanged.
#[verifier::external_body]
fn cpu_set_add(set: &mut CpuSet, cpu: usize) -> (res: Result<(), Errno>)
    ensures
        cpu < 1024 ==> res is Ok && cpu_set_members(*final(set)) == cpu_set_members(*old(set)).insert(
            cpu,
        ),
        cpu >= 1024 ==> res is Err && cpu_set_members(*final(set)) == cpu_set_members(*old(set)),
{
    set.set(cpu)
}

impl CpuList {
    /// A list for `num_cpus` CPUs holding the CPUs `i` with `cpus[i]`, as read from a
    /// `cpu_set_t`.
    pub fn from_cpuset(num_cpus: i32, cpus: &Vec<bool>) -> (res: Self)
        requires
            num_cpus <= i32::MAX - 64,
            cpus.len() <= i32::MAX,
            forall|i: int| 0 <= i < cpus.len() && #[trigger] cpus@[i] ==> i < 512,
        ensures
            res.spec_num_cpus() == num_cpus,
            res.spec_map_size() == trunc_div64(num_cpus + 63),
            forall|id: int| res.has(id) <==> 0 <= id < cpus.len() && cpus@[id],
    {
        let mut cpu_list = CpuList::new(num_cpus);
        let mut cpu: usize = 0;
        while cpu < cpus.len()
            invariant
                0 <= cpu <= cpus.len(),
                cpus.len() <= i32::MAX,
                forall|i: int| 0 <= i < cpus.len() && #[trigger] cpus@[i] ==> i < 512,
                cpu_list.spec_num_cpus() == num_cpus,
                cpu_list.spec_map_size() == trunc_div64(num_cpus + 63),
                forall|id: int| cpu_list.has(id) <==> 0 <= id < cpu && cpus@[id],
            decreases cpus.len() - cpu,
        {
            if cpus[cpu] {
                cpu_list.set(cpu as i32);
            }
            cpu = cpu + 1;
        }
        cpu_list
    }

    /// The listed CPUs a walk visits, as a `nix` CPU set.
    pub fn to_cpu_set(&self) -> (set: CpuSet)
        requires
            self.searchable(),
        ensures
            forall|c: usize| cpu_set_members(set).contains(c) <==> (self.has(c as int) && c
                < self.walk_bound()),
    {
        let cpus = self.cpus();
        let mut set = cpu_set_new();
        let mut i: usize = 0;
        while i < cpus.len()
            invariant
                0 <= i <= cpus.len(),
                forall|k: int|
                    0 <= k < cpus.len() ==> self.has(#[trigger] cpus@[k] as int) && 0 <= cpus@[k]
                        < self.walk_bound(),
                forall|c: usize|
                    cpu_set_members(set).contains(c) <==> exists|k: int|
                        0 <= k < i && #[trigger] cpus@[k] as usize == c,
            decreases cpus.len() - i,
        {
            let cpu = cpus[i];
            let _ = cpu_set_add(&mut set, cpu as usize);
            proof {
                assert forall|c: usize|
                    cpu_set_members(set).contains(c) <==> exists|k: int|
                        0 <= k < i + 1 && #[trigger] cpus@[k] as usize == c by {
                    if c == cpu as usize {
                        assert(cpus@[i as int] as usize == c);
                    }
                }
            }
            i = i + 1;
        }
        proof {
            assert forall|c: usize|
                cpu_set_members(set).contains(c) <==> (self.has(c as int) && c < self.walk_bound()) by {
                if self.has(c as int) && c < self.walk_bound() {
                    assert(cpus@.contains(c as i32));
                    let k = choose|k: int| 0 <= k < cpus.len() && cpus@[k] == c as i32;
                    assert(cpus@[k] as usize == c);
                }
            }
        }
        set
    }
}

/// A CPU.
pub struct Cpu {}

/// What is known of a CPU: the CPUs sharing its core, those sharing its L3 cache, and its
/// NUMA node.
#[derive(Clone, Copy, Debug)]
pub struct CpuRep {
    siblings: CpuList,
    l3_siblings: CpuList,
    numa_node: usize,
}

impl CpuRep {
    pub closed spec fn spec_siblings(self) -> CpuList {
        self.siblings
    }

    pub closed spec fn spec_l3_siblings(self) -> CpuList {
        self.l3_siblings
    }

    pub closed spec fn spec_numa_node(self) -> usize {
        self.numa_node
    }
}

/// The CPUs of the machine and how they share cores, caches and NUMA nodes.
pub struct Topology {
    pub num_cpus: usize,
    pub all_cpus: CpuList,
    pub cpus: Vec<CpuRep>,
    pub highest_node_idx: usize,
    pub cpus_on_node: Vec<CpuList>,
}

/// For each CPU `i` whose sibling list `lines[i]` was read, the CPUs with the same sibling
/// list.
pub fn get_all_siblings(lines: &Vec<String>, num_cpus: i32) -> (res: Vec<CpuList>)
    requires
        lines.len() <= 512,
        num_cpus <= i32::MAX - 64,
    ensures
        res.len() == lines.len(),
        forall|i: int|
            0 <= i < res.len() ==> {
                &&& #[trigger] res@[i].spec_num_cpus() == num_cpus
                &&& res@[i].spec_map_size() == trunc_div64(num_cpus + 63)
                &&& forall|j: int| res@[i].has(j) <==> 0 <= j < lines.len() && lines@[j]@ == lines@[i]@
            },
        forall|i: int, j: int|
            0 <= i < res.len() && 0 <= j < res.len() ==> (res@[i] == res@[j] <==> lines@[i]@
                == lines@[j]@),
{
    let mut res: Vec<CpuList> = Vec::new();
    let mut i: usize = 0;
    while i < lines.len()
        invariant
            0 <= i <= lines.len(),
            lines.len() <= 512,
            num_cpus <= i32::MAX - 64,
            res.len() == i,
            forall|k: int|
                0 <= k < i ==> {
                    &&& #[trigger] res@[k].spec_num_cpus() == num_cpus
                    &&& res@[k].spec_map_size() == trunc_div64(num_cpus + 63)
                    &&& forall|j: int| res@[k].has(j) <==> 0 <= j < lines.len() && lines@[j]@ == lines@[k]@
                },
        decreases lines.len() - i,
    {
        let mut group: Vec<i32> = Vec::new();
        let mut j: usize = 0;
        while j < lines.len()
            invariant
                0 <= j <= lines.len(),
                lines.len() <= 512,
                i < lines.len(),
                forall|k: int| 0 <= k < group.len() ==> 0 <= #[trigger] group@[k] < 512,
                forall|c: i32| group@.contains(c) <==> 0 <= c < j && lines@[c as int]@ == lines@[i as int]@,
            decreases lines.len() - j,
        {
            let ghost g0 = group@;
            let same = lines[j] == lines[i];
            if same {
                group.push(j as i32);
            }
            proof {
                assert forall|c: i32| group@.contains(c) <==> 0 <= c < j + 1 && lines@[c as int]@
                    == lines@[i as int]@ by {
                    if g0.contains(c) {
                        let k = choose|k: int| 0 <= k < g0.len() && g0[k] == c;
                        assert(group@[k] == c);
                    }
                    if group@.contains(c) && !g0.contains(c) {
                        let k = choose|k: int| 0 <= k < group.len() && group@[k] == c;
                        if k < g0.len() {
                            assert(g0[k] == c);
                        }
                        assert(same && c == j as i32);
                    }
                    if c == j as i32 && same {
                        assert(group@[group.len() - 1] == c);
                    }
                }
            }
            j = j + 1;
        }
        let cpu_list = CpuList::from_vec(num_cpus, &group);
        proof {
            assert forall|c: int| cpu_list.has(c) <==> 0 <= c < lines.len() && lines@[c]@ == lines@[i as int]@ by {
                if 0 <= c < lines.len() && lines@[c]@ == lines@[i as int]@ {
                    assert(group@.contains(c as i32));
                }
            }
        }
        res.push(cpu_list);
        i = i + 1;
    }
    proof {
        assert forall|i: int, j: int|
            0 <= i < res.len() && 0 <= j < res.len() implies (res@[i] == res@[j] <==> lines@[i]@
                == lines@[j]@) by {
            assert(res@[i].spec_num_cpus() == num_cpus);
            assert(res@[j].spec_num_cpus() == num_cpus);
            if lines@[i]@ == lines@[j]@ {
                assert forall|k: int| res@[i].has(k) == res@[j].has(k) by {}
                CpuList::lemma_same_cpus_equal(res@[i], res@[j]);
            }
            if res@[i] == res@[j] {
                assert(res@[i].has(i));
            }
        }
    }
    res
}

impl Topology {
    /// Whether the per-CPU facts hang together for the first `num_cpus` CPUs (see
    /// `cpu_consistent`).
    pub open spec fn consistent(
        num_cpus: int,
        siblings: Seq<CpuList>,
        l3_siblings: Seq<CpuList>,
        numa_nodes: Seq<usize>,
        highest: usize,
    ) -> bool {
        forall|c: int|
            0 <= c < num_cpus ==> #[trigger] Self::cpu_consistent(
                c,
                num_cpus,
                siblings,
                l3_siblings,
                numa_nodes,
                highest,
            )
    }

    /// The topology of `num_cpus` CPUs from what was read of each CPU: its core siblings, its
    /// cache siblings and its NUMA node, and from the highest NUMA node; `None` when those do
    /// not hang together (see `consistent`).
    pub fn from_parts(
        num_cpus: i32,
        siblings: &Vec<CpuList>,
        l3_siblings: &Vec<CpuList>,
        numa_nodes: &Vec<usize>,
        highest_node_idx: usize,
    ) -> (res: Option<Topology>)
        requires
            0 <= num_cpus <= 512,
            siblings.len() >= num_cpus,
            l3_siblings.len() >= num_cpus,
            numa_nodes.len() >= num_cpus,
            forall|i: int| 0 <= i < num_cpus ==> (#[trigger] siblings@[i]).searchable(),
            forall|i: int| 0 <= i < num_cpus ==> (#[trigger] l3_siblings@[i]).searchable(),
            highest_node_idx < usize::MAX,
        ensures
            res is Some <==> Self::consistent(
                num_cpus as int,
                siblings@,
                l3_siblings@,
                numa_nodes@,
                highest_node_idx,
            ),
            res matches Some(t) ==> {
                &&& t.num_cpus == num_cpus
                &&& t.all_cpus.spec_num_cpus() == num_cpus
                &&& t.all_cpus.spec_map_size() == trunc_div64(num_cpus + 63)
                &&& forall|c: int| t.all_cpus.has(c) <==> 0 <= c < num_cpus
                &&& t.cpus.len() == num_cpus
                &&& forall|c: int|
                    0 <= c < num_cpus ==> {
                        &&& (#[trigger] t.cpus@[c]).spec_siblings() == siblings@[c]
                        &&& t.cpus@[c].spec_l3_siblings() == l3_siblings@[c]
                        &&& t.cpus@[c].spec_numa_node() == numa_nodes@[c]
                    }
                &&& t.highest_node_idx == highest_node_idx
                &&& t.cpus_on_node.len() == highest_node_idx + 1
                &&& forall|n: int|
                    0 <= n <= highest_node_idx ==> (#[trigger] t.cpus_on_node@[n]).spec_num_cpus()
                        == num_cpus && t.cpus_on_node@[n].spec_map_size() == trunc_div64(num_cpus + 63)
                &&& forall|n: int, c: int|
                    0 <= n <= highest_node_idx ==> (#[trigger] t.cpus_on_node@[n].has(c) <==> 0 <= c
                        < num_cpus && numa_nodes@[c] == n)
            },
    {
        let mut cpus: Vec<CpuRep> = Vec::new();
        let mut i: i32 = 0;
        while i < num_cpus
            invariant
                0 <= i <= num_cpus <= 512,
                siblings.len() >= num_cpus,
                l3_siblings.len() >= num_cpus,
                numa_nodes.len() >= num_cpus,
                cpus.len() == i,
                forall|c: int|
                    0 <= c < i ==> {
                        &&& (#[trigger] cpus@[c]).siblings == siblings@[c]
                        &&& cpus@[c].l3_siblings == l3_siblings@[c]
                        &&& cpus@[c].numa_node == numa_nodes@[c]
                    },
            decreases num_cpus - i,
        {
            let k = i as usize;
            cpus.push(
                CpuRep { siblings: siblings[k], l3_siblings: l3_siblings[k], numa_node: numa_nodes[k] },
            );
            i = i + 1;
        }
        let mut ids: Vec<i32> = Vec::new();
        let mut j: i32 = 0;
        while j < num_cpus
            invariant
                0 <= j <= num_cpus <= 512,
                ids.len() == j,
                forall|k: int| 0 <= k < j ==> #[trigger] ids@[k] == k,
            decreases num_cpus - j,
        {
            ids.push(j);
            j = j + 1;
        }
        let all_cpus = CpuList::from_vec(num_cpus, &ids);
        proof {
            assert forall|c: int| all_cpus.has(c) <==> 0 <= c < num_cpus by {
                if 0 <= c < num_cpus {
                    assert(ids@[c] == c as i32);
                    assert(ids@.contains(c as i32));
                }
                if all_cpus.has(c) {
                    let k = choose|k: int| 0 <= k < ids.len() && ids@[k] == c as i32;
                }
            }
            assert(all_cpus.searchable());
        }
        let order = all_cpus.cpus();
        proof {
            assert(!all_cpus.has(num_cpus as int));
            assert(all_cpus.walk_bound() == 64 * all_cpus.spec_map_size());
            assert forall|c: i32| 0 <= c < num_cpus implies order@.contains(c) by {
                assert(all_cpus.has(c as int));
                assert(c < 64 * all_cpus.spec_map_size());
            }
        }
        let mut k: usize = 0;
        while k < order.len()
            invariant
                0 <= k <= order.len(),
                num_cpus <= 512,
                cpus.len() == num_cpus,
                siblings.len() >= num_cpus,
                l3_siblings.len() >= num_cpus,
                numa_nodes.len() >= num_cpus,
                forall|i: int| 0 <= i < num_cpus ==> (#[trigger] siblings@[i]).searchable(),
                forall|i: int| 0 <= i < num_cpus ==> (#[trigger] l3_siblings@[i]).searchable(),
                forall|c: int|
                    0 <= c < num_cpus ==> {
                        &&& (#[trigger] cpus@[c]).siblings == siblings@[c]
                        &&& cpus@[c].l3_siblings == l3_siblings@[c]
                        &&& cpus@[c].numa_node == numa_nodes@[c]
                    },
                forall|q: int| 0 <= q < order.len() ==> 0 <= #[trigger] order@[q] < num_cpus,
                forall|c: i32| 0 <= c < num_cpus ==> order@.contains(c),
                forall|q: int|
                    0 <= q < k ==> Self::cpu_consistent(
                        #[trigger] order@[q] as int,
                        num_cpus as int,
                        siblings@,
                        l3_siblings@,
                        numa_nodes@,
                        highest_node_idx,
                    ),
            decreases order.len() - k,
        {
            let c = order[k];
            let cu = c as usize;
            proof {
                assert(cpus@[cu as int].siblings == siblings@[cu as int]);
                assert(cpus@[cu as int].l3_siblings == l3_siblings@[cu as int]);
                assert(cpus@[cu as int].numa_node == numa_nodes@[cu as int]);
                assert(forall|i: int| 0 <= i < num_cpus ==> #[trigger] cpus@[i].siblings == siblings@[i] && cpus@[i].l3_siblings == l3_siblings@[i]);
                if !Self::cpu_consistent(c as int, num_cpus as int, siblings@, l3_siblings@, numa_nodes@, highest_node_idx) {
                    assert(!Self::consistent(num_cpus as int, siblings@, l3_siblings@, numa_nodes@, highest_node_idx));
                }
            }
            if !cpus[cu].siblings.is_set(c) {
                return None;
            }
            if !Self::same_lists(&cpus, cu, true, num_cpus) {
                proof {
                    let bad = choose|s: int| !(cpus@[c as int].siblings.has(s) && s < cpus@[c as int].siblings.walk_bound() ==> 0 <= s
                        < num_cpus && cpus@[s].siblings == cpus@[c as int].siblings);
                    assert(cpus@[c as int].siblings == siblings@[c as int]);
                    assert(siblings@[c as int].has(bad) && bad < siblings@[c as int].walk_bound());
                    if 0 <= bad < num_cpus {
                        assert(cpus@[bad].siblings == siblings@[bad]);
                        assert(siblings@[bad] != siblings@[c as int]);
                    }
                    assert(!Self::cpu_consistent(c as int, num_cpus as int, siblings@, l3_siblings@, numa_nodes@, highest_node_idx));
                }
                return None;
            }
            if !Self::same_lists(&cpus, cu, false, num_cpus) {
                proof {
                    let bad = choose|s: int| !(cpus@[c as int].l3_siblings.has(s) && s < cpus@[c as int].l3_siblings.walk_bound() ==> 0 <= s
                        < num_cpus && cpus@[s].l3_siblings == cpus@[c as int].l3_siblings);
                    assert(cpus@[c as int].l3_siblings == l3_siblings@[c as int]);
                    assert(l3_siblings@[c as int].has(bad) && bad < l3_siblings@[c as int].walk_bound());
                    if 0 <= bad < num_cpus {
                        assert(cpus@[bad].l3_siblings == l3_siblings@[bad]);
                        assert(l3_siblings@[bad] != l3_siblings@[c as int]);
                    }
                    assert(!Self::cpu_consistent(c as int, num_cpus as int, siblings@, l3_siblings@, numa_nodes@, highest_node_idx));
                }
                return None;
            }
            if cpus[cu].numa_node > highest_node_idx {
                return None;
            }
            k = k + 1;
        }
        proof {
            assert forall|c: int| 0 <= c < num_cpus implies Self::cpu_consistent(
                c,
                num_cpus as int,
                siblings@,
                l3_siblings@,
                numa_nodes@,
                highest_node_idx,
            ) by {
                let ci = c as i32;
                assert(order@.contains(ci));
                let q = choose|q: int| 0 <= q < order.len() && order@[q] == ci;
                assert(Self::cpu_consistent(order@[q] as int, num_cpus as int, siblings@, l3_siblings@, numa_nodes@, highest_node_idx));
            }
        }
        proof {
            assert forall|c: int| 0 <= c < num_cpus implies #[trigger] numa_nodes@[c] <= highest_node_idx by {
                assert(Self::cpu_consistent(c, num_cpus as int, siblings@, l3_siblings@, numa_nodes@, highest_node_idx));
            }
        }
        let mut cpus_on_node: Vec<CpuList> = Vec::new();
        let mut n: usize = 0;
        while n <= highest_node_idx
            invariant
                0 <= n <= highest_node_idx + 1,
                highest_node_idx < usize::MAX,
                num_cpus <= 512,
                cpus_on_node.len() == n,
                forall|m: int|
                    0 <= m < n ==> {
                        &&& (#[trigger] cpus_on_node@[m]).spec_num_cpus() == num_cpus
                        &&& cpus_on_node@[m].spec_map_size() == trunc_div64(num_cpus + 63)
                        &&& forall|c: int| !cpus_on_node@[m].has(c)
                    },
            decreases highest_node_idx + 1 - n,
        {
            cpus_on_node.push(CpuList::new(num_cpus));
            n = n + 1;
        }
        let mut q: usize = 0;
        while q < order.len()
            invariant
                0 <= q <= order.len(),
                num_cpus <= 512,
                cpus.len() == num_cpus,
                numa_nodes.len() >= num_cpus,
                cpus_on_node.len() == highest_node_idx + 1,
                forall|c: int| 0 <= c < num_cpus ==> (#[trigger] cpus@[c]).numa_node == numa_nodes@[c],
                forall|c: int| 0 <= c < num_cpus ==> #[trigger] numa_nodes@[c] <= highest_node_idx,
                forall|p: int| 0 <= p < order.len() ==> 0 <= #[trigger] order@[p] < num_cpus,
                forall|a: int, b: int| 0 <= a < b < order.len() ==> order@[a] < order@[b],
                forall|m: int, c: int|
                    0 <= m <= highest_node_idx ==> (#[trigger] cpus_on_node@[m].has(c) <==> exists|p: int|
                        0 <= p < q && order@[p] == c && numa_nodes@[c] == m),
                forall|m: int|
                    0 <= m <= highest_node_idx ==> (#[trigger] cpus_on_node@[m]).spec_num_cpus()
                        == num_cpus && cpus_on_node@[m].spec_map_size() == trunc_div64(num_cpus + 63),
            decreases order.len() - q,
        {
            let cpu = order[q];
            let node = cpus[cpu as usize].numa_node;
            let mut list = cpus_on_node[node];
            list.set(cpu);
            cpus_on_node.set(node, list);
            q = q + 1;
        }
        proof {
            assert forall|m: int, c: int|
                0 <= m <= highest_node_idx implies (#[trigger] cpus_on_node@[m].has(c) <==> 0 <= c
                < num_cpus && numa_nodes@[c] == m) by {
                if 0 <= c < num_cpus && numa_nodes@[c] == m {
                    let ci = c as i32;
                    assert(order@.contains(ci));
                    let p = choose|p: int| 0 <= p < order.len() && order@[p] == ci;
                    assert(order@[p] == c);
                }
            }
        }
        Some(
            Topology {
                num_cpus: num_cpus as usize,
                all_cpus,
                cpus,
                highest_node_idx,
                cpus_on_node,
            },
        )
    }

    /// The checks `from_parts` makes of CPU `c`: it is among its own core siblings, every CPU
    /// a walk over its core or cache sibling list visits is a known CPU with the same list,
    /// and its NUMA node is at most `highest`.
    pub open spec fn cpu_consistent(
        c: int,
        num_cpus: int,
        siblings: Seq<CpuList>,
        l3_siblings: Seq<CpuList>,
        numa_nodes: Seq<usize>,
        highest: usize,
    ) -> bool {
        &&& siblings[c].has(c)
        &&& forall|s: int|
            #[trigger] siblings[c].has(s) && s < siblings[c].walk_bound() ==> 0 <= s < num_cpus
                && siblings[s] == siblings[c]
        &&& forall|s: int|
            #[trigger] l3_siblings[c].has(s) && s < l3_siblings[c].walk_bound() ==> 0 <= s
                < num_cpus && l3_siblings[s] == l3_siblings[c]
        &&& numa_nodes[c] <= highest
    }

    /// Whether every CPU a walk over CPU `c`'s core (`core`) or cache sibling list visits is a
    /// known CPU with the same list.
    fn same_lists(cpus: &Vec<CpuRep>, c: usize, core: bool, num_cpus: i32) -> (res: bool)
        requires
            c < cpus.len(),
            cpus.len() == num_cpus,
            forall|i: int| 0 <= i < cpus.len() ==> (#[trigger] cpus@[i]).siblings.searchable(),
            forall|i: int| 0 <= i < cpus.len() ==> (#[trigger] cpus@[i]).l3_siblings.searchable(),
        ensures
            core ==> (res <==> forall|s: int|
                cpus@[c as int].siblings.has(s) && s < cpus@[c as int].siblings.walk_bound() ==> 0 <= s
                    < num_cpus && cpus@[s].siblings == cpus@[c as int].siblings),
            !core ==> (res <==> forall|s: int|
                cpus@[c as int].l3_siblings.has(s) && s < cpus@[c as int].l3_siblings.walk_bound() ==> 0
                    <= s < num_cpus && cpus@[s].l3_siblings == cpus@[c as int].l3_siblings),
    {
        let list = if core {
            cpus[c].siblings
        } else {
            cpus[c].l3_siblings
        };
        let members = list.cpus();
        let mut i: usize = 0;
        while i < members.len()
            invariant
                0 <= i <= members.len(),
                c < cpus.len(),
                cpus.len() == num_cpus,
                list == if core { cpus@[c as int].siblings } else { cpus@[c as int].l3_siblings },
                forall|k: int|
                    0 <= k < members.len() ==> list.has(#[trigger] members@[k] as int) && 0 <= members@[k]
                        < list.walk_bound(),
                forall|p: int| 0 <= p < list.walk_bound() && list.has(p) ==> members@.contains(p as i32),
                forall|k: int|
                    0 <= k < i ==> 0 <= #[trigger] members@[k] < num_cpus && (if core {
                        cpus@[members@[k] as int].siblings
                    } else {
                        cpus@[members@[k] as int].l3_siblings
                    }) == list,
            decreases members.len() - i,
        {
            let s = members[i];
            if s >= num_cpus {
                return false;
            }
            let other = if core {
                cpus[s as usize].siblings
            } else {
                cpus[s as usize].l3_siblings
            };
            let same = other == list;
            proof {
                CpuList::lemma_eq_spec(other, list);
            }
            if !same {
                return false;
            }
            i = i + 1;
        }
        proof {
            assert forall|s: int| list.has(s) && s < list.walk_bound() implies 0 <= s < num_cpus && (if core {
                cpus@[s].siblings
            } else {
                cpus@[s].l3_siblings
            }) == list by {
                assert(0 <= s);
                assert(members@.contains(s as i32));
                let k = choose|k: int| 0 <= k < members.len() && members@[k] == s as i32;
            }
        }
        true
    }
}

#[verifier::external_type_specification]
#[verifier::external_body]
pub struct ExRegex(Regex);

/// Whether `pattern` is a regular expression that compiles.
pub uninterp spec fn regex_compiles(pattern: Seq<char>) -> bool;

/// The pieces of `text` between the matches of the regular expression `pattern`.
pub uninterp spec fn regex_split(pattern: Seq<char>, text: Seq<char>) -> Seq<Seq<char>>;

/// A compiled regular expression with the pattern it was compiled from.
pub struct Separator {
    re: Regex,
    pattern: Ghost<Seq<char>>,
}

/// Compiles `pattern` (`Regex::new`); `None` exactly when it does not compile. The class
/// `[,-]` (a comma or a dash, the dash being literal at the end of a class) compiles.
#[verifier::external_body]
fn compile_separator(pattern: &str) -> (res: Option<Separator>)
    ensures
        res is Some <==> regex_compiles(pattern@),
        res matches Some(sep) ==> sep.pattern@ == pattern@,
        pattern@ == node_separator() ==> res is Some,
{
    match Regex::new(pattern) {
        Ok(re) => Some(Separator { re, pattern: Ghost(pattern@) }),
        Err(_) => None,
    }
}

/// The pieces of `text` between the separator's matches (`Regex::split`). For the class
/// `[,-]`, which matches one comma or dash at a time, these are the pieces between the commas
/// and dashes, as the documentation's examples show for a one-character pattern: an empty
/// piece next to a separator at either end or between two separators, and one empty piece for
/// an empty text.
#[verifier::external_body]
fn split_text(sep: &Separator, text: &str) -> (res: Vec<String>)
    ensures
        res@.map_values(|p: String| p@) == regex_split(sep.pattern@, text@),
        sep.pattern@ == node_separator() ==> res@.map_values(|p: String| p@) == cut_at_node_separators(
            text@,
        ),
{
    sep.re.split(text).map(|p| p.to_string()).collect()
}

/// `text` cut at every comma and dash: the pieces between them, in order, with an empty piece
/// next to a separator at either end or between two separators, and one empty piece for an
/// empty text.
pub open spec fn cut_at_node_separators(text: Seq<char>) -> Seq<Seq<char>>
    decreases text.len(),
{
    if text.len() == 0 {
        seq![Seq::<char>::empty()]
    } else {
        let prev = cut_at_node_separators(text.drop_last());
        let c = text.last();
        if c == ',' || c == '-' {
            prev.push(Seq::<char>::empty())
        } else {
            prev.update(prev.len() - 1, prev.last().push(c))
        }
    }
}

/// The pattern that separates the entries of a node list such as `0-3,8`.
pub open spec fn node_separator() -> Seq<char> {
    seq!['[', ',', '-', ']']
}

/// The largest node number among `pieces`, each parsed after trimming, and at least 0;
/// `None` if a piece does not parse.
pub open spec fn highest_of(pieces: Seq<Seq<char>>) -> Option<usize>
    decreases pieces.len(),
{
    if pieces.len() == 0 {
        Some(0)
    } else {
        match (highest_of(pieces.drop_last()), parsed_int(trimmed(pieces.last()), 0, usize::MAX as int)) {
            (Some(h), Some(v)) => Some(if v > h { v as usize } else { h }),
            _ => None,
        }
    }
}

/// The highest NUMA node of a node list such as `0-3,8` (the contents of
/// `/sys/devices/system/node/possible`): the largest number among its pieces between commas
/// and dashes; `None` if a piece is not a number.
pub fn get_highest_node_idx(line: &str) -> (res: Option<usize>)
    ensures
        res == highest_of(cut_at_node_separators(line@)),
{
    let sep = match compile_separator("[,-]") {
        Some(sep) => sep,
        None => {
            proof {
                reveal_strlit("[,-]");
                assert("[,-]"@ =~= node_separator());
            }
            return None;
        },
    };
    proof {
        reveal_strlit("[,-]");
        assert(sep.pattern@ =~= node_separator());
    }
    let pieces = split_text(&sep, line);
    highest_node_in(&pieces)
}

/// The largest node number among the entries `pieces` of a node list, each parsed after
/// trimming, and at least 0; `None` if an entry is not a number.
pub fn highest_node_in(pieces: &Vec<String>) -> (res: Option<usize>)
    ensures
        res == highest_of(pieces@.map_values(|p: String| p@)),
{
    let ghost views = pieces@.map_values(|p: String| p@);
    let mut highest_idx: usize = 0;
    let mut i: usize = 0;
    while i < pieces.len()
        invariant
            0 <= i <= pieces.len(),
            views == pieces@.map_values(|p: String| p@),
            highest_of(views.take(i as int)) == Some(highest_idx),
        decreases pieces.len() - i,
    {
        proof {
            assert(views.take(i + 1).drop_last() =~= views.take(i as int));
            assert(views.take(i + 1).last() == pieces@[i as int]@);
        }
        let piece = trim(pieces[i].as_str());
        match parse_usize(piece) {
            Some(v) => {
                if v > highest_idx {
                    highest_idx = v;
                }
            },
            None => {
                proof {
                    assert(views.take(i + 1).drop_last() =~= views.take(i as int));
                    lemma_highest_of_none(views, i as int);
                    assert(views.take(views.len() as int) =~= views);
                }
                return None;
            },
        }
        i = i + 1;
    }
    proof {
        assert(views.take(pieces.len() as int) =~= views);
    }
    Some(highest_idx)
}

/// A piece that does not parse makes every longer prefix fail too.
proof fn lemma_highest_of_none(views: Seq<Seq<char>>, i: int)
    requires
        0 <= i < views.len(),
        parsed_int(trimmed(views[i]), 0, usize::MAX as int) is None,
    ensures
        forall|n: int| i < n <= views.len() ==> highest_of(#[trigger] views.take(n)) is None,
    decreases views.len() - i,
{
    assert forall|n: int| i < n <= views.len() implies highest_of(#[trigger] views.take(n)) is None by {
        lemma_highest_of_prefix(views, i, n);
    }
}

proof fn lemma_highest_of_prefix(views: Seq<Seq<char>>, i: int, n: int)
    requires
        0 <= i < n <= views.len(),
        parsed_int(trimmed(views[i]), 0, usize::MAX as int) is None,
    ensures
        highest_of(views.take(n)) is None,
    decreases n - i,
{
    assert(views.take(n).drop_last() =~= views.take(n - 1));
    if n - 1 > i {
        lemma_highest_of_prefix(views, i, n - 1);
    } else {
        assert(views.take(n).last() == views[i]);
    }
}

} // verus!

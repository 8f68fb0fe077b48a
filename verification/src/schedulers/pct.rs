use crate::gtid::{position_of, Gtid};
use crate::schedulers::Scheduler;
use rand::rngs::ThreadRng;
use rand::seq::SliceRandom;
use rand::RngCore;
use std::collections::HashSet;
use vstd::prelude::*;

verus! {

#[verifier::external_type_specification]
#[verifier::external_body]
pub struct ExThreadRng(ThreadRng);

/// The thread-local generator (`rand::thread_rng`). Nothing is stated of its state.
#[verifier::external_body]
fn thread_rng() -> ThreadRng {
    rand::thread_rng()
}

/// A fresh random value (`RngCore::next_u32`). Any `u32` may come back.
#[verifier::external_body]
fn next_u32(rng: &mut ThreadRng) -> u32 {
    rng.next_u32()
}

/// Permutes `v` at random (`SliceRandom::shuffle`, a Fisher-Yates shuffle made of swaps): the
/// same values come back, in an order that is not stated.
#[verifier::external_body]
fn shuffle(v: &mut Vec<usize>, rng: &mut ThreadRng)
    ensures
        final(v)@.to_multiset() == old(v)@.to_multiset(),
{
    v.shuffle(rng);
}

/// The tasks of `runnable` that `order` does not hold yet, in their order in `runnable`.
pub open spec fn new_tasks(order: Seq<Gtid>, runnable: Seq<Gtid>) -> Seq<Gtid> {
    runnable.filter(|g: Gtid| !order.contains(g))
}

/// `n` is the first step after `steps` that is not a change point of `cp`.
pub open spec fn next_free_step(cp: Set<usize>, steps: usize, n: usize) -> bool {
    &&& n > steps
    &&& !cp.contains(n)
    &&& forall|k: usize| steps < k < n ==> cp.contains(k)
}

/// `s` holds the tasks of `keep` in their order in `keep`: leaving out of `s` what `keep` does
/// not hold gives `keep` back.
pub open spec fn keeps_order(keep: Seq<Gtid>, s: Seq<Gtid>) -> bool {
    s.filter(|g: Gtid| keep.contains(g)) == keep
}

/// Filtering keeps a sequence whose elements all pass.
proof fn lemma_filter_all(s: Seq<Gtid>, p: spec_fn(Gtid) -> bool)
    requires
        forall|i: int| 0 <= i < s.len() ==> p(#[trigger] s[i]),
    ensures
        s.filter(p) == s,
    decreases s.len(),
{
    reveal_with_fuel(Seq::filter, 1);
    if s.len() > 0 {
        lemma_filter_all(s.drop_last(), p);
        assert(s.drop_last().push(s.last()) =~= s);
    }
}

/// Inserting an element that does not pass leaves the filtered sequence as it was.
proof fn lemma_filter_insert_failing(s: Seq<Gtid>, loc: int, x: Gtid, p: spec_fn(Gtid) -> bool)
    requires
        0 <= loc <= s.len(),
        !p(x),
    ensures
        s.insert(loc, x).filter(p) == s.filter(p),
{
    let a = s.take(loc);
    let b = s.skip(loc);
    assert(s.insert(loc, x) =~= a + (seq![x] + b));
    assert(s =~= a + b);
    b.lemma_filter_prepend(x, p);
    Seq::filter_distributes_over_add(a, seq![x] + b, p);
    Seq::filter_distributes_over_add(a, b, p);
}

/// `order` after inserting each task of `fresh` in turn, the `i`-th at position
/// `draws[i] % (len + 1)` of the sequence it goes into, `len` being that sequence's length.
pub open spec fn placed(order: Seq<Gtid>, fresh: Seq<Gtid>, draws: Seq<u32>) -> Seq<Gtid>
    decreases fresh.len(),
{
    if fresh.len() == 0 {
        order
    } else {
        let prev = placed(order, fresh.drop_last(), draws);
        prev.insert(draws[fresh.len() - 1] as int % (prev.len() + 1) as int, fresh.last())
    }
}

/// Placing tasks that `order` does not hold adds them to its multiset and keeps the order of
/// the tasks of `order`.
proof fn lemma_placed(order: Seq<Gtid>, fresh: Seq<Gtid>, draws: Seq<u32>)
    requires
        forall|i: int| 0 <= i < fresh.len() ==> !order.contains(#[trigger] fresh[i]),
    ensures
        placed(order, fresh, draws).len() == order.len() + fresh.len(),
        placed(order, fresh, draws).to_multiset() == order.to_multiset().add(fresh.to_multiset()),
        keeps_order(order, placed(order, fresh, draws)),
    decreases fresh.len(),
{
    broadcast use vstd::seq_lib::group_to_multiset_ensures;

    if fresh.len() == 0 {
        lemma_filter_all(order, |g: Gtid| order.contains(g));
        assert(fresh =~= Seq::<Gtid>::empty());
        assert(order.to_multiset().add(fresh.to_multiset()) =~= order.to_multiset());
    } else {
        let f0 = fresh.drop_last();
        let x = fresh.last();
        assert forall|i: int| 0 <= i < f0.len() implies !order.contains(#[trigger] f0[i]) by {
            assert(f0[i] == fresh[i]);
        }
        lemma_placed(order, f0, draws);
        let prev = placed(order, f0, draws);
        let loc = draws[fresh.len() - 1] as int % (prev.len() + 1) as int;
        assert(!order.contains(x)) by {
            assert(x == fresh[fresh.len() - 1]);
        }
        vstd::seq_lib::to_multiset_insert(prev, loc, x);
        lemma_filter_insert_failing(prev, loc, x, |g: Gtid| order.contains(g));
        assert(f0.push(x) =~= fresh);
        vstd::seq_lib::to_multiset_build(f0, x);
        assert(placed(order, fresh, draws).to_multiset() =~= order.to_multiset().add(
            fresh.to_multiset(),
        ));
    }
}

/// Inserts each task of `fresh` in turn into `priorities`, the `i`-th at position
/// `draws[i] % (len + 1)`, `len` being the length of `priorities` at that moment.
pub fn place_new_tasks(priorities: &mut Vec<Gtid>, fresh: &Vec<Gtid>, draws: &Vec<u32>)
    requires
        draws.len() == fresh.len(),
        old(priorities).len() + fresh.len() < usize::MAX,
    ensures
        final(priorities)@ == placed(old(priorities)@, fresh@, draws@),
{
    let mut j: usize = 0;
    while j < fresh.len()
        invariant
            0 <= j <= fresh.len(),
            draws.len() == fresh.len(),
            old(priorities).len() + fresh.len() < usize::MAX,
            priorities.len() == old(priorities).len() + j,
            priorities@ == placed(old(priorities)@, fresh@.take(j as int), draws@),
        decreases fresh.len() - j,
    {
        let loc = (draws[j] as usize) % (priorities.len() + 1);
        priorities.insert(loc, fresh[j]);
        proof {
            assert(fresh@.take(j + 1).drop_last() =~= fresh@.take(j as int));
            assert(fresh@.take(j + 1).last() == fresh@[j as int]);
        }
        j = j + 1;
    }
    proof {
        assert(fresh@.take(fresh.len() as int) =~= fresh@);
    }
}

/// A set holding every value of `a..b` has at least `b - a` elements.
proof fn lemma_holds_range(s: Set<usize>, a: int, b: int)
    requires
        s.finite(),
        0 <= a,
        b <= usize::MAX + 1,
        forall|k: usize| a <= k < b ==> s.contains(k),
    ensures
        b - a <= s.len(),
    decreases b - a,
{
    if a < b {
        let top = (b - 1) as usize;
        assert(s.contains(top));
        lemma_holds_range(s.remove(top), a, b - 1);
    }
}

/// Probabilistic concurrency testing: tasks get random priorities, the highest runnable
/// one runs, and at the change points the highest one is demoted to the lowest.
pub struct PctScheduler {
    max_depth: usize,
    priorities: Vec<Gtid>,
    change_points: HashSet<usize>,
    max_steps: usize,
    steps: usize,
    rand: ThreadRng,
}

impl PctScheduler {
    /// The number of change points of a run.
    pub closed spec fn depth(self) -> usize {
        self.max_depth
    }

    /// The tasks from the highest priority down.
    pub closed spec fn priority_order(self) -> Seq<Gtid> {
        self.priorities@
    }

    /// The steps at which the highest priority is demoted.
    pub closed spec fn change_point_set(self) -> Set<usize> {
        self.change_points@
    }

    /// The number of picks made in this run.
    pub closed spec fn step_count(self) -> usize {
        self.steps
    }

    /// The length of the longest run so far, at least `depth`.
    pub closed spec fn max_step_count(self) -> usize {
        self.max_steps
    }

    /// A pick among the non-empty `runnable` that takes the policy from `self` to `after` and
    /// gives `res`: the new runnable tasks are placed at drawn positions in the priority order,
    /// the top task is demoted at a change point (or, with one runnable task, the change point
    /// moves to the next free step), and the runnable task of highest priority is picked. With
    /// nothing runnable, nothing changes.
    pub open spec fn pick_step(self, after: Self, runnable: Seq<Gtid>, res: Option<Gtid>) -> bool {
        &&& runnable.len() == 0 ==> after == self
        &&& runnable.len() > 0 ==> {
            &&& after.depth() == self.depth()
            &&& after.max_step_count() == self.max_step_count()
            &&& after.step_count() == self.step_count() + 1
            &&& after.priority_order().to_multiset() == self.priority_order().to_multiset().add(
                new_tasks(self.priority_order(), runnable).to_multiset(),
            )
            &&& (self.change_point_set().contains(self.step_count())
                && runnable.len() == 1) ==> exists|n: usize|
                next_free_step(self.change_point_set(), self.step_count(), n)
                    && after.change_point_set() == self.change_point_set().remove(
                    self.step_count(),
                ).insert(n)
            &&& !(self.change_point_set().contains(self.step_count())
                && runnable.len() == 1) ==> after.change_point_set() == self.change_point_set()
            &&& exists|draws: Seq<u32>|
                #![trigger placed(
                    self.priority_order(),
                    new_tasks(self.priority_order(), runnable),
                    draws,
                )]
                {
                    let fresh = new_tasks(self.priority_order(), runnable);
                    let mid = placed(self.priority_order(), fresh, draws);
                    &&& draws.len() == fresh.len()
                    &&& mid.len() > 0
                    &&& keeps_order(self.priority_order(), mid)
                    &&& mid.to_multiset() == self.priority_order().to_multiset().add(
                        fresh.to_multiset(),
                    )
                    &&& after.priority_order() == if self.change_point_set().contains(
                        self.step_count(),
                    ) && runnable.len() > 1 {
                        mid.drop_first().push(mid[0])
                    } else {
                        mid
                    }
                }
            &&& exists|k: int|
                0 <= k < after.priority_order().len() && res == Some(
                    after.priority_order()[k],
                ) && forall|j: int|
                    0 <= j < k ==> !runnable.contains(
                        #[trigger] after.priority_order()[j],
                    )
        }
    }

    /// A policy with `max_depth` change points per run.
    pub fn new(max_depth: usize) -> (res: Self)
        ensures
            res.depth() == max_depth,
            res.priority_order() == Seq::<Gtid>::empty(),
            res.change_point_set() == Set::<usize>::empty(),
            res.step_count() == 0,
            res.max_step_count() == 0,
            res.inv(),
            forall|n: nat| max_depth + 1 < usize::MAX && n < usize::MAX ==> #[trigger] res.can_step(n),
    {
        Self {
            max_depth,
            rand: thread_rng(),
            priorities: Vec::new(),
            change_points: HashSet::new(),
            steps: 0,
            max_steps: 0,
        }
    }

    /// Moves the change point at the current step to the first later step that is not a
    /// change point yet.
    fn move_forward_switch_point(&mut self)
        requires
            old(self).change_points@.finite(),
            old(self).change_points@.contains(old(self).steps),
            old(self).change_points@.len() <= old(self).max_depth,
            old(self).steps + old(self).max_depth + 1 < usize::MAX,
        ensures
            final(self).steps == old(self).steps,
            final(self).max_depth == old(self).max_depth,
            final(self).max_steps == old(self).max_steps,
            final(self).priorities@ == old(self).priorities@,
            final(self).change_points@.finite(),
            final(self).change_points@.len() == old(self).change_points@.len(),
            exists|n: usize|
                next_free_step(old(self).change_points@, old(self).steps, n) && final(self).change_points@ == old(self).change_points@.remove(old(self).steps).insert(n),
    {
        broadcast use vstd::std_specs::hash::group_hash_axioms;

        let ghost cp0 = self.change_points@;
        self.change_points.remove(&self.steps);
        let mut new_step = self.steps + 1;
        while self.change_points.contains(&new_step)
            invariant
                cp0.finite(),
                self.change_points@ == cp0.remove(self.steps),
                cp0.len() <= self.max_depth,
                self.steps + self.max_depth + 1 < usize::MAX,
                self.steps < new_step,
                forall|k: usize| self.steps < k < new_step ==> cp0.contains(k),
            decreases cp0.len() - (new_step - self.steps - 1),
        {
            proof {
                lemma_holds_range(cp0.remove(self.steps), self.steps + 1, new_step + 1);
            }
            new_step = new_step + 1;
        }
        self.change_points.insert(new_step);
        proof {
            assert(next_free_step(cp0, self.steps, new_step));
        }
    }
}

impl Scheduler for PctScheduler {
    open spec fn inv(&self) -> bool {
        &&& self.change_point_set().finite()
        &&& self.change_point_set().len() <= self.depth()
    }

    open spec fn can_step(&self, runnable_len: nat) -> bool {
        &&& self.step_count() + self.depth() + 1 < usize::MAX
        &&& self.priority_order().len() + runnable_len < usize::MAX
    }

    open spec fn can_revert(&self) -> bool {
        true
    }

    open spec fn picks(self, after: Self, runnable: Seq<Gtid>, current: Option<Gtid>, res: (
        Option<Gtid>,
        bool,
    )) -> bool {
        self.pick_step(after, runnable, res.0)
    }

    /// The change points become the first `depth` steps, the priorities are forgotten and the
    /// longest run so far is remembered.
    open spec fn restarts(self, after: Self) -> bool {
        &&& after.depth() == self.depth()
        &&& after.max_step_count() == if self.step_count() > self.depth() {
            self.step_count()
        } else {
            self.depth()
        }
        &&& after.step_count() == 0
        &&& after.priority_order() == Seq::<Gtid>::empty()
        &&& after.change_point_set() == Set::new(|i: usize| i < self.depth())
    }

    open spec fn reverts(self, after: Self) -> bool {
        after == self
    }

    fn can_step_up_to(&self, runnable_len: usize) -> (res: bool) {
        let res = self.max_depth < usize::MAX - 1 && self.steps < usize::MAX - 1 - self.max_depth
            && runnable_len < usize::MAX - self.priorities.len();
        proof {
            if !res {
                assert(!self.can_step(runnable_len as nat));
            }
        }
        res
    }

    /// Starts a run: the change points become the first `depth` steps and all priorities
    /// are forgotten.
    fn new_execution(&mut self)
        ensures
            final(self).depth() == old(self).depth(),
            final(self).max_step_count() == if old(self).step_count() > old(self).depth() {
                old(self).step_count()
            } else {
                old(self).depth()
            },
            final(self).step_count() == 0,
            final(self).priority_order() == Seq::<Gtid>::empty(),
            final(self).change_point_set() == Set::new(|i: usize| i < old(self).depth()),
    {
        broadcast use vstd::std_specs::hash::group_hash_axioms;

        self.max_steps = if self.steps > self.max_depth {
            self.steps
        } else {
            self.max_depth
        };
        self.steps = 0;
        self.change_points.clear();
        self.priorities.clear();
        let mut res: Vec<usize> = Vec::new();
        let mut k: usize = 0;
        while k < self.max_steps
            invariant
                k <= self.max_steps,
                res@.len() == k,
                self.max_depth == old(self).max_depth,
                self.max_steps == if old(self).steps > old(self).max_depth {
                    old(self).steps
                } else {
                    old(self).max_depth
                },
                self.steps == 0,
                self.priorities@ == Seq::<Gtid>::empty(),
                self.change_points@ == Set::<usize>::empty(),
            decreases self.max_steps - k,
        {
            res.push(k);
            k = k + 1;
        }
        shuffle(&mut res, &mut self.rand);
        let mut i: usize = 0;
        while i < self.max_depth
            invariant
                i <= self.max_depth,
                self.max_depth == old(self).max_depth,
                self.max_steps == if old(self).steps > old(self).max_depth {
                    old(self).steps
                } else {
                    old(self).max_depth
                },
                self.steps == 0,
                self.priorities@ == Seq::<Gtid>::empty(),
                self.change_points@ == Set::new(|j: usize| j < i),
                self.change_points@.finite(),
                self.change_points@.len() == i,
            decreases self.max_depth - i,
        {
            proof {
                assert(!self.change_points@.contains(i));
            }
            self.change_points.insert(i);
            proof {
                assert(self.change_points@ =~= Set::new(|j: usize| j < i + 1));
            }
            i = i + 1;
        }
    }

    #[verifier::spinoff_prover]
    #[verifier::rlimit(30)]
    /// Gives each new runnable task a random priority, demotes the highest priority at a
    /// change point (or moves the change point when only one task is runnable), and picks
    /// the runnable task of highest priority.
    fn next_task(&mut self, runnable_tasks: &Vec<Gtid>, _current_task: Option<Gtid>) -> (res: (
        Option<Gtid>,
        bool,
    ))
    {
        broadcast use vstd::std_specs::hash::group_hash_axioms;
        broadcast use vstd::seq_lib::group_to_multiset_ensures;
        broadcast use vstd::seq_lib::to_multiset_insert;

        if runnable_tasks.is_empty() {
            return (None, false);
        }
        let ghost order0 = self.priorities@;
        let ghost fresh = new_tasks(order0, runnable_tasks@);
        let mut new_tasks_found: Vec<Gtid> = Vec::new();
        let mut i: usize = 0;
        while i < runnable_tasks.len()
            invariant
                0 <= i <= runnable_tasks.len(),
                self.priorities@ == order0,
                self.max_depth == old(self).max_depth,
                self.max_steps == old(self).max_steps,
                self.steps == old(self).steps,
                self.change_points@ == old(self).change_points@,
                self.change_points@.finite(),
                self.change_points@.len() <= self.max_depth,
                self.steps + self.max_depth + 1 < usize::MAX,

                new_tasks_found@ == new_tasks(order0, runnable_tasks@.take(i as int)),
            decreases runnable_tasks.len() - i,
        {
            let gtid = runnable_tasks[i];
            proof {
                assert(runnable_tasks@.take(i + 1) =~= runnable_tasks@.take(i as int).push(gtid));
                runnable_tasks@.take(i as int).lemma_filter_push(
                    gtid,
                    |g: Gtid| !order0.contains(g),
                );
            }
            if position_of(&self.priorities, gtid).is_none() {
                new_tasks_found.push(gtid);
            }
            i = i + 1;
        }
        proof {
            assert(runnable_tasks@.take(runnable_tasks.len() as int) =~= runnable_tasks@);
        }
        let mut draws: Vec<u32> = Vec::new();
        while draws.len() < new_tasks_found.len()
            invariant
                draws.len() <= new_tasks_found.len(),
                self.priorities@ == order0,
                self.max_depth == old(self).max_depth,
                self.max_steps == old(self).max_steps,
                self.steps == old(self).steps,
                self.change_points@ == old(self).change_points@,
            decreases new_tasks_found.len() - draws.len(),
        {
            draws.push(next_u32(&mut self.rand));
        }
        proof {
            assert forall|i: int| 0 <= i < fresh.len() implies !order0.contains(#[trigger] fresh[i]) by {
                runnable_tasks@.lemma_filter_pred(|g: Gtid| !order0.contains(g), i);
            }
            lemma_placed(order0, fresh, draws@);
            runnable_tasks@.lemma_filter_len(|g: Gtid| !order0.contains(g));
        }
        place_new_tasks(&mut self.priorities, &new_tasks_found, &draws);
        proof {
            assert forall|g: Gtid| runnable_tasks@.contains(g) implies self.priorities@.contains(
                g,
            ) by {
                if order0.contains(g) {
                    assert(order0.to_multiset().count(g) > 0);
                } else {
                    runnable_tasks@.lemma_filter_contains_rev(|x: Gtid| !order0.contains(x), g);
                    assert(fresh.to_multiset().count(g) > 0);
                }
                assert(self.priorities@.to_multiset().count(g) > 0);
            }
        }
        let ghost mid = self.priorities@;
        assert(mid.to_multiset() == order0.to_multiset().add(fresh.to_multiset()));
        assert(mid.len() > 0) by {
            assert(runnable_tasks@.contains(runnable_tasks@[0]));
            assert(mid.contains(runnable_tasks@[0]));
        }
        if self.change_points.contains(&self.steps) {
            if runnable_tasks.len() == 1 {
                self.move_forward_switch_point();
            } else {
                proof {
                    assert(runnable_tasks@.contains(runnable_tasks@[0]));
                }
                let gtid = self.priorities[0];
                self.priorities.remove(0);
                self.priorities.push(gtid);
                proof {
                    assert(self.priorities@ =~= mid.drop_first().push(mid[0]));
                    assert(self.priorities@.to_multiset() =~= mid.to_multiset());
                    assert forall|g: Gtid| runnable_tasks@.contains(g) implies self.priorities@.contains(
                        g,
                    ) by {
                        assert(mid.to_multiset().count(g) > 0);
                        assert(self.priorities@.to_multiset().count(g) > 0);
                    }
                }
            }
        }
        let mut k: usize = 0;
        while k < self.priorities.len()
            invariant
                0 <= k <= self.priorities.len(),
                forall|g: Gtid| runnable_tasks@.contains(g) ==> self.priorities@.contains(g),
                self.max_depth == old(self).max_depth,
                self.max_steps == old(self).max_steps,
                self.steps == old(self).steps,
                self.change_points@.finite(),
                self.change_points@.len() <= self.max_depth,
                self.steps + self.max_depth + 1 < usize::MAX,
                (old(self).change_points@.contains(old(self).steps) && runnable_tasks.len() == 1)
                    ==> exists|n: usize|
                    next_free_step(old(self).change_points@, old(self).steps, n)
                        && self.change_points@ == old(self).change_points@.remove(old(self).steps).insert(n),
                !(old(self).change_points@.contains(old(self).steps) && runnable_tasks.len() == 1)
                    ==> self.change_points@ == old(self).change_points@,
                self.priorities@.to_multiset() == order0.to_multiset().add(fresh.to_multiset()),
                fresh == new_tasks(order0, runnable_tasks@),
                order0 == old(self).priorities@,
                runnable_tasks.len() > 0,
                mid.len() > 0,
                mid == placed(order0, fresh, draws@),
                draws@.len() == fresh.len(),
                keeps_order(order0, mid),
                mid.to_multiset() == order0.to_multiset().add(fresh.to_multiset()),
                self.priorities@ == if old(self).change_points@.contains(old(self).steps)
                    && runnable_tasks.len() > 1 {
                    mid.drop_first().push(mid[0])
                } else {
                    mid
                },
                forall|j: int|
                    0 <= j < k ==> !runnable_tasks@.contains(#[trigger] self.priorities@[j]),
            decreases self.priorities.len() - k,
        {
            let candidate = self.priorities[k];
            if position_of(runnable_tasks, candidate).is_some() {
                self.steps = self.steps + 1;
                proof {
                    assert(self.priority_order()[k as int] == candidate);
                    assert(old(self).priority_order() == order0);
                    assert(placed(old(self).priority_order(), fresh, draws@) == mid);
                    assert(exists|k: int|
                        0 <= k < self.priority_order().len() && Some(candidate) == Some(
                            self.priority_order()[k],
                        ) && forall|j: int|
                            0 <= j < k ==> !runnable_tasks@.contains(#[trigger] self.priority_order()[j]));
                }
                return (Some(candidate), true);
            }
            k = k + 1;
        }
        proof {
            let g = runnable_tasks@[0];
            assert(runnable_tasks@.contains(g));
            let m = choose|m: int| 0 <= m < self.priorities@.len() && self.priorities@[m] == g;
            assert(!runnable_tasks@.contains(self.priorities@[m]));
        }
        (None, false)
    }

    fn dump_schedules(&self) -> (lines: Vec<String>)
        ensures
            lines.len() == 0,
    {
        Vec::new()
    }

    /// Takes nothing back: the priorities are kept.
    fn revert_last_choice(&mut self)
        ensures
            *final(self) == *old(self),
    {
    }
}

} // verus!

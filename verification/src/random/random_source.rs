use rand::Rng;
use rand::SeedableRng;
use rand::rngs::StdRng;
use vstd::prelude::*;

verus! {

#[verifier::external_type_specification]
#[verifier::external_body]
pub struct ExStdRng(StdRng);

/// A generator seeded with `seed` (`StdRng::seed_from_u64`). Nothing is stated of its state.
#[verifier::external_body]
fn seeded_rng(seed: u64) -> StdRng {
    StdRng::seed_from_u64(seed)
}

/// A fresh random value drawn from `rng` (`Rng::gen`). Any `usize` may come back.
#[verifier::external_body]
fn draw_usize(rng: &mut StdRng) -> usize {
    rng.gen()
}

/// A source of choices that records every value it hands out, so that a run can be
/// replayed from its recorded choices.
pub struct RandomSource {
    pub choices: Vec<usize>,
    pub rng: StdRng,
    pub index: usize,
}

impl RandomSource {
    /// A call of `next_choice` may take the source from `before` to `after` and give `x`: the
    /// position moves on by one, and `x` is the recorded choice at the old position, drawn and
    /// recorded first when the recording was used up.
    pub open spec fn next_step(before: Self, after: Self, x: usize) -> bool {
        &&& before.index <= before.choices@.len()
        &&& after.index == before.index + 1
        &&& before.index < before.choices@.len() ==> after.choices@ == before.choices@
        &&& before.index == before.choices@.len() ==> after.choices@ == before.choices@.push(x)
        &&& x == after.choices@[before.index as int]
    }

    /// A source with nothing recorded.
    pub fn new() -> (res: Self)
        ensures
            res.choices@ == Seq::<usize>::empty(),
            res.index == 0,
    {
        Self { choices: Vec::new(), index: 0, rng: seeded_rng(0) }
    }

    /// A source that replays `choices` before drawing new values.
    pub fn from_choices(choices: Vec<usize>) -> (res: Self)
        ensures
            res.choices@ == choices@,
            res.index == 0,
    {
        Self { choices, index: 0, rng: seeded_rng(0) }
    }

    /// The choice at the current position, drawing and recording a new one when the
    /// recording is exhausted; the position moves on by one.
    pub fn next_choice(&mut self) -> (res: usize)
        requires
            old(self).index <= old(self).choices.len(),
            old(self).index < usize::MAX,
        ensures
            final(self).index == old(self).index + 1,
            old(self).index < old(self).choices.len() ==> final(self).choices@ == old(self).choices@,
            old(self).index == old(self).choices.len() ==> final(self).choices@ == old(self).choices@.push(res),
            res == final(self).choices@[old(self).index as int],
            Self::next_step(*old(self), *final(self), res),
    {
        if self.choices.len() == self.index {
            let v = draw_usize(&mut self.rng);
            self.choices.push(v);
        }
        self.index = self.index + 1;
        self.choices[self.index - 1]
    }
}

/// `states` and `xs` are a run of `next_choice` calls: call `j` takes `states[j]` to
/// `states[j + 1]` and gives `xs[j]`.
pub open spec fn is_run(states: Seq<RandomSource>, xs: Seq<usize>) -> bool {
    &&& states.len() == xs.len() + 1
    &&& forall|j: int|
        #![trigger xs[j]]
        0 <= j < xs.len() ==> RandomSource::next_step(states[j], states[j + 1], xs[j])
}

/// A run keeps the recording it started from as a prefix, and each value it gave is the
/// recorded choice at the position it was given from.
proof fn lemma_run(states: Seq<RandomSource>, xs: Seq<usize>, m: int)
    requires
        is_run(states, xs),
        states[0].index <= states[0].choices@.len(),
        0 <= m <= xs.len(),
    ensures
        states[m].index == states[0].index + m,
        states[m].choices@.len() >= states[m].index,
        states[0].choices@.len() <= states[m].choices@.len(),
        forall|p: int| 0 <= p < states[0].choices@.len() ==> states[m].choices@[p] == states[0].choices@[p],
        forall|j: int| 0 <= j < m ==> states[m].choices@[states[0].index + j] == #[trigger] xs[j],
        states[0].index + m <= states[0].choices@.len() ==> states[m].choices@ == states[0].choices@,
    decreases m,
{
    if m > 0 {
        let p = m - 1;
        lemma_run(states, xs, p);
        assert(RandomSource::next_step(states[p], states[m], xs[p]));
        assert forall|j: int| 0 <= j < m implies states[m].choices@[states[0].index + j] == #[trigger] xs[j] by {
            if j < p {
                assert(states[p].choices@[states[0].index + j] == xs[j]);
            }
        }
    }
}

/// Replay: starting a second run at the position the first one started from, on the recording
/// the first one left, gives the same values and keeps that recording.
pub proof fn law_replay(
    first: Seq<RandomSource>,
    xs: Seq<usize>,
    second: Seq<RandomSource>,
    ys: Seq<usize>,
)
    requires
        is_run(first, xs),
        first[0].index <= first[0].choices@.len(),
        is_run(second, ys),
        xs.len() == ys.len(),
        second[0].index == first[0].index,
        second[0].choices@ == first[xs.len() as int].choices@,
    ensures
        ys == xs,
        second[ys.len() as int].choices@ == second[0].choices@,
        second[ys.len() as int].index == first[xs.len() as int].index,
{
    let k = xs.len() as int;
    lemma_run(first, xs, k);
    lemma_run(second, ys, k);
    assert forall|j: int| 0 <= j < k implies ys[j] == xs[j] by {
        assert(second[k].choices@[second[0].index + j] == ys[j]);
        assert(first[k].choices@[first[0].index + j] == xs[j]);
    }
    assert(ys =~= xs);
}

} // verus!

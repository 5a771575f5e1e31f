use vstd::prelude::*;

use crate::stats::{
    MAX_SAMPLE_NANOS, MAX_SAMPLES, MAX_SQUARED_NANOS, Spread, ascending, lemma_sorting_keeps_range,
    middle_half,
    samples_in_range, sort_samples, sorted_samples, spreads, squared_deviations, sum_of,
    trimmed_mean, trimmed_spread, trimmed_variance,
};

verus! {

/// Number of trimmed deviations that the stopping rule compares.
pub const HISTORY_WINDOW: usize = 3;

/// Scale of the stability bounds below.
pub const STABLE_SCALE: u128 = 10000;

/// `(1 - 1%)^2`, scaled by `STABLE_SCALE`.
pub const STABLE_LOW: u128 = 9801;

/// `(1 + 1%)^2`, scaled by `STABLE_SCALE`.
pub const STABLE_HIGH: u128 = 10201;

/// The deviation whose variance is `newer` differs from the one whose variance
/// is `older` by less than 1% of the latter: `0.99 < sqrt(newer / older) <
/// 1.01`, compared on squares. Two equal values, zeros included, count as no
/// change.
pub open spec fn is_stable(newer: int, older: int) -> bool {
    ||| newer == older
    ||| (STABLE_LOW * older < STABLE_SCALE * newer && STABLE_SCALE * newer < STABLE_HIGH * older)
}

/// The latest of at least three recorded variances is stable against both of
/// the two before it.
pub open spec fn has_converged(history: Seq<u128>) -> bool {
    let n = history.len() as int;
    &&& n >= HISTORY_WINDOW
    &&& is_stable(history[n - 1] as int, history[n - 2] as int)
    &&& is_stable(history[n - 1] as int, history[n - 3] as int)
}

fn stable(newer: u128, older: u128) -> (r: bool)
    requires
        newer <= 3 * MAX_SQUARED_NANOS,
        older <= 3 * MAX_SQUARED_NANOS,
    ensures
        r == is_stable(newer as int, older as int),
{
    newer == older || (STABLE_LOW * older < STABLE_SCALE * newer && STABLE_SCALE * newer
        < STABLE_HIGH * older)
}

/// The state of a convergence search: every sample so far, in ascending
/// order, and the trimmed variance recorded at each check.
pub struct ConvergenceState {
    pub samples: Seq<u64>,
    pub history: Seq<u128>,
}

/// The state after a check that adds `batch` to `state`: the samples stay
/// sorted, and a variance is recorded once there are four samples to trim.
pub open spec fn state_after(state: ConvergenceState, batch: Seq<u64>) -> ConvergenceState {
    let samples = sorted_samples(state.samples + batch);
    ConvergenceState {
        samples,
        history: if samples.len() >= 4 {
            state.history.push(trimmed_variance(samples) as u128)
        } else {
            state.history
        },
    }
}

/// Accumulates samples and trimmed variances until the variance settles.
pub struct ConvergenceTracker {
    samples: Vec<u64>,
    history: Vec<u128>,
}

impl View for ConvergenceTracker {
    type V = ConvergenceState;

    closed spec fn view(&self) -> ConvergenceState {
        ConvergenceState { samples: self.samples@, history: self.history@ }
    }
}

impl ConvergenceTracker {
    /// At most `MAX_SAMPLES` samples, all in range; variances in the range
    /// that trimming yields, recorded only once there were four samples.
    pub open spec fn wf(&self) -> bool {
        &&& self@.samples.len() <= MAX_SAMPLES
        &&& samples_in_range(self@.samples)
        &&& (self@.history.len() == 0 || self@.samples.len() >= 4)
        &&& forall|i: int|
            0 <= i < self@.history.len() ==> #[trigger] self@.history[i] <= 3 * MAX_SQUARED_NANOS
    }

    /// A tracker with no samples and no checks.
    pub fn new() -> (t: ConvergenceTracker)
        ensures
            t.wf(),
            t@.samples == Seq::<u64>::empty(),
            t@.history == Seq::<u128>::empty(),
    {
        ConvergenceTracker { samples: Vec::new(), history: Vec::new() }
    }

    /// Number of samples collected so far.
    pub fn sample_count(&self) -> (n: usize)
        ensures
            n == self@.samples.len(),
    {
        self.samples.len()
    }

    /// Adds one check's batch of samples. Returns the spread of the middle
    /// half of all samples once the variance has converged.
    pub fn add_batch(&mut self, batch: Vec<u64>) -> (r: Option<Spread>)
        requires
            old(self).wf(),
            old(self)@.samples.len() + batch@.len() <= MAX_SAMPLES,
            samples_in_range(batch@),
        ensures
            final(self).wf(),
            final(self)@ == state_after(old(self)@, batch@),
            final(self)@.samples.len() == old(self)@.samples.len() + batch@.len(),
            r is Some <==> has_converged(final(self)@.history),
            r matches Some(sp) ==> spreads(sp, final(self)@.samples),
            r matches Some(sp) ==> sp.mean <= MAX_SAMPLE_NANOS && sp.variance <= 3
                * MAX_SQUARED_NANOS,
    {
        let ghost joined = self@.samples + batch@;
        let mut batch = batch;
        self.samples.append(&mut batch);
        assert(self.samples@ == joined);
        sort_samples(&mut self.samples);
        proof {
            lemma_sorting_keeps_range(joined);
        }
        if self.samples.len() < 4 {
            return None;
        }
        let spread = trimmed_spread(&self.samples);
        self.history.push(spread.variance);
        proof {
            assert forall|i: int| 0 <= i < self@.history.len() implies #[trigger] self@.history[i]
                <= 3 * MAX_SQUARED_NANOS by {
                if i < self@.history.len() - 1 {
                    assert(self@.history[i] == old(self)@.history[i]);
                }
            }
        }
        let n = self.history.len();
        if n >= HISTORY_WINDOW {
            let last = self.history[n - 1];
            if stable(last, self.history[n - 2]) && stable(last, self.history[n - 3]) {
                return Some(spread);
            }
        }
        None
    }
}

/// The state after checks that add `batches` in order, from the start.
pub open spec fn run_of(batches: Seq<Seq<u64>>) -> ConvergenceState
    decreases batches.len(),
{
    if batches.len() == 0 {
        initial_state()
    } else {
        state_after(run_of(batches.drop_last()), batches.last())
    }
}

/// Every batch holds `size` samples, all in range.
pub open spec fn batches_of(batches: Seq<Seq<u64>>, size: int) -> bool {
    forall|i: int|
        0 <= i < batches.len() ==> #[trigger] batches[i].len() == size && samples_in_range(
            batches[i],
        )
}

/// No check after any of `batches` found convergence.
pub open spec fn unsettled(batches: Seq<Seq<u64>>) -> bool {
    forall|k: int|
        1 <= k <= batches.len() ==> !has_converged(#[trigger] run_of(batches.subrange(0, k)).history)
}

/// Every sample of `s` is `c`.
pub open spec fn all_equal(s: Seq<u64>, c: u64) -> bool {
    forall|i: int| 0 <= i < s.len() ==> #[trigger] s[i] == c
}

/// The state of a search that has not started.
pub open spec fn initial_state() -> ConvergenceState {
    ConvergenceState { samples: Seq::empty(), history: Seq::empty() }
}

proof fn lemma_sorted_all_equal(s: Seq<u64>, c: u64)
    requires
        all_equal(s, c),
    ensures
        all_equal(sorted_samples(s), c),
        sorted_samples(s).len() == s.len(),
{
    broadcast use vstd::seq_lib::group_to_multiset_ensures;

    crate::stats::lemma_ascending_total();
    s.lemma_sort_by_ensures(ascending());
    let t = sorted_samples(s);
    assert forall|i: int| 0 <= i < t.len() implies #[trigger] t[i] == c by {
        assert(t.contains(t[i]));
        assert(s.contains(t[i]));
    }
    assert(t.len() == t.to_multiset().len());
    assert(s.len() == s.to_multiset().len());
}

proof fn lemma_constant_sums(s: Seq<u64>, c: u64)
    requires
        all_equal(s, c),
    ensures
        sum_of(s) == s.len() * c,
        squared_deviations(s, c as int) == 0,
    decreases s.len(),
{
    if s.len() > 0 {
        lemma_constant_sums(s.drop_last(), c);
        assert(s.last() == c);
        assert(sum_of(s) == (s.len() - 1) * c + c);
        assert((s.len() - 1) * c + c == s.len() * c) by (nonlinear_arith);
    }
}

proof fn lemma_constant_variance(s: Seq<u64>, c: u64)
    requires
        all_equal(s, c),
        s.len() >= 4,
    ensures
        trimmed_mean(s) == c,
        trimmed_variance(s) == 0,
{
    let mid = middle_half(s);
    let m = mid.len() as int;
    assert(m >= 2);
    assert(all_equal(mid, c));
    lemma_constant_sums(mid, c);
    vstd::arithmetic::div_mod::lemma_basic_div(m - 2, m - 1);
    assert((m * c) / m == c) by (nonlinear_arith)
        requires
            m >= 2,
    ;
}

proof fn lemma_noiseless_step(state: ConvergenceState, batch: Seq<u64>, c: u64)
    requires
        all_equal(state.samples, c),
        all_equal(batch, c),
        state.samples.len() + batch.len() >= 4,
    ensures
        all_equal(state_after(state, batch).samples, c),
        state_after(state, batch).samples.len() == state.samples.len() + batch.len(),
        state_after(state, batch).history == state.history.push(0),
{
    let joined = state.samples + batch;
    assert(all_equal(joined, c));
    lemma_sorted_all_equal(joined, c);
    lemma_constant_variance(sorted_samples(joined), c);
}

/// A noiseless operation, whose every batch takes the same `c` nanoseconds,
/// converges at the third check once the first check brings four samples:
/// its trimmed variance is zero at every check. The states are those that
/// `run_of` gives for the first one, two and three checks.
pub proof fn lemma_noiseless_converges(b1: Seq<u64>, b2: Seq<u64>, b3: Seq<u64>, c: u64)
    requires
        all_equal(b1, c),
        all_equal(b2, c),
        all_equal(b3, c),
        b1.len() >= 4,
    ensures
        ({
            let s1 = state_after(initial_state(), b1);
            let s2 = state_after(s1, b2);
            let s3 = state_after(s2, b3);
            &&& !has_converged(s1.history)
            &&& !has_converged(s2.history)
            &&& has_converged(s3.history)
            &&& s3.history == seq![0u128, 0u128, 0u128]
            &&& run_of(seq![b1]) == s1
            &&& run_of(seq![b1, b2]) == s2
            &&& run_of(seq![b1, b2, b3]) == s3
        }),
{
    let s0 = initial_state();
    assert(s0.samples + b1 == b1);
    lemma_noiseless_step(s0, b1, c);
    let s1 = state_after(s0, b1);
    lemma_sorted_all_equal(b1, c);
    lemma_noiseless_step(s1, b2, c);
    let s2 = state_after(s1, b2);
    lemma_noiseless_step(s2, b3, c);
    let s3 = state_after(s2, b3);
    assert(s3.history == seq![0u128, 0u128, 0u128]);
    assert(seq![b1].drop_last() == Seq::<Seq<u64>>::empty());
    assert(seq![b1, b2].drop_last() == seq![b1]);
    assert(seq![b1, b2, b3].drop_last() == seq![b1, b2]);
    assert(run_of(Seq::<Seq<u64>>::empty()) == s0);
    assert(run_of(seq![b1]) == s1);
    assert(run_of(seq![b1, b2]) == s2);
    assert(run_of(seq![b1, b2, b3]) == s3);
}

} // verus!

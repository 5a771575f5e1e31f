use vstd::prelude::*;
use vstd::arithmetic::div_mod::lemma_fundamental_div_mod;
use vstd::arithmetic::div_mod::lemma_fundamental_div_mod_converse_div;

verus! {

/// What an exponential calibration search does after timing one batch.
#[derive(Clone, Copy, Debug, PartialEq, Eq)]
pub enum CalibrationStep {
    /// The batch ran longer than the threshold: the search is over.
    Cleared,
    /// The batch was too short: time again with this many repetitions.
    Double(u64),
    /// The batch was too short and the repetitions cannot double any more.
    Exhausted,
}

/// The step after a batch of `repetitions` calls that took `elapsed`
/// nanoseconds, against a threshold of `threshold` nanoseconds.
pub open spec fn next_step(threshold: u64, repetitions: u64, elapsed: u64) -> CalibrationStep {
    if elapsed > threshold {
        CalibrationStep::Cleared
    } else if repetitions <= u64::MAX / 2 {
        CalibrationStep::Double((2 * repetitions) as u64)
    } else {
        CalibrationStep::Exhausted
    }
}

/// Decides the next step of a calibration search.
pub fn calibration_step(threshold: u64, repetitions: u64, elapsed: u64) -> (r: CalibrationStep)
    ensures
        r == next_step(threshold, repetitions, elapsed),
{
    if elapsed > threshold {
        CalibrationStep::Cleared
    } else if repetitions <= u64::MAX / 2 {
        CalibrationStep::Double(2 * repetitions)
    } else {
        CalibrationStep::Exhausted
    }
}

/// `a / b` rounded up.
pub open spec fn ceil_div(a: int, b: int) -> int {
    (a + b - 1) / b
}

/// Repetitions that make a batch expected to just clear `threshold`, after
/// `repetitions` calls took `elapsed` nanoseconds:
/// `ceil(threshold / (elapsed / repetitions))`.
pub fn repetitions_per_batch(threshold: u64, repetitions: u64, elapsed: u64) -> (r: u64)
    requires
        0 < threshold < elapsed,
        repetitions >= 1,
    ensures
        r == ceil_div(threshold * repetitions, elapsed as int),
        1 <= r <= repetitions,
{
    let t = threshold as u128;
    let reps = repetitions as u128;
    let e = elapsed as u128;
    assert(t * reps + e - 1 <= u128::MAX) by (nonlinear_arith)
        requires
            t <= u64::MAX,
            reps <= u64::MAX,
            e <= u64::MAX,
    ;
    let numerator = t * reps + (e - 1);
    let r = numerator / e;
    assert(1 <= r <= reps) by (nonlinear_arith)
        requires
            r == numerator / e,
            numerator == t * reps + e - 1,
            0 < t < e,
            reps >= 1,
    ;
    r as u64
}

/// Repetitions of batch `k` of a search that starts at one and doubles.
pub open spec fn doubled(k: nat) -> nat
    decreases k,
{
    if k == 0 {
        1
    } else {
        2 * doubled((k - 1) as nat)
    }
}

/// `readings` are the times, in order, of the batches of a search that
/// starts at one repetition and doubles: every batch but the last was too
/// short, and the last one led to `last`.
pub open spec fn search_trace(threshold: u64, readings: Seq<u64>, last: CalibrationStep) -> bool {
    let n = readings.len() as int;
    &&& n >= 1
    &&& doubled((n - 1) as nat) <= u64::MAX
    &&& forall|k: int|
        0 <= k < n - 1 ==> next_step(threshold, doubled(k as nat) as u64, #[trigger] readings[k])
            == CalibrationStep::Double(doubled((k + 1) as nat) as u64)
    &&& next_step(threshold, doubled((n - 1) as nat) as u64, readings[n - 1]) == last
}

/// A calibration search in which a batch of `r` calls takes exactly
/// `r * cost` nanoseconds (`cost > 0`) ends past the threshold, and no more
/// than twice past it unless its first single call already was. The time
/// per call it measures is `cost` itself, and the repetitions per batch
/// derived from it are `ceil(threshold / cost)`, at least one.
pub proof fn lemma_calibration_on_fixed_cost(threshold: u64, cost: u64, readings: Seq<u64>)
    requires
        threshold >= 1,
        cost >= 1,
        search_trace(threshold, readings, CalibrationStep::Cleared),
        forall|k: int| 0 <= k < readings.len() ==> #[trigger] readings[k] == doubled(k as nat) * cost,
    ensures
        ({
            let n = readings.len() as int;
            let r = doubled((n - 1) as nat);
            let elapsed = readings[n - 1] as int;
            &&& r >= 1
            &&& elapsed > threshold
            &&& (r == 1 || elapsed <= 2 * threshold)
            &&& elapsed / (r as int) == cost
            &&& ceil_div(threshold * r, elapsed) == ceil_div(threshold as int, cost as int)
            &&& ceil_div(threshold as int, cost as int) >= 1
        }),
{
    let n = readings.len() as int;
    let r = doubled((n - 1) as nat);
    let elapsed = readings[n - 1] as int;
    lemma_doubled_positive((n - 1) as nat);
    if n >= 2 {
        let p = doubled((n - 2) as nat);
        assert(next_step(threshold, p as u64, readings[n - 2]) == CalibrationStep::Double(
            r as u64,
        ));
        assert(readings[n - 2] == p * cost);
        assert(r == 2 * p);
        assert(elapsed <= 2 * threshold) by (nonlinear_arith)
            requires
                elapsed == r * cost,
                r == 2 * p,
                p * cost <= threshold,
        ;
    }
    assert(elapsed / (r as int) == cost) by (nonlinear_arith)
        requires
            elapsed == r * cost,
            r >= 1,
    ;
    let q = ceil_div(threshold as int, cost as int);
    let rem = (threshold + cost - 1) % (cost as int);
    lemma_fundamental_div_mod(threshold + cost - 1, cost as int);
    assert(threshold * r + elapsed - 1 == q * elapsed + (r * (rem + 1) - 1)) by (nonlinear_arith)
        requires
            threshold + cost - 1 == cost * q + rem,
            elapsed == r * cost,
    ;
    assert(0 <= r * (rem + 1) - 1 < elapsed) by (nonlinear_arith)
        requires
            0 <= rem < cost,
            r >= 1,
            elapsed == r * cost,
    ;
    lemma_fundamental_div_mod_converse_div(threshold * r + elapsed - 1, elapsed, q, r * (rem + 1) - 1);
    assert(q >= 1) by (nonlinear_arith)
        requires
            q == (threshold + cost - 1) / (cost as int),
            threshold >= 1,
            cost >= 1,
    ;
}

/// Every batch size of the search is at least one.
pub proof fn lemma_doubled_positive(k: nat)
    ensures
        doubled(k) >= 1,
    decreases k,
{
    if k > 0 {
        lemma_doubled_positive((k - 1) as nat);
    }
}

} // verus!

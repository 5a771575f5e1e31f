use vstd::prelude::*;

use std::time::Instant;

use crate::calibration::{CalibrationStep, calibration_step, doubled, next_step, search_trace};
use crate::clock::nanos_since;
use crate::config::Config;
use crate::convergence::{ConvergenceTracker, batches_of, has_converged, run_of, unsettled};
use crate::error::HarnessError;
use crate::stats::{
    Estimate, MAX_SAMPLE_NANOS, MAX_SAMPLES, Spread, estimates, per_call_estimate,
    samples_in_range, spreads,
};

verus! {

/// Calls per batch in a convergence search: the threshold divided by the time
/// per call, and at least one.
pub open spec fn batch_length(threshold: u64, timing: u64) -> u64 {
    if threshold / timing == 0 {
        1
    } else {
        threshold / timing
    }
}

/// Times a zero-argument operation, alone, without a size series.
pub struct Runner<F: Fn()> {
    f: F,
    config: Config,
}

impl<F: Fn()> Runner<F> {
    /// The thresholds this runner measures with.
    pub closed spec fn config(&self) -> Config {
        self.config
    }

    /// The operation this runner times.
    pub closed spec fn spec_f(&self) -> F {
        self.f
    }

    /// The operation may be called.
    pub closed spec fn callable(&self) -> bool {
        self.f.requires(())
    }

    /// A runner with the compiled-in defaults.
    pub fn new(f: F) -> (r: Self)
        requires
            f.requires(()),
        ensures
            r.callable(),
            r.spec_f() == f,
            r.config() == Config::spec_standard(),
    {
        Runner { f, config: Config::standard() }
    }

    /// A runner with the given thresholds.
    pub fn with_config(f: F, config: Config) -> (r: Self)
        requires
            f.requires(()),
        ensures
            r.callable(),
            r.spec_f() == f,
            r.config() == config,
    {
        Runner { f, config }
    }

    /// Nanoseconds taken by `count` back-to-back calls.
    fn time_calls(&self, count: u64) -> u64
        requires
            self.callable(),
    {
        let start = Instant::now();
        let mut i: u64 = 0;
        while i < count
            invariant
                self.callable(),
            decreases count - i,
        {
            (self.f)();
            i = i + 1;
        }
        nanos_since(&start)
    }

    /// Time per call, in nanoseconds rounded down, of the first batch that
    /// runs longer than the minimum running time, in a search that starts at
    /// one call and doubles. None where no batch up to the largest count
    /// that can double is long enough.
    pub fn estimate_timing(&self) -> (r: Option<u64>)
        requires
            self.callable(),
        ensures
            r matches Some(t) ==> exists|readings: Seq<u64>|
                {
                    &&& #[trigger] search_trace(
                        self.config().minimum_running_time,
                        readings,
                        CalibrationStep::Cleared,
                    )
                    &&& t == (readings.last() as int) / (doubled((readings.len() - 1) as nat) as int)
                },
            r is None ==> exists|readings: Seq<u64>|
                #[trigger] search_trace(
                    self.config().minimum_running_time,
                    readings,
                    CalibrationStep::Exhausted,
                ),
    {
        let threshold = self.config.minimum_running_time;
        let mut reps: u64 = 1;
        let ghost mut readings: Seq<u64> = Seq::empty();
        loop
            invariant
                self.callable(),
                threshold == self.config().minimum_running_time,
                reps >= 1,
                reps == doubled(readings.len()),
                forall|k: int|
                    0 <= k < readings.len() ==> next_step(
                        threshold,
                        doubled(k as nat) as u64,
                        #[trigger] readings[k],
                    ) == CalibrationStep::Double(doubled((k + 1) as nat) as u64),
            decreases u64::MAX - reps,
        {
            let elapsed = self.time_calls(reps);
            let ghost before = readings;
            proof {
                readings = readings.push(elapsed);
                assert(forall|k: int| 0 <= k < before.len() ==> readings[k] == before[k]);
            }
            match calibration_step(threshold, reps, elapsed) {
                CalibrationStep::Cleared => {
                    assert(search_trace(threshold, readings, CalibrationStep::Cleared));
                    return Some(elapsed / reps);
                },
                CalibrationStep::Double(next) => {
                    reps = next;
                },
                CalibrationStep::Exhausted => {
                    assert(search_trace(threshold, readings, CalibrationStep::Exhausted));
                    return None;
                },
            }
        }
    }

    /// Mean and deviation per call, in picoseconds, from the middle half of a
    /// growing sample list, once its variance has settled. `timing` is the
    /// time per call found by calibration; batches are `batch_length` calls
    /// long, and each check adds `batches_per_check` of them. Gives up when
    /// the sample list has no room for another check.
    pub fn estimate_mean_deviation(&self, timing: u64) -> (r: Result<Estimate, HarnessError>)
        requires
            self.callable(),
            self.config().wf(),
        ensures
            timing == 0 <==> r == Err::<Estimate, HarnessError>(HarnessError::ZeroTiming),
            timing != 0 && self.config().variance_test_runtime / self.config().minimum_running_time
                > MAX_SAMPLES ==> r == Err::<Estimate, HarnessError>(HarnessError::SampleLimit),
            r matches Ok(est) ==> exists|batches: Seq<Seq<u64>>, sp: Spread|
                #![trigger run_of(batches), spreads(sp, run_of(batches).samples)]
                {
                    let per_check = self.config().variance_test_runtime
                        / self.config().minimum_running_time;
                    &&& batches.len() >= 1
                    &&& batches_of(batches, per_check as int)
                    &&& unsettled(batches.drop_last())
                    &&& has_converged(run_of(batches).history)
                    &&& spreads(sp, run_of(batches).samples)
                    &&& estimates(
                        est,
                        sp,
                        batch_length(self.config().minimum_running_time, timing),
                    )
                },
            r == Err::<Estimate, HarnessError>(HarnessError::SampleLimit) ==> exists|
                batches: Seq<Seq<u64>>,
            |
                {
                    let per_check = self.config().variance_test_runtime
                        / self.config().minimum_running_time;
                    &&& batches_of(batches, per_check as int)
                    &&& unsettled(batches)
                    &&& #[trigger] run_of(batches).samples.len() + per_check > MAX_SAMPLES
                },
            r matches Err(e) ==> e == HarnessError::ZeroTiming || e == HarnessError::SampleLimit
                || e == HarnessError::SampleOutOfRange,
    {
        if timing == 0 {
            return Err(HarnessError::ZeroTiming);
        }
        let threshold = self.config.minimum_running_time;
        let quotient = threshold / timing;
        let length = if quotient == 0 {
            1
        } else {
            quotient
        };
        let per_check = self.config.batches_per_check();
        let mut tracker = ConvergenceTracker::new();
        let ghost mut batches: Seq<Seq<u64>> = Seq::empty();
        assert(tracker@ == run_of(batches));
        loop
            invariant
                self.callable(),
                tracker.wf(),
                length >= 1,
                length == batch_length(self.config().minimum_running_time, timing),
                per_check >= 1,
                per_check == self.config().variance_test_runtime
                    / self.config().minimum_running_time,
                timing != 0,
                tracker@ == run_of(batches),
                batches_of(batches, per_check as int),
                unsettled(batches),
                per_check > MAX_SAMPLES ==> batches.len() == 0,
            decreases MAX_SAMPLES - tracker@.samples.len(),
        {
            let count = tracker.sample_count();
            if per_check > (MAX_SAMPLES - count) as u64 {
                return Err(HarnessError::SampleLimit);
            }
            let mut batch: Vec<u64> = Vec::new();
            let mut j: u64 = 0;
            while j < per_check
                invariant
                    self.callable(),
                    timing != 0,
                    per_check <= MAX_SAMPLES,
                    per_check == self.config().variance_test_runtime
                        / self.config().minimum_running_time,
                    j <= per_check,
                    batch@.len() == j,
                    forall|i: int| 0 <= i < batch@.len() ==> #[trigger] batch@[i] <= MAX_SAMPLE_NANOS,
                decreases per_check - j,
            {
                let elapsed = self.time_calls(length);
                if elapsed > MAX_SAMPLE_NANOS {
                    return Err(HarnessError::SampleOutOfRange);
                }
                batch.push(elapsed);
                j = j + 1;
            }
            let ghost earlier = batches;
            let ghost b = batch@;
            proof {
                batches = batches.push(b);
                assert(batches.drop_last() == earlier);
                assert(samples_in_range(b));
            }
            let outcome = tracker.add_batch(batch);
            assert(tracker@ == run_of(batches));
            match outcome {
                Some(spread) => {
                    assert(has_converged(run_of(batches).history));
                    return Ok(per_call_estimate(spread, length));
                },
                None => {
                    assert forall|k: int| 1 <= k <= batches.len() implies !has_converged(
                        #[trigger] run_of(batches.subrange(0, k)).history,
                    ) by {
                        if k < batches.len() {
                            assert(batches.subrange(0, k) == earlier.subrange(0, k));
                        } else {
                            assert(batches.subrange(0, k) == batches);
                        }
                    }
                },
            }
        }
    }
}

} // verus!

use vstd::prelude::*;

use std::time::Instant;

use crate::calibration::{
    CalibrationStep, calibration_step, ceil_div, doubled, next_step, repetitions_per_batch,
    search_trace,
};
use crate::clock::nanos_since;
use vstd::arithmetic::div_mod::lemma_fundamental_div_mod;
use crate::config::Config;
use crate::error::HarnessError;
use crate::stats::{
    MAX_SAMPLE_NANOS, MAX_SAMPLES, Statistics, lemma_sorting_keeps_range, samples_in_range,
    sort_samples, sorted_samples, summarize, summarizes,
};

verus! {

/// The operation under comparison: builds a context of a given size,
/// prepares query parameters for it, and runs one query. The harness never
/// looks inside a context or a parameter, only at the time taken.
pub trait Runnable {
    /// The data structure instance under test.
    type Context;

    /// One query argument.
    type Param;

    /// Builds one instance sized to `size`.
    fn create_context(&self, size: usize) -> Self::Context;

    /// Prepares `number` independent query arguments valid for a context of
    /// `size`.
    fn prepare_params(&self, number: usize, size: usize) -> Vec<Self::Param>;

    /// Runs one query against `context`, consuming its result observably.
    fn execute(&self, context: &Self::Context, param: &Self::Param);
}

/// What a measurement holds: the size it measures at, the calibrated
/// repetitions per batch (0 before calibration), and the raw batch times in
/// nanoseconds.
pub struct MeasurementState {
    pub size: usize,
    pub repetitions: u64,
    pub samples: Seq<u64>,
}

/// The state right after `initialize_measurement(size)`.
pub open spec fn initialized(size: usize) -> MeasurementState {
    MeasurementState { size, repetitions: 0, samples: Seq::empty() }
}

/// Why statistics cannot be read in `st`, if they cannot.
pub open spec fn statistics_error(st: MeasurementState) -> Option<HarnessError> {
    if st.repetitions == 0 {
        Some(HarnessError::NotCalibrated)
    } else if st.samples.len() < 2 {
        Some(HarnessError::TooFewSamples)
    } else if !samples_in_range(st.samples) {
        Some(HarnessError::SampleOutOfRange)
    } else {
        None
    }
}

/// Whether a chunk takes another batch: the chunk has run for `elapsed`
/// nanoseconds, no more than the `budget`, and the list holds fewer than
/// `MAX_SAMPLES` samples with `held` counted.
pub open spec fn chunk_continues(budget: u64, elapsed: int, held: int) -> bool {
    elapsed <= budget && held < MAX_SAMPLES
}

/// `readings` are the times since a chunk started, read after each of its
/// batches, with `held` samples in the list before it: the chunk went on
/// after every reading but the last, and stopped at the last.
pub open spec fn chunk_trace(budget: u64, held: int, readings: Seq<u64>) -> bool {
    let n = readings.len() as int;
    &&& n >= 1
    &&& forall|j: int|
        0 <= j < n - 1 ==> chunk_continues(budget, #[trigger] readings[j] as int, held + j + 1)
    &&& !chunk_continues(budget, readings[n - 1] as int, held + n)
}

/// `after` is `before` after one call of `benchmark_chunk`: unchanged, or
/// with samples appended at the same size and repetitions.
pub open spec fn chunk_step(before: MeasurementState, after: MeasurementState) -> bool {
    ||| after == before
    ||| {
        &&& after.size == before.size
        &&& after.repetitions == before.repetitions
        &&& after.samples.len() > before.samples.len()
        &&& after.samples.subrange(0, before.samples.len() as int) == before.samples
    }
}

/// Decides whether a chunk takes another batch.
pub fn continue_chunk(budget: u64, elapsed: u64, held: usize) -> (r: bool)
    ensures
        r == chunk_continues(budget, elapsed as int, held as int),
{
    elapsed <= budget && held < MAX_SAMPLES
}

/// A single benchmark measurement of one operation, which can be sampled in
/// chunks interleaved with other measurements.
pub struct Measurement<R: Runnable> {
    runner: R,
    name: String,
    config: Config,
    repetitions: u64,
    samples: Vec<u64>,
    size: usize,
}

impl<R: Runnable> View for Measurement<R> {
    type V = MeasurementState;

    closed spec fn view(&self) -> MeasurementState {
        MeasurementState { size: self.size, repetitions: self.repetitions, samples: self.samples@ }
    }
}

impl<R: Runnable> Measurement<R> {
    /// The display name.
    pub closed spec fn spec_name(&self) -> Seq<char> {
        self.name@
    }

    /// The operation this measurement times.
    pub closed spec fn spec_runner(&self) -> R {
        self.runner
    }

    /// The thresholds this measurement works with.
    pub closed spec fn config(&self) -> Config {
        self.config
    }

    /// A usable configuration and a sample list within its bound.
    pub open spec fn wf(&self) -> bool {
        &&& self.config().wf()
        &&& self@.samples.len() <= MAX_SAMPLES
    }

    /// A measurement named `name`, with the compiled-in defaults, before any
    /// size is set.
    pub fn new(name: &str, runner: R) -> (m: Self)
        ensures
            m.wf(),
            m@ == initialized(0),
            m.spec_name() == name@,
            m.spec_runner() == runner,
            m.config() == Config::spec_standard(),
    {
        Self::with_config(name, runner, Config::standard())
    }

    /// A measurement named `name`, with the given thresholds, before any size
    /// is set.
    pub fn with_config(name: &str, runner: R, config: Config) -> (m: Self)
        requires
            config.wf(),
        ensures
            m.wf(),
            m@ == initialized(0),
            m.spec_name() == name@,
            m.spec_runner() == runner,
            m.config() == config,
    {
        Measurement {
            runner,
            name: name.to_owned(),
            config,
            repetitions: 0,
            samples: Vec::new(),
            size: 0,
        }
    }

    /// The display name.
    pub fn name(&self) -> (r: &str)
        ensures
            r@ == self.spec_name(),
    {
        self.name.as_str()
    }

    /// Samples collected so far, in nanoseconds per batch.
    pub fn samples(&self) -> (r: &Vec<u64>)
        ensures
            r@ == self@.samples,
    {
        &self.samples
    }

    /// Calibrated repetitions per batch; 0 before calibration.
    pub fn repetitions(&self) -> (r: u64)
        ensures
            r == self@.repetitions,
    {
        self.repetitions
    }

    /// Sets a new size and drops every sample and the calibration, so that
    /// nothing measured at an earlier size remains.
    pub fn initialize_measurement(&mut self, size: usize)
        requires
            old(self).wf(),
        ensures
            final(self).wf(),
            final(self)@ == initialized(size),
            final(self).spec_runner() == old(self).spec_runner(),
            final(self).spec_name() == old(self).spec_name(),
            final(self).config() == old(self).config(),
    {
        self.samples.clear();
        self.size = size;
        self.repetitions = 0;
    }

    /// Nanoseconds taken by `repetitions` calls on a fresh context, each with
    /// the first of the prepared parameters.
    fn time_batch(&self, repetitions: u64) -> (r: Result<u64, HarnessError>)
        ensures
            r matches Err(e) ==> e == HarnessError::NoParams,
    {
        let context = self.runner.create_context(self.size);
        let number: usize = if repetitions > usize::MAX as u64 {
            usize::MAX
        } else {
            repetitions as usize
        };
        let params = self.runner.prepare_params(number, self.size);
        if params.len() == 0 {
            return Err(HarnessError::NoParams);
        }
        let start = Instant::now();
        let mut i: u64 = 0;
        while i < repetitions
            invariant
                params.len() > 0,
            decreases repetitions - i,
        {
            self.runner.execute(&context, &params[0]);
            i = i + 1;
        }
        Ok(nanos_since(&start))
    }

    /// Exponential search for a repetition count whose batch clears the
    /// minimum running time, from one repetition, doubling, on a fresh
    /// context each time. From the batch that clears it, sets the operating
    /// repetitions to `ceil(threshold / time per call)` and returns them.
    /// Before a size is set it does no timing and fails.
    pub fn estimate_timing(&mut self) -> (r: Result<u64, HarnessError>)
        requires
            old(self).wf(),
        ensures
            final(self).wf(),
            final(self).spec_name() == old(self).spec_name(),
            final(self).config() == old(self).config(),
            final(self).spec_runner() == old(self).spec_runner(),
            old(self)@.size == 0 <==> r == Err::<u64, HarnessError>(HarnessError::NotInitialized),
            r matches Ok(reps) ==> {
                &&& final(self)@ == MeasurementState { repetitions: reps, ..old(self)@ }
                &&& reps >= 1
                &&& exists|readings: Seq<u64>|
                    {
                        &&& #[trigger] search_trace(
                            old(self).config().minimum_running_time,
                            readings,
                            CalibrationStep::Cleared,
                        )
                        &&& reps == ceil_div(
                            old(self).config().minimum_running_time * doubled(
                                (readings.len() - 1) as nat,
                            ),
                            readings.last() as int,
                        )
                    }
            },
            r == Err::<u64, HarnessError>(HarnessError::CalibrationExhausted) ==> exists|
                readings: Seq<u64>,
            |
                #[trigger] search_trace(
                    old(self).config().minimum_running_time,
                    readings,
                    CalibrationStep::Exhausted,
                ),
            r matches Err(e) ==> {
                &&& final(self)@ == old(self)@
                &&& e == HarnessError::NotInitialized || e == HarnessError::NoParams || e
                    == HarnessError::CalibrationExhausted
            },
    {
        if self.size == 0 {
            return Err(HarnessError::NotInitialized);
        }
        let threshold = self.config.minimum_running_time;
        let mut reps: u64 = 1;
        let ghost mut readings: Seq<u64> = Seq::empty();
        loop
            invariant
                self.wf(),
                *self == *old(self),
                old(self)@.size != 0,
                threshold == self.config().minimum_running_time,
                threshold > 0,
                reps >= 1,
                reps == doubled(readings.len()),
                forall|k: int|
                    0 <= k < readings.len() ==> next_step(
                        threshold,
                        doubled(k as nat) as u64,
                        #[trigger] readings[k],
                    ) == CalibrationStep::Double(doubled((k + 1) as nat) as u64),
            decreases u64::MAX - reps,
        {
            let elapsed = match self.time_batch(reps) {
                Ok(e) => e,
                Err(e) => {
                    return Err(e);
                },
            };
            let ghost before = readings;
            proof {
                readings = readings.push(elapsed);
                assert(forall|k: int| 0 <= k < before.len() ==> readings[k] == before[k]);
            }
            match calibration_step(threshold, reps, elapsed) {
                CalibrationStep::Cleared => {
                    let per_batch = repetitions_per_batch(threshold, reps, elapsed);
                    self.repetitions = per_batch;
                    assert(search_trace(threshold, readings, CalibrationStep::Cleared));
                    return Ok(per_batch);
                },
                CalibrationStep::Double(next) => {
                    reps = next;
                    proof {
                        readings = readings;
                    }
                },
                CalibrationStep::Exhausted => {
                    assert(search_trace(threshold, readings, CalibrationStep::Exhausted));
                    return Err(HarnessError::CalibrationExhausted);
                },
            }
        }
    }

    /// Appends batches of the calibrated repetitions, each on a fresh
    /// context, until the chunk has run past its time budget or the sample
    /// list is full; takes at least one batch. Earlier samples are kept.
    /// Returns the number of samples added.
    pub fn benchmark_chunk(&mut self) -> (r: Result<usize, HarnessError>)
        requires
            old(self).wf(),
        ensures
            final(self).wf(),
            final(self).spec_name() == old(self).spec_name(),
            final(self).config() == old(self).config(),
            final(self).spec_runner() == old(self).spec_runner(),
            chunk_step(old(self)@, final(self)@),
            old(self)@.repetitions == 0 <==> r == Err::<usize, HarnessError>(
                HarnessError::NotCalibrated,
            ),
            old(self)@.repetitions != 0 && old(self)@.samples.len() >= MAX_SAMPLES <==> r == Err::<
                usize,
                HarnessError,
            >(HarnessError::SampleLimit),
            r matches Ok(added) ==> {
                &&& added >= 1
                &&& final(self)@.size == old(self)@.size
                &&& final(self)@.repetitions == old(self)@.repetitions
                &&& final(self)@.samples.len() == old(self)@.samples.len() + added
                &&& final(self)@.samples.subrange(0, old(self)@.samples.len() as int)
                    == old(self)@.samples
                &&& exists|readings: Seq<u64>|
                    readings.len() == added && #[trigger] chunk_trace(
                        old(self).config().chunk_time,
                        old(self)@.samples.len() as int,
                        readings,
                    )
            },
            r matches Err(e) ==> {
                &&& final(self)@ == old(self)@
                &&& e == HarnessError::NotCalibrated || e == HarnessError::SampleLimit || e
                    == HarnessError::NoParams
            },
    {
        if self.repetitions == 0 {
            return Err(HarnessError::NotCalibrated);
        }
        let held = self.samples.len();
        if held >= MAX_SAMPLES {
            return Err(HarnessError::SampleLimit);
        }
        let budget = self.config.chunk_time;
        let mut fresh: Vec<u64> = Vec::new();
        let ghost mut readings: Seq<u64> = Seq::empty();
        let chunk_start = Instant::now();
        loop
            invariant_except_break
                held + fresh.len() < MAX_SAMPLES,
                forall|j: int|
                    0 <= j < readings.len() ==> chunk_continues(
                        budget,
                        #[trigger] readings[j] as int,
                        held + j + 1,
                    ),
            invariant
                self.wf(),
                *self == *old(self),
                self@.repetitions != 0,
                held == self@.samples.len(),
                held < MAX_SAMPLES,
                budget == self.config().chunk_time,
                readings.len() == fresh.len(),
            ensures
                held + fresh.len() <= MAX_SAMPLES,
                fresh.len() >= 1,
                chunk_trace(budget, held as int, readings),
            decreases MAX_SAMPLES - held - fresh.len(),
        {
            let sample = match self.time_batch(self.repetitions) {
                Ok(e) => e,
                Err(e) => {
                    return Err(e);
                },
            };
            fresh.push(sample);
            let elapsed = nanos_since(&chunk_start);
            let ghost before = readings;
            proof {
                readings = readings.push(elapsed);
                assert(forall|j: int| 0 <= j < before.len() ==> readings[j] == before[j]);
            }
            if !continue_chunk(budget, elapsed, held + fresh.len()) {
                break;
            }
        }
        let added = fresh.len();
        let ghost before = self@.samples;
        self.samples.append(&mut fresh);
        assert(self@.samples.subrange(0, before.len() as int) == before);
        assert(readings.len() == added);
        Ok(added)
    }

    /// Sorts the samples and reduces them to per-operation statistics in
    /// picoseconds: median, deviation around it, relative deviation, fastest
    /// and slowest. Fails, changing nothing, before calibration, with fewer
    /// than two samples, or with a sample out of range.
    pub fn get_final_measurement(&mut self) -> (r: Result<Statistics, HarnessError>)
        requires
            old(self).wf(),
        ensures
            final(self).wf(),
            final(self).spec_name() == old(self).spec_name(),
            final(self).spec_runner() == old(self).spec_runner(),
            final(self).config() == old(self).config(),
            statistics_error(old(self)@) matches Some(e) ==> {
                &&& r == Err::<Statistics, HarnessError>(e)
                &&& final(self)@ == old(self)@
            },
            statistics_error(old(self)@) is None ==> {
                &&& final(self)@ == MeasurementState {
                    samples: sorted_samples(old(self)@.samples),
                    ..old(self)@
                }
                &&& r matches Ok(st) && summarizes(st, final(self)@.samples, old(self)@.repetitions)
            },
    {
        if self.repetitions == 0 {
            return Err(HarnessError::NotCalibrated);
        }
        if self.samples.len() < 2 {
            return Err(HarnessError::TooFewSamples);
        }
        let mut i: usize = 0;
        while i < self.samples.len()
            invariant
                self.wf(),
                *self == *old(self),
                self@.repetitions != 0,
                self@.samples.len() >= 2,
                i <= self.samples.len(),
                forall|j: int| 0 <= j < i ==> #[trigger] self.samples@[j] <= MAX_SAMPLE_NANOS,
            decreases self.samples.len() - i,
        {
            if self.samples[i] > MAX_SAMPLE_NANOS {
                return Err(HarnessError::SampleOutOfRange);
            }
            i = i + 1;
        }
        let ghost before = self.samples@;
        sort_samples(&mut self.samples);
        proof {
            lemma_sorting_keeps_range(before);
        }
        Ok(summarize(&self.samples, self.repetitions))
    }
}

/// Statistics are never read from a measurement that has run no chunk since
/// it was given a size: right after `initialize_measurement` the read fails
/// for want of calibration, and after calibration for want of samples.
pub proof fn lemma_no_statistics_without_samples(size: usize, repetitions: u64)
    ensures
        statistics_error(initialized(size)) == Some(HarnessError::NotCalibrated),
        statistics_error(MeasurementState { repetitions, ..initialized(size) }) is Some,
{
}

/// A chunk whose `k`-th batch ends exactly `k * batch` nanoseconds after the
/// chunk started (`batch > 0`, for instance `repetitions * cost`) takes at
/// most `floor(budget / batch) + 1` batches, and exactly that many where the
/// sample list has room for them: it stops at the first batch past the
/// budget.
pub proof fn lemma_chunk_on_fixed_cost(budget: u64, batch: int, held: int, readings: Seq<u64>)
    requires
        batch >= 1,
        held >= 0,
        chunk_trace(budget, held, readings),
        forall|j: int| 0 <= j < readings.len() ==> #[trigger] readings[j] == (j + 1) * batch,
    ensures
        readings.len() <= (budget as int) / batch + 1,
        held + (budget as int) / batch + 1 <= MAX_SAMPLES ==> readings.len() == (budget as int)
            / batch + 1,
{
    let n = readings.len() as int;
    let q = (budget as int) / batch;
    lemma_fundamental_div_mod(budget as int, batch);
    if n > q + 1 {
        assert(chunk_continues(budget, readings[q] as int, held + q + 1));
        assert((q + 1) * batch > budget) by (nonlinear_arith)
            requires
                budget == batch * q + (budget as int) % batch,
                (budget as int) % batch < batch,
        ;
    }
    if held + q + 1 <= MAX_SAMPLES && n <= q {
        assert(n * batch <= budget) by (nonlinear_arith)
            requires
                n <= q,
                budget == batch * q + (budget as int) % batch,
                (budget as int) % batch >= 0,
                batch >= 1,
        ;
        assert(readings[n - 1] == n * batch);
    }
}

} // verus!
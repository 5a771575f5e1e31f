use vstd::prelude::*;

use crate::error::HarnessError;
use crate::measure::{
    Measurement, MeasurementState, Runnable, chunk_step, initialized, statistics_error,
};
use crate::stats::{Statistics, sorted_samples, summarizes};

verus! {

/// What a benchmark reports for one measurement at one size.
pub struct Report {
    /// Name of the benchmark.
    pub benchmark: String,
    /// Name of the measurement.
    pub measurement: String,
    /// The size measured at.
    pub size: usize,
    /// Outcome of calibration: the repetitions per batch.
    pub calibration: Result<u64, HarnessError>,
    /// Outcome of reading the statistics after the last round.
    pub outcome: Result<Statistics, HarnessError>,
}

/// The state of a measurement right after it was set to `size` and
/// calibrated with outcome `calibration`.
pub open spec fn calibrated_start(calibration: Result<u64, HarnessError>, size: usize) -> MeasurementState {
    MeasurementState {
        repetitions: match calibration {
            Ok(reps) => reps,
            Err(_) => 0,
        },
        ..initialized(size)
    }
}

/// Each state of `trace` follows the one before by one chunk call.
pub open spec fn chunk_chain(trace: Seq<MeasurementState>) -> bool {
    forall|k: int| 0 <= k < trace.len() - 1 ==> chunk_step(trace[k], #[trigger] trace[k + 1])
}

/// One measurement's run at `size`: from `calibrated_start`, `rounds` chunk
/// calls through the states of `trace`, then the statistics read, which
/// gave `outcome` and left the measurement in `st`.
pub open spec fn size_run(
    calibration: Result<u64, HarnessError>,
    outcome: Result<Statistics, HarnessError>,
    trace: Seq<MeasurementState>,
    st: MeasurementState,
    size: usize,
    rounds: u64,
) -> bool {
    let last = trace[rounds as int];
    &&& trace.len() == rounds + 1
    &&& trace[0] == calibrated_start(calibration, size)
    &&& chunk_chain(trace)
    &&& match statistics_error(last) {
        Some(e) => outcome == Err::<Statistics, HarnessError>(e) && st == last,
        None => {
            &&& st == MeasurementState { samples: sorted_samples(last.samples), ..last }
            &&& outcome matches Ok(stats) && summarizes(stats, st.samples, st.repetitions)
        },
    }
}

/// `report` is the report of the measurement named `name` of the benchmark
/// named `benchmark`, run at `size` with `rounds` rounds and left in `st`.
pub open spec fn describes(
    report: Report,
    st: MeasurementState,
    name: Seq<char>,
    benchmark: Seq<char>,
    size: usize,
    rounds: u64,
) -> bool {
    &&& report.benchmark@ == benchmark
    &&& report.measurement@ == name
    &&& report.size == size
    &&& calibration_ok(report.calibration, size)
    &&& exists|trace: Seq<MeasurementState>|
        #[trigger] size_run(report.calibration, report.outcome, trace, st, size, rounds)
}

/// `report` describes the run of the measurement named `name` of the
/// benchmark named `benchmark` at `size`, for some state it was left in.
pub open spec fn reported(
    report: Report,
    name: Seq<char>,
    benchmark: Seq<char>,
    size: usize,
    rounds: u64,
) -> bool {
    exists|st: MeasurementState| #[trigger] describes(report, st, name, benchmark, size, rounds)
}

/// Receives the reports of each size as soon as the size is done.
pub trait Reporter {
    fn report(&mut self, report: &Report);
}

/// A named comparison of measurements over an ordered list of sizes, run
/// interleaved: every measurement is sampled once per round.
pub struct Benchmark<R: Runnable> {
    name: String,
    runners: Vec<Measurement<R>>,
    sizes: Vec<usize>,
    rounds: u64,
}

impl<R: Runnable> Benchmark<R> {
    /// The name.
    pub closed spec fn spec_name(&self) -> Seq<char> {
        self.name@
    }

    /// The sizes, in the order they are run.
    pub closed spec fn spec_sizes(&self) -> Seq<usize> {
        self.sizes@
    }

    /// Collection rounds per size.
    pub closed spec fn spec_rounds(&self) -> u64 {
        self.rounds
    }

    /// The state of each measurement, in the order they were added.
    pub closed spec fn states(&self) -> Seq<MeasurementState> {
        self.runners@.map_values(|m: Measurement<R>| m@)
    }

    /// The name of each measurement.
    pub closed spec fn names(&self) -> Seq<Seq<char>> {
        self.runners@.map_values(|m: Measurement<R>| m.spec_name())
    }

    /// Every measurement is well formed.
    pub closed spec fn wf(&self) -> bool {
        forall|i: int| 0 <= i < self.runners@.len() ==> #[trigger] self.runners@[i].wf()
    }

    /// A benchmark named `name` over `sizes`, with the compiled-in number of
    /// rounds and no measurement yet.
    pub fn new(name: &str, sizes: Vec<usize>) -> (b: Self)
        ensures
            b.wf(),
            b.spec_name() == name@,
            b.spec_sizes() == sizes@,
            b.spec_rounds() == crate::config::ROUNDS,
            b.states().len() == 0,
    {
        Self::with_rounds(name, sizes, crate::config::ROUNDS)
    }

    /// A benchmark named `name` over `sizes`, with `rounds` rounds per size
    /// and no measurement yet.
    pub fn with_rounds(name: &str, sizes: Vec<usize>, rounds: u64) -> (b: Self)
        ensures
            b.wf(),
            b.spec_name() == name@,
            b.spec_sizes() == sizes@,
            b.spec_rounds() == rounds,
            b.states().len() == 0,
    {
        let b = Benchmark { name: name.to_owned(), runners: Vec::new(), sizes, rounds };
        assert(b.states() =~= Seq::<MeasurementState>::empty());
        b
    }

    /// Attaches a measurement; it runs after those attached before it.
    pub fn add_measurement(&mut self, runner: Measurement<R>)
        requires
            old(self).wf(),
            runner.wf(),
        ensures
            final(self).wf(),
            final(self).spec_name() == old(self).spec_name(),
            final(self).spec_sizes() == old(self).spec_sizes(),
            final(self).spec_rounds() == old(self).spec_rounds(),
            final(self).states() == old(self).states().push(runner@),
            final(self).names() == old(self).names().push(runner.spec_name()),
    {
        self.runners.push(runner);
        assert(self.states() =~= old(self).states().push(runner@));
        assert(self.names() =~= old(self).names().push(runner.spec_name()));
    }

    /// Runs one size: every measurement is set to the size and calibrated,
    /// then sampled once per round in the order they were added, then
    /// reduced to statistics. A failure of one measurement does not stop the
    /// others. Returns one report per measurement, in the same order.
    pub fn benchmark_size(&mut self, index: usize) -> (reports: Vec<Report>)
        requires
            old(self).wf(),
            index < old(self).spec_sizes().len(),
        ensures
            final(self).wf(),
            final(self).spec_name() == old(self).spec_name(),
            final(self).spec_sizes() == old(self).spec_sizes(),
            final(self).spec_rounds() == old(self).spec_rounds(),
            final(self).names() == old(self).names(),
            final(self).states().len() == old(self).states().len(),
            reports@.len() == old(self).states().len(),
            forall|i: int|
                0 <= i < reports@.len() ==> describes(
                    #[trigger] reports@[i],
                    final(self).states()[i],
                    old(self).names()[i],
                    old(self).spec_name(),
                    old(self).spec_sizes()[index as int],
                    old(self).spec_rounds(),
                ),
    {
        let size = self.sizes[index];
        let n = self.runners.len();
        let ghost names = self.names();
        let mut calibrations: Vec<Result<u64, HarnessError>> = Vec::new();
        let mut i: usize = 0;
        while i < n
            invariant
                self.wf(),
                n == self.runners@.len(),
                i <= n,
                self.names() == names,
                self.spec_name() == old(self).spec_name(),
                self.spec_sizes() == old(self).spec_sizes(),
                self.spec_rounds() == old(self).spec_rounds(),
                calibrations@.len() == i,
                forall|j: int|
                    0 <= j < i ==> (#[trigger] self.runners@[j])@ == calibrated_start(
                        calibrations@[j],
                        size,
                    ) && calibration_ok(calibrations@[j], size),
            decreases n - i,
        {
            self.runners[i].initialize_measurement(size);
            let calibration = self.runners[i].estimate_timing();
            calibrations.push(calibration);
            i = i + 1;
        }
        let rounds = self.rounds;
        let ghost mut traces: Seq<Seq<MeasurementState>> = Seq::new(
            n as nat,
            |j: int| seq![self.runners@[j]@],
        );
        let mut round: u64 = 0;
        while round < rounds
            invariant
                self.wf(),
                n == self.runners@.len(),
                n == calibrations@.len(),
                round <= rounds,
                rounds == self.spec_rounds(),
                self.names() == names,
                self.spec_name() == old(self).spec_name(),
                self.spec_sizes() == old(self).spec_sizes(),
                self.spec_rounds() == old(self).spec_rounds(),
                traces.len() == n,
                forall|j: int|
                    0 <= j < n ==> {
                        let t = #[trigger] traces[j];
                        &&& t.len() == round + 1
                        &&& t[0] == calibrated_start(calibrations@[j], size)
                        &&& calibration_ok(calibrations@[j], size)
                        &&& chunk_chain(t)
                        &&& t[round as int] == self.runners@[j]@
                    },
            decreases rounds - round,
        {
            let mut k: usize = 0;
            while k < n
                invariant
                    self.wf(),
                    n == self.runners@.len(),
                    n == calibrations@.len(),
                    k <= n,
                    round < rounds,
                    self.names() == names,
                    self.spec_name() == old(self).spec_name(),
                    self.spec_sizes() == old(self).spec_sizes(),
                    self.spec_rounds() == old(self).spec_rounds(),
                    traces.len() == n,
                    forall|j: int|
                        0 <= j < n ==> {
                            let t = #[trigger] traces[j];
                            &&& t.len() == if j < k {
                                round + 2
                            } else {
                                round + 1
                            }
                            &&& t[0] == calibrated_start(calibrations@[j], size)
                            &&& calibration_ok(calibrations@[j], size)
                            &&& chunk_chain(t)
                            &&& t[t.len() - 1] == self.runners@[j]@
                        },
                decreases n - k,
            {
                let ghost before = self.runners@;
                let _ = self.runners[k].benchmark_chunk();
                proof {
                    let t = traces[k as int];
                    let t2 = t.push(self.runners@[k as int]@);
                    assert(chunk_chain(t2)) by {
                        assert forall|r: int| 0 <= r < t2.len() - 1 implies chunk_step(
                            t2[r],
                            #[trigger] t2[r + 1],
                        ) by {
                            if r < t.len() - 1 {
                                assert(t2[r] == t[r] && t2[r + 1] == t[r + 1]);
                            }
                        }
                    }
                    traces = traces.update(k as int, t2);
                    assert forall|j: int| 0 <= j < n && j != k implies self.runners@[j]
                        == before[j] by {}
                }
                k = k + 1;
            }
            round = round + 1;
        }
        let mut reports: Vec<Report> = Vec::new();
        let mut k: usize = 0;
        while k < n
            invariant
                self.wf(),
                n == self.runners@.len(),
                n == calibrations@.len(),
                k <= n,
                rounds == self.spec_rounds(),
                self.names() == names,
                self.spec_name() == old(self).spec_name(),
                self.spec_sizes() == old(self).spec_sizes(),
                self.spec_rounds() == old(self).spec_rounds(),
                index < old(self).spec_sizes().len(),
                size == old(self).spec_sizes()[index as int],
                reports@.len() == k,
                traces.len() == n,
                forall|j: int|
                    k <= j < n ==> {
                        let t = #[trigger] traces[j];
                        &&& t.len() == rounds + 1
                        &&& t[0] == calibrated_start(calibrations@[j], size)
                        &&& calibration_ok(calibrations@[j], size)
                        &&& chunk_chain(t)
                        &&& t[rounds as int] == self.runners@[j]@
                    },
                forall|j: int|
                    0 <= j < k ==> describes(
                        #[trigger] reports@[j],
                        self.runners@[j]@,
                        names[j],
                        old(self).spec_name(),
                        size,
                        rounds,
                    ),
            decreases n - k,
        {
            let ghost before = self.runners@;
            let ghost pre = self.runners@[k as int]@;
            let outcome = self.runners[k].get_final_measurement();
            let report = Report {
                benchmark: self.name.clone(),
                measurement: self.runners[k].name().to_owned(),
                size,
                calibration: calibrations[k],
                outcome,
            };
            proof {
                assert(traces[k as int][rounds as int] == pre);
                assert(size_run(
                    report.calibration,
                    report.outcome,
                    traces[k as int],
                    self.runners@[k as int]@,
                    size,
                    rounds,
                ));
            }
            let ghost earlier = reports@;
            reports.push(report);
            assert forall|j: int| 0 <= j < k + 1 implies describes(
                #[trigger] reports@[j],
                self.runners@[j]@,
                names[j],
                old(self).spec_name(),
                size,
                rounds,
            ) by {
                if j < k {
                    assert(before[j] == self.runners@[j]);
                    assert(earlier[j] == reports@[j]);
                }
            }
            k = k + 1;
        }
        assert(self.states().len() == n);
        reports
    }

    /// Runs every size in the given order, each from a clean state, and
    /// hands the reports of a size to `reporter`, in the order of the
    /// measurements, before the next size starts. Returns the reports it
    /// handed over, one list per size.
    pub fn benchmark<P: Reporter>(&mut self, reporter: &mut P) -> (all: Vec<Vec<Report>>)
        requires
            old(self).wf(),
        ensures
            final(self).wf(),
            final(self).spec_name() == old(self).spec_name(),
            final(self).spec_sizes() == old(self).spec_sizes(),
            final(self).spec_rounds() == old(self).spec_rounds(),
            final(self).names() == old(self).names(),
            final(self).states().len() == old(self).states().len(),
            all@.len() == old(self).spec_sizes().len(),
            forall|s: int|
                0 <= s < all@.len() ==> (#[trigger] all@[s])@.len() == old(self).states().len(),
            forall|s: int, i: int|
                0 <= s < all@.len() && 0 <= i < old(self).states().len() ==> reported(
                    #[trigger] all@[s]@[i],
                    old(self).names()[i],
                    old(self).spec_name(),
                    old(self).spec_sizes()[s],
                    old(self).spec_rounds(),
                ),
    {
        let count = self.sizes.len();
        let mut all: Vec<Vec<Report>> = Vec::new();
        let mut index: usize = 0;
        while index < count
            invariant
                self.wf(),
                count == self.spec_sizes().len(),
                index <= count,
                all@.len() == index,
                self.spec_name() == old(self).spec_name(),
                self.spec_sizes() == old(self).spec_sizes(),
                self.spec_rounds() == old(self).spec_rounds(),
                self.names() == old(self).names(),
                self.states().len() == old(self).states().len(),
                forall|s: int|
                    0 <= s < index ==> (#[trigger] all@[s])@.len() == old(self).states().len(),
                forall|s: int, i: int|
                    0 <= s < index && 0 <= i < old(self).states().len() ==> reported(
                        #[trigger] all@[s]@[i],
                        old(self).names()[i],
                        old(self).spec_name(),
                        old(self).spec_sizes()[s],
                        old(self).spec_rounds(),
                    ),
            decreases count - index,
        {
            let reports = self.benchmark_size(index);
            let mut k: usize = 0;
            while k < reports.len()
                decreases reports.len() - k,
            {
                reporter.report(&reports[k]);
                k = k + 1;
            }
            let ghost states = self.states();
            let ghost earlier = all@;
            all.push(reports);
            proof {
                assert forall|s: int, i: int|
                    0 <= s < index + 1 && 0 <= i < old(self).states().len() implies reported(
                        #[trigger] all@[s]@[i],
                        old(self).names()[i],
                        old(self).spec_name(),
                        old(self).spec_sizes()[s],
                        old(self).spec_rounds(),
                    ) by {
                    if s < index {
                        assert(all@[s] == earlier[s]);
                    } else {
                        assert(describes(
                            all@[s]@[i],
                            states[i],
                            old(self).names()[i],
                            old(self).spec_name(),
                            old(self).spec_sizes()[s],
                            old(self).spec_rounds(),
                        ));
                    }
                }
            }
            index = index + 1;
        }
        all
    }
}

/// A calibration outcome that `estimate_timing` can give at `size`.
pub open spec fn calibration_ok(calibration: Result<u64, HarnessError>, size: usize) -> bool {
    &&& (size == 0 <==> calibration == Err::<u64, HarnessError>(HarnessError::NotInitialized))
    &&& (calibration matches Ok(reps) ==> reps >= 1)
    &&& (calibration matches Err(e) ==> e == HarnessError::NotInitialized || e
        == HarnessError::NoParams || e == HarnessError::CalibrationExhausted)
}

} // verus!

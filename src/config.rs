use vstd::prelude::*;

verus! {

/// Default minimum running time of a timed batch: 100 ms, in nanoseconds.
pub const MINIMUM_RUNNING_TIME: u64 = 100_000_000;

/// Default time budget of one chunk: 5 s, in nanoseconds.
pub const CHUNK_TIME: u64 = 5_000_000_000;

/// Default number of interleaved collection rounds per size.
pub const ROUNDS: u64 = 5;

/// Default sampling time between two convergence checks: 3 s, in nanoseconds.
pub const VARIANCE_TEST_RUNTIME: u64 = 3_000_000_000;

/// Tunable thresholds and budgets of the harness, all times in nanoseconds.
#[derive(Clone, Copy, Debug)]
pub struct Config {
    /// A batch must run longer than this to count as clear of timer noise.
    pub minimum_running_time: u64,
    /// A chunk keeps appending batches until this much time has passed.
    pub chunk_time: u64,
    /// Interleaved collection rounds per size in a benchmark.
    pub rounds: u64,
    /// Sampling time between two convergence checks.
    pub variance_test_runtime: u64,
}

impl Config {
    /// A usable configuration: a positive threshold, and at least one batch
    /// between two convergence checks.
    pub open spec fn wf(&self) -> bool {
        &&& self.minimum_running_time > 0
        &&& self.variance_test_runtime >= self.minimum_running_time
    }

    /// The compiled-in defaults.
    pub open spec fn spec_standard() -> Config {
        Config {
            minimum_running_time: MINIMUM_RUNNING_TIME,
            chunk_time: CHUNK_TIME,
            rounds: ROUNDS,
            variance_test_runtime: VARIANCE_TEST_RUNTIME,
        }
    }

    /// The compiled-in defaults.
    pub fn standard() -> (c: Config)
        ensures
            c.wf(),
            c == Config::spec_standard(),
    {
        Config {
            minimum_running_time: MINIMUM_RUNNING_TIME,
            chunk_time: CHUNK_TIME,
            rounds: ROUNDS,
            variance_test_runtime: VARIANCE_TEST_RUNTIME,
        }
    }

    /// Number of batches sampled between two convergence checks.
    pub fn batches_per_check(&self) -> (n: u64)
        requires
            self.wf(),
        ensures
            n == self.variance_test_runtime / self.minimum_running_time,
            n >= 1,
    {
        let n = self.variance_test_runtime / self.minimum_running_time;
        assert(n >= 1) by (nonlinear_arith)
            requires
                n == self.variance_test_runtime / self.minimum_running_time,
                self.variance_test_runtime >= self.minimum_running_time,
                self.minimum_running_time > 0,
        ;
        n
    }
}

} // verus!

use std::time::Instant;

use bench_harness::config::Config;
use bench_harness::error::HarnessError;
use bench_harness::measure::{continue_chunk, Measurement, Runnable};
use bench_harness::stats::MAX_SAMPLES;

/// An operation that spins for a fixed number of nanoseconds per call.
struct Spin {
    cost_ns: u64,
}

impl Runnable for Spin {
    type Context = ();
    type Param = u64;

    fn create_context(&self, _size: usize) {}

    fn prepare_params(&self, number: usize, _size: usize) -> Vec<u64> {
        vec![self.cost_ns; number]
    }

    fn execute(&self, _context: &(), param: &u64) {
        let start = Instant::now();
        while start.elapsed().as_nanos() < *param as u128 {
            std::hint::spin_loop();
        }
    }
}

/// A runner that prepares no parameter.
struct Empty;

impl Runnable for Empty {
    type Context = ();
    type Param = u64;

    fn create_context(&self, _size: usize) {}

    fn prepare_params(&self, _number: usize, _size: usize) -> Vec<u64> {
        Vec::new()
    }

    fn execute(&self, _context: &(), _param: &u64) {}
}

fn small_config() -> Config {
    Config {
        minimum_running_time: 1_000_000,
        chunk_time: 10_000_000,
        rounds: 2,
        variance_test_runtime: 4_000_000,
    }
}

#[test]
fn statistics_rejected_right_after_initialize() {
    let mut m = Measurement::with_config("spin", Spin { cost_ns: 100 }, small_config());
    m.initialize_measurement(64);
    assert_eq!(m.get_final_measurement(), Err(HarnessError::NotCalibrated));
}

#[test]
fn statistics_rejected_after_calibration_without_chunks() {
    let mut m = Measurement::with_config("spin", Spin { cost_ns: 100 }, small_config());
    m.initialize_measurement(64);
    let reps = m.estimate_timing().unwrap();
    assert!(reps >= 1);
    assert_eq!(m.repetitions(), reps);
    assert_eq!(m.get_final_measurement(), Err(HarnessError::TooFewSamples));
}

#[test]
fn calibration_before_initialize_is_rejected() {
    let mut m = Measurement::with_config("spin", Spin { cost_ns: 100 }, small_config());
    assert_eq!(m.estimate_timing(), Err(HarnessError::NotInitialized));
    assert_eq!(m.repetitions(), 0);
}

#[test]
fn chunk_before_calibration_is_rejected() {
    let mut m = Measurement::with_config("spin", Spin { cost_ns: 100 }, small_config());
    m.initialize_measurement(64);
    assert_eq!(m.benchmark_chunk(), Err(HarnessError::NotCalibrated));
    assert!(m.samples().is_empty());
}

#[test]
fn runner_without_params_is_reported() {
    let mut m = Measurement::with_config("empty", Empty, small_config());
    m.initialize_measurement(8);
    assert_eq!(m.estimate_timing(), Err(HarnessError::NoParams));
    assert_eq!(m.repetitions(), 0);
}

#[test]
fn calibration_targets_the_threshold() {
    let mut m = Measurement::with_config("spin", Spin { cost_ns: 1000 }, small_config());
    m.initialize_measurement(16);
    let reps = m.estimate_timing().unwrap();
    // about 1 ms of 1 us calls; the spin takes at least its cost
    assert!(reps >= 1 && reps <= 1000, "repetitions {}", reps);
}

#[test]
fn chunks_append_and_keep_earlier_samples() {
    let mut m = Measurement::with_config("spin", Spin { cost_ns: 1000 }, small_config());
    m.initialize_measurement(16);
    m.estimate_timing().unwrap();
    let first = m.benchmark_chunk().unwrap();
    assert!(first >= 1);
    assert_eq!(m.samples().len(), first);
    let before = m.samples().clone();
    let second = m.benchmark_chunk().unwrap();
    assert!(second >= 1);
    assert_eq!(m.samples().len(), first + second);
    assert_eq!(&m.samples()[..first], &before[..]);
    // a chunk of 10 ms with batches of about 1 ms
    assert!(first <= 12, "samples in one chunk: {}", first);
}

#[test]
fn final_measurement_sorts_samples() {
    let mut m = Measurement::with_config("spin", Spin { cost_ns: 1000 }, small_config());
    m.initialize_measurement(16);
    m.estimate_timing().unwrap();
    m.benchmark_chunk().unwrap();
    m.benchmark_chunk().unwrap();
    let st = m.get_final_measurement().unwrap();
    let s = m.samples();
    assert!(s.windows(2).all(|w| w[0] <= w[1]));
    assert!(st.min <= st.central && st.central <= st.max);
    assert!(st.central >= 1_000_000, "central {}", st.central);
}

#[test]
fn initialize_drops_samples_of_earlier_size() {
    let mut m = Measurement::with_config("spin", Spin { cost_ns: 500 }, small_config());
    m.initialize_measurement(16);
    m.estimate_timing().unwrap();
    m.benchmark_chunk().unwrap();
    assert!(!m.samples().is_empty());
    m.initialize_measurement(32);
    assert!(m.samples().is_empty());
    assert_eq!(m.repetitions(), 0);
    assert_eq!(m.name(), "spin");
}

#[test]
fn chunk_rule_on_fixed_cost_batches() {
    // batches of 10 calls of 3 ns against a 1000 ns budget
    let budget = 1000;
    let batch = 10 * 3;
    let mut taken: usize = 0;
    loop {
        taken += 1;
        if !continue_chunk(budget, taken as u64 * batch, taken) {
            break;
        }
    }
    assert_eq!(taken as u64, budget / batch + 1);
    assert_eq!(taken, 34);
}

#[test]
fn chunk_rule_stops_when_list_is_full() {
    assert!(continue_chunk(1000, 0, MAX_SAMPLES - 1));
    assert!(!continue_chunk(1000, 0, MAX_SAMPLES));
    assert!(continue_chunk(1000, 1000, 0));
    assert!(!continue_chunk(1000, 1001, 0));
}

use std::time::Instant;

use bench_harness::benchmark::{Benchmark, Report, Reporter};
use bench_harness::config::Config;
use bench_harness::error::HarnessError;
use bench_harness::measure::{Measurement, Runnable};

/// An operation that spins for a fixed number of nanoseconds per call.
struct Fixed {
    cost_ns: u64,
}

impl Runnable for Fixed {
    type Context = usize;
    type Param = u64;

    fn create_context(&self, size: usize) -> usize {
        size
    }

    fn prepare_params(&self, number: usize, _size: usize) -> Vec<u64> {
        vec![self.cost_ns; number]
    }

    fn execute(&self, _context: &usize, param: &u64) {
        let start = Instant::now();
        while start.elapsed().as_nanos() < *param as u128 {
            std::hint::spin_loop();
        }
    }
}

/// A runner that prepares no parameter.
struct Broken;

impl Runnable for Broken {
    type Context = ();
    type Param = u64;

    fn create_context(&self, _size: usize) {}

    fn prepare_params(&self, _number: usize, _size: usize) -> Vec<u64> {
        Vec::new()
    }

    fn execute(&self, _context: &(), _param: &u64) {}
}

struct Collect {
    reports: Vec<Report>,
}

impl Reporter for Collect {
    fn report(&mut self, report: &Report) {
        self.reports.push(Report {
            benchmark: report.benchmark.clone(),
            measurement: report.measurement.clone(),
            size: report.size,
            calibration: report.calibration,
            outcome: report.outcome,
        });
    }
}

fn small_config() -> Config {
    Config {
        minimum_running_time: 1_000_000,
        chunk_time: 20_000_000,
        rounds: 2,
        variance_test_runtime: 4_000_000,
    }
}

#[test]
fn two_fixed_cost_runners_are_told_apart() {
    let mut b = Benchmark::with_rounds("Fixed", vec![64], 2);
    b.add_measurement(Measurement::with_config("A", Fixed { cost_ns: 100 }, small_config()));
    b.add_measurement(Measurement::with_config("B", Fixed { cost_ns: 1000 }, small_config()));
    let reports = b.benchmark_size(0);
    assert_eq!(reports.len(), 2);
    assert_eq!(reports[0].measurement, "A");
    assert_eq!(reports[1].measurement, "B");
    let a = reports[0].outcome.unwrap();
    let bb = reports[1].outcome.unwrap();
    // picoseconds per call: the spin takes its cost plus clock overhead
    assert!(a.central >= 100_000 && a.central < 400_000, "A central {}", a.central);
    assert!(bb.central >= 1_000_000 && bb.central < 1_400_000, "B central {}", bb.central);
    assert!(bb.central > 3 * a.central);
    assert!(a.relative_ppm.unwrap() < 500_000, "A relative {:?}", a.relative_ppm);
    assert!(bb.relative_ppm.unwrap() < 500_000, "B relative {:?}", bb.relative_ppm);
}

#[test]
fn sizes_run_in_order_from_a_clean_state() {
    let mut b = Benchmark::with_rounds("Order", vec![16, 32], 2);
    b.add_measurement(Measurement::with_config("A", Fixed { cost_ns: 500 }, small_config()));
    b.add_measurement(Measurement::with_config("B", Fixed { cost_ns: 800 }, small_config()));
    let mut sink = Collect { reports: Vec::new() };
    let all = b.benchmark(&mut sink);
    assert_eq!(all.len(), 2);
    assert_eq!(all[0].len(), 2);
    assert_eq!(all[1].len(), 2);
    assert_eq!(all[0][1].measurement, "B");
    assert_eq!(all[1][0].size, 32);
    let seen: Vec<(usize, String)> =
        sink.reports.iter().map(|r| (r.size, r.measurement.clone())).collect();
    assert_eq!(
        seen,
        vec![
            (16, "A".to_string()),
            (16, "B".to_string()),
            (32, "A".to_string()),
            (32, "B".to_string()),
        ]
    );
    for r in &sink.reports {
        assert_eq!(r.benchmark, "Order");
        assert!(r.calibration.unwrap() >= 1);
        assert!(r.outcome.is_ok());
    }
}

#[test]
fn benchmark_defaults() {
    let b: Benchmark<Fixed> = Benchmark::new("Defaults", vec![1, 2, 3]);
    drop(b);
    let m = Measurement::new("m", Fixed { cost_ns: 1 });
    assert_eq!(m.name(), "m");
    assert_eq!(m.repetitions(), 0);
    assert!(m.samples().is_empty());
}

#[test]
fn failed_calibration_is_reported_and_does_not_stop_the_series() {
    let mut b = Benchmark::with_rounds("Broken", vec![8, 16], 3);
    b.add_measurement(Measurement::with_config("x", Broken, small_config()));
    b.add_measurement(Measurement::with_config("y", Broken, small_config()));
    let reports = b.benchmark_size(1);
    assert_eq!(reports.len(), 2);
    for r in &reports {
        assert_eq!(r.size, 16);
        assert_eq!(r.calibration, Err(HarnessError::NoParams));
        assert_eq!(r.outcome, Err(HarnessError::NotCalibrated));
    }
}

#[test]
fn size_zero_is_not_calibrated() {
    let mut b = Benchmark::with_rounds("Zero", vec![0], 2);
    b.add_measurement(Measurement::with_config("z", Fixed { cost_ns: 10 }, small_config()));
    let reports = b.benchmark_size(0);
    assert_eq!(reports[0].calibration, Err(HarnessError::NotInitialized));
    assert_eq!(reports[0].outcome, Err(HarnessError::NotCalibrated));
}

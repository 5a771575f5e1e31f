use bench_harness::config::Config;
use bench_harness::convergence::ConvergenceTracker;
use bench_harness::error::HarnessError;
use bench_harness::runner::Runner;
use bench_harness::stats::Spread;

#[test]
fn noiseless_batches_converge_at_third_check() {
    let mut t = ConvergenceTracker::new();
    assert_eq!(t.add_batch(vec![500; 30]), None);
    assert_eq!(t.add_batch(vec![500; 30]), None);
    assert_eq!(t.add_batch(vec![500; 30]), Some(Spread { mean: 500, variance: 0 }));
    assert_eq!(t.sample_count(), 90);
}

#[test]
fn too_few_samples_record_no_check() {
    let mut t = ConvergenceTracker::new();
    assert_eq!(t.add_batch(vec![1, 2]), None);
    assert_eq!(t.add_batch(vec![3]), None);
    assert_eq!(t.add_batch(vec![4]), None);
    assert_eq!(t.add_batch(vec![5, 5]), None);
    assert_eq!(t.add_batch(vec![5, 5]), Some(Spread { mean: 4, variance: 1 }));
}

#[test]
fn changing_spread_does_not_converge() {
    let mut t = ConvergenceTracker::new();
    assert_eq!(t.add_batch(vec![10, 20, 30, 40]), None);
    assert_eq!(t.add_batch(vec![1000, 2000, 3000, 4000]), None);
    assert_eq!(t.add_batch(vec![100_000, 200_000, 300_000, 400_000]), None);
}

#[test]
fn stable_within_one_percent_converges() {
    let mut t = ConvergenceTracker::new();
    // copies of one batch change the trimmed variance by less than 1%
    let batch: Vec<u64> = (0..100).collect();
    assert_eq!(t.add_batch(batch.clone()), None);
    assert_eq!(t.add_batch(batch.clone()), None);
    let r = t.add_batch(batch.clone());
    assert!(r.is_some());
}

#[test]
fn zero_timing_is_rejected() {
    let r = Runner::new(|| {});
    assert_eq!(r.estimate_mean_deviation(0), Err(HarnessError::ZeroTiming));
}

#[test]
fn runner_calibration_finds_a_time_per_call() {
    let config = Config {
        minimum_running_time: 1_000_000,
        chunk_time: 10_000_000,
        rounds: 2,
        variance_test_runtime: 4_000_000,
    };
    let r = Runner::with_config(
        || {
            let start = std::time::Instant::now();
            while start.elapsed().as_nanos() < 2000 {
                std::hint::spin_loop();
            }
        },
        config,
    );
    let t = r.estimate_timing().unwrap();
    assert!(t >= 1000, "time per call {}", t);
}

use bench_harness::calibration::{calibration_step, repetitions_per_batch, CalibrationStep};
use bench_harness::config::{Config, CHUNK_TIME, MINIMUM_RUNNING_TIME, ROUNDS, VARIANCE_TEST_RUNTIME};

#[test]
fn step_clears_above_threshold() {
    assert_eq!(calibration_step(100, 4, 101), CalibrationStep::Cleared);
}

#[test]
fn step_doubles_at_or_below_threshold() {
    assert_eq!(calibration_step(100, 4, 100), CalibrationStep::Double(8));
    assert_eq!(calibration_step(100, 1, 0), CalibrationStep::Double(2));
}

#[test]
fn step_is_exhausted_when_repetitions_cannot_double() {
    assert_eq!(calibration_step(100, u64::MAX / 2 + 1, 5), CalibrationStep::Exhausted);
    assert_eq!(calibration_step(100, u64::MAX / 2, 5), CalibrationStep::Double(u64::MAX - 1));
}

#[test]
fn repetitions_per_batch_rounds_up() {
    assert_eq!(repetitions_per_batch(1000, 256, 1792), 143);
    assert_eq!(repetitions_per_batch(1000, 8, 2000), 4);
    assert_eq!(repetitions_per_batch(1, 1, u64::MAX), 1);
}

/// A runner whose batch of `r` calls takes exactly `7 * r` ns: the search
/// from one repetition stops at 256, and the per-call time is exactly 7.
#[test]
fn fixed_cost_search_scenario() {
    let threshold = 1000;
    let cost = 7;
    let mut reps = 1;
    let mut steps = 0;
    loop {
        let elapsed = reps * cost;
        match calibration_step(threshold, reps, elapsed) {
            CalibrationStep::Cleared => break,
            CalibrationStep::Double(next) => reps = next,
            CalibrationStep::Exhausted => panic!("search exhausted"),
        }
        steps += 1;
    }
    assert_eq!(reps, 256);
    assert_eq!(steps, 8);
    let elapsed = reps * cost;
    assert!(elapsed > threshold && elapsed <= 2 * threshold);
    assert_eq!(elapsed / reps, cost);
    let per_batch = repetitions_per_batch(threshold, reps, elapsed);
    assert_eq!(per_batch, 143);
    assert!(per_batch >= 1);
}

#[test]
fn standard_config_values() {
    let c = Config::standard();
    assert_eq!(c.minimum_running_time, 100_000_000);
    assert_eq!(c.chunk_time, 5_000_000_000);
    assert_eq!(c.rounds, 5);
    assert_eq!(c.variance_test_runtime, 3_000_000_000);
    assert_eq!(c.minimum_running_time, MINIMUM_RUNNING_TIME);
    assert_eq!(c.chunk_time, CHUNK_TIME);
    assert_eq!(c.rounds, ROUNDS);
    assert_eq!(c.variance_test_runtime, VARIANCE_TEST_RUNTIME);
    assert_eq!(c.batches_per_check(), 30);
}

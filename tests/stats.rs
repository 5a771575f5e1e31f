use bench_harness::stats::{
    spread_root_u128, floor_sqrt_u128, per_call_estimate, sort_samples, summarize, trimmed_spread, Spread,
    Statistics, MAX_SAMPLES, MAX_SAMPLE_NANOS,
};

#[test]
fn floor_sqrt_rounds_down() {
    assert_eq!(floor_sqrt_u128(0), 0);
    assert_eq!(floor_sqrt_u128(1), 1);
    assert_eq!(floor_sqrt_u128(15), 3);
    assert_eq!(floor_sqrt_u128(16), 4);
    assert_eq!(floor_sqrt_u128(1_000_000_000_000), 1_000_000);
    assert_eq!(floor_sqrt_u128(200_000_000), 14142);
}

#[test]
fn sort_samples_orders_ascending() {
    let mut v = vec![30, 10, 20, 10, 5];
    sort_samples(&mut v);
    assert_eq!(v, vec![5, 10, 10, 20, 30]);
}

#[test]
fn summarize_exact_values() {
    let sorted = vec![100, 200, 300, 400];
    let st = summarize(&sorted, 10);
    assert_eq!(
        st,
        Statistics {
            central: 30_000,
            deviation: 14_143,
            relative_ppm: Some(471_433),
            min: 10_000,
            max: 40_000,
        }
    );
}

#[test]
fn summarize_of_equal_samples_has_no_spread() {
    let sorted = vec![700, 700, 700];
    let st = summarize(&sorted, 7);
    assert_eq!(st.central, 100_000);
    assert_eq!(st.deviation, 0);
    assert_eq!(st.relative_ppm, Some(0));
    assert_eq!(st.min, 100_000);
    assert_eq!(st.max, 100_000);
}

#[test]
fn summarize_below_one_picosecond_has_no_relative_deviation() {
    let sorted = vec![1, 1];
    let st = summarize(&sorted, 5000);
    assert_eq!(st.central, 0);
    assert_eq!(st.relative_ppm, None);
}

#[test]
fn summarize_accepts_largest_samples() {
    let sorted = vec![0, MAX_SAMPLE_NANOS];
    let st = summarize(&sorted, 1);
    assert_eq!(st.central, MAX_SAMPLE_NANOS * 1000);
    assert_eq!(st.min, 0);
    // squared deviation (2^40)^2 over one degree of freedom, scaled by 10^6
    assert_eq!(st.deviation, MAX_SAMPLE_NANOS * 1000);
}

#[test]
fn trimmed_spread_uses_middle_half() {
    let s = vec![1, 2, 3, 4, 5, 6, 7, 8];
    let sp = trimmed_spread(&s);
    assert_eq!(sp, Spread { mean: 4, variance: 2 });
}

#[test]
fn trimmed_spread_ignores_outliers() {
    let s = vec![0, 50, 50, 1_000_000];
    let sp = trimmed_spread(&s);
    assert_eq!(sp, Spread { mean: 50, variance: 0 });
}

#[test]
fn per_call_estimate_exact_values() {
    let est = per_call_estimate(Spread { mean: 1000, variance: 400 }, 10);
    assert_eq!(est.mean, 100_000);
    assert_eq!(est.deviation, 2000);
}

#[test]
fn sample_bounds() {
    assert_eq!(MAX_SAMPLES, 65536);
    assert_eq!(MAX_SAMPLE_NANOS, 1u64 << 40);
}

#[test]
fn summarize_any_spread_gives_nonzero_deviation() {
    let sorted = vec![100_000_000, 100_000_001];
    let st = summarize(&sorted, 10_000);
    assert_eq!(st.central, 10_000_000);
    assert_eq!(st.deviation, 1);
}

#[test]
fn spread_root_rounds_up() {
    assert_eq!(spread_root_u128(0, 7, 9), 0);
    assert_eq!(spread_root_u128(1, 1000, 1000), 1);
    assert_eq!(spread_root_u128(16, 1, 1), 4);
    assert_eq!(spread_root_u128(17, 1, 1), 5);
    assert_eq!(spread_root_u128(200_000_000, 1, 1), 14_143);
    assert_eq!(spread_root_u128(5, u128::MAX, 2), 1);
}

#[test]
fn trimmed_variance_rounds_up() {
    let s = vec![0, 1, 2, 3];
    // middle half is [1, 2]: mean 1, squared distances 1, over one
    let sp = trimmed_spread(&s);
    assert_eq!(sp, Spread { mean: 1, variance: 1 });
    let t = vec![1, 1, 1, 2, 2, 2, 2, 2];
    // middle half is [1, 2, 2, 2]: mean 1, squared distances 3, over three
    assert_eq!(trimmed_spread(&t), Spread { mean: 1, variance: 1 });
}

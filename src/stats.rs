use vstd::prelude::*;
use vstd::relations::sorted_by;
use vstd::relations::total_ordering;
use vstd::arithmetic::div_mod::lemma_basic_div;
use vstd::arithmetic::div_mod::lemma_div_is_ordered_by_denominator;
use vstd::arithmetic::div_mod::lemma_fundamental_div_mod;
use vstd::arithmetic::div_mod::lemma_fundamental_div_mod_converse_div;
use vstd::seq_lib::lemma_sorted_unique;

verus! {

/// Largest raw sample, in nanoseconds per batch, that the reductions accept
/// (about 18 minutes).
pub const MAX_SAMPLE_NANOS: u64 = 0x100_0000_0000;

/// Largest number of samples a sample list may hold.
pub const MAX_SAMPLES: usize = 65536;

/// Picoseconds in a nanosecond: the fixed-point scale of all summaries.
pub const PICOS_PER_NANO: u64 = 1000;

/// Square root of `SQRT_LIMIT`.
pub const SQRT_LIMIT_ROOT: u128 = 0x1000_0000_0000_0000;

/// Bound on the argument of `floor_sqrt_u128`: 2 to the 120th.
pub const SQRT_LIMIT: u128 = 0x100_0000_0000_0000_0000_0000_0000_0000;

/// The order that sample lists are sorted by.
pub open spec fn ascending() -> spec_fn(u64, u64) -> bool {
    |a: u64, b: u64| a <= b
}

/// `s` sorted in ascending order.
pub open spec fn sorted_samples(s: Seq<u64>) -> Seq<u64> {
    s.sort_by(ascending())
}

/// Every sample of `s` is within the range the reductions accept.
pub open spec fn samples_in_range(s: Seq<u64>) -> bool {
    forall|i: int| 0 <= i < s.len() ==> #[trigger] s[i] <= MAX_SAMPLE_NANOS
}

/// Sum of the values of `s`.
pub open spec fn sum_of(s: Seq<u64>) -> int
    decreases s.len(),
{
    if s.len() == 0 {
        0
    } else {
        sum_of(s.drop_last()) + s.last()
    }
}

/// Sum of the squared distances of the values of `s` from `center`.
pub open spec fn squared_deviations(s: Seq<u64>, center: int) -> int
    decreases s.len(),
{
    if s.len() == 0 {
        0
    } else {
        squared_deviations(s.drop_last(), center) + (s.last() - center) * (s.last() - center)
    }
}

/// `r` is the integer square root of `x`, rounded down.
pub open spec fn is_floor_sqrt(r: int, x: int) -> bool {
    &&& r >= 0
    &&& r * r <= x
    &&& x < (r + 1) * (r + 1)
}

/// The integer square root of `x`, rounded down.
pub open spec fn floor_sqrt(x: int) -> int {
    choose|r: int| is_floor_sqrt(r, x)
}

/// The integer square root of `x`, rounded up.
pub open spec fn ceil_sqrt(x: int) -> int {
    if floor_sqrt(x) * floor_sqrt(x) == x {
        floor_sqrt(x)
    } else {
        floor_sqrt(x) + 1
    }
}

/// `sqrt(num / den)` rounded up at both steps, so that it is zero exactly
/// when `num` is.
pub open spec fn spread_root(num: int, den: int) -> int {
    if num == 0 {
        0
    } else {
        ceil_sqrt((num + den - 1) / den)
    }
}

/// Cost of one operation in picoseconds, rounded down, for a batch of
/// `repetitions` operations that took `batch` nanoseconds.
pub open spec fn per_operation(batch: int, repetitions: int) -> int {
    batch * PICOS_PER_NANO / repetitions
}

/// A floor square root is unique.
pub proof fn lemma_floor_sqrt_unique(r: int, x: int)
    requires
        is_floor_sqrt(r, x),
    ensures
        floor_sqrt(x) == r,
{
    let c = floor_sqrt(x);
    assert(is_floor_sqrt(c, x));
    if c < r {
        assert((c + 1) * (c + 1) <= r * r) by (nonlinear_arith)
            requires
                0 <= c < r,
        ;
    } else if c > r {
        assert((r + 1) * (r + 1) <= c * c) by (nonlinear_arith)
            requires
                0 <= r < c,
        ;
    }
}

/// The order of samples is a total order.
pub proof fn lemma_ascending_total()
    ensures
        total_ordering(ascending()),
{
    reveal(total_ordering);
}

/// A sorted rearrangement of `s` is `sorted_samples(s)`.
pub proof fn lemma_sorted_is_sorted_samples(s: Seq<u64>, t: Seq<u64>)
    requires
        sorted_by(t, ascending()),
        t.to_multiset() == s.to_multiset(),
    ensures
        t == sorted_samples(s),
{
    lemma_ascending_total();
    s.lemma_sort_by_ensures(ascending());
    lemma_sorted_unique(t, sorted_samples(s), ascending());
}

/// Sorting orders a sample list and keeps its length and range.
pub proof fn lemma_sorting_keeps_range(s: Seq<u64>)
    requires
        samples_in_range(s),
    ensures
        sorted_by(sorted_samples(s), ascending()),
        samples_in_range(sorted_samples(s)),
        sorted_samples(s).len() == s.len(),
{
    broadcast use vstd::seq_lib::group_to_multiset_ensures;

    lemma_ascending_total();
    s.lemma_sort_by_ensures(ascending());
    let t = sorted_samples(s);
    assert forall|i: int| 0 <= i < t.len() implies #[trigger] t[i] <= MAX_SAMPLE_NANOS by {
        assert(t.contains(t[i]));
        assert(s.contains(t[i]));
    }
    assert(t.len() == t.to_multiset().len());
    assert(s.len() == s.to_multiset().len());
}

/// Relies on `slice::sort_unstable`: afterwards the samples are in ascending
/// order and are the same samples as before.
#[verifier::external_body]
fn sort_unstable_u64(v: &mut Vec<u64>)
    ensures
        sorted_by(final(v)@, ascending()),
        final(v)@.to_multiset() == old(v)@.to_multiset(),
{
    v.sort_unstable()
}

/// Sorts a sample list in ascending order.
pub fn sort_samples(v: &mut Vec<u64>)
    ensures
        final(v)@ == sorted_samples(old(v)@),
{
    sort_unstable_u64(v);
    proof {
        lemma_sorted_is_sorted_samples(old(v)@, v@);
    }
}

/// Integer square root, rounded down.
pub fn floor_sqrt_u128(x: u128) -> (r: u64)
    requires
        x < SQRT_LIMIT,
    ensures
        r == floor_sqrt(x as int),
        is_floor_sqrt(r as int, x as int),
        r < SQRT_LIMIT_ROOT,
{
    let mut lo: u128 = 0;
    let mut hi: u128 = SQRT_LIMIT_ROOT;
    while hi - lo > 1
        invariant
            lo < hi <= SQRT_LIMIT_ROOT,
            lo * lo <= x,
            x < hi * hi,
        decreases hi - lo,
    {
        let mid = lo + (hi - lo) / 2;
        assert(mid * mid <= SQRT_LIMIT) by (nonlinear_arith)
            requires
                mid <= SQRT_LIMIT_ROOT,
                SQRT_LIMIT_ROOT * SQRT_LIMIT_ROOT == SQRT_LIMIT,
        ;
        if mid * mid <= x {
            lo = mid;
        } else {
            hi = mid;
        }
    }
    proof {
        lemma_floor_sqrt_unique(lo as int, x as int);
    }
    assert(is_floor_sqrt(lo as int, x as int));
    lo as u64
}

/// `sqrt(num / (a * b))`, rounded up at both steps.
pub fn spread_root_u128(num: u128, a: u128, b: u128) -> (r: u64)
    requires
        num < SQRT_LIMIT,
        a >= 1,
        b >= 1,
    ensures
        r == spread_root(num as int, a * b),
        r == 0 <==> num == 0,
{
    if num == 0 {
        return 0;
    }
    assert(a * b >= 1) by (nonlinear_arith)
        requires
            a >= 1,
            b >= 1,
    ;
    let ghost den: int = a * b;
    let q: u128 = match a.checked_mul(b) {
        Some(d) => {
            let f = num / d;
            let rem = num % d;
            proof {
                lemma_fundamental_div_mod(num as int, d as int);
            }
            if rem == 0 {
                proof {
                    lemma_fundamental_div_mod_converse_div(num + d - 1, d as int, f as int, d - 1);
                }
                f
            } else {
                proof {
                    assert(num + d - 1 == (f + 1) * d + (rem - 1)) by (nonlinear_arith)
                        requires
                            num == d * f + rem,
                    ;
                    lemma_fundamental_div_mod_converse_div(num + d - 1, d as int, f + 1, rem - 1);
                    assert(f < num) by (nonlinear_arith)
                        requires
                            num == d * f + rem,
                            rem > 0,
                            d >= 1,
                    ;
                }
                f + 1
            }
        },
        None => {
            proof {
                lemma_fundamental_div_mod_converse_div(num + den - 1, den, 1, num - 1);
            }
            1
        },
    };
    assert(1 <= q <= num) by (nonlinear_arith)
        requires
            q == (num + den - 1) / den,
            num >= 1,
            den >= 1,
    ;
    let r = floor_sqrt_u128(q);
    assert(r == 0 ==> r as u128 * r as u128 == 0);
    if r as u128 * r as u128 == q {
        r
    } else {
        r + 1
    }
}

/// Largest squared distance between two accepted samples.
pub const MAX_SQUARED_NANOS: u128 = 0x1_0000_0000_0000_0000_0000;

/// Sum of `s[lo..hi]`.
fn window_sum(s: &Vec<u64>, lo: usize, hi: usize) -> (r: u128)
    requires
        lo <= hi <= s.len(),
        hi - lo <= MAX_SAMPLES,
        samples_in_range(s@),
    ensures
        r == sum_of(s@.subrange(lo as int, hi as int)),
        r <= (hi - lo) * MAX_SAMPLE_NANOS,
{
    let mut acc: u128 = 0;
    let mut i = lo;
    while i < hi
        invariant
            lo <= i <= hi <= s.len(),
            hi - lo <= MAX_SAMPLES,
            samples_in_range(s@),
            acc == sum_of(s@.subrange(lo as int, i as int)),
            acc <= (i - lo) * MAX_SAMPLE_NANOS,
        decreases hi - i,
    {
        assert(s@.subrange(lo as int, i + 1).drop_last() == s@.subrange(lo as int, i as int));
        assert(s[i as int] <= MAX_SAMPLE_NANOS);
        acc = acc + s[i] as u128;
        i = i + 1;
    }
    acc
}

/// Sum of the squared distances of `s[lo..hi]` from `center`.
fn window_squared_deviations(s: &Vec<u64>, lo: usize, hi: usize, center: u64) -> (r: u128)
    requires
        lo <= hi <= s.len(),
        hi - lo <= MAX_SAMPLES,
        samples_in_range(s@),
        center <= MAX_SAMPLE_NANOS,
    ensures
        r == squared_deviations(s@.subrange(lo as int, hi as int), center as int),
        r <= (hi - lo) * MAX_SQUARED_NANOS,
{
    let mut acc: u128 = 0;
    let mut i = lo;
    while i < hi
        invariant
            lo <= i <= hi <= s.len(),
            hi - lo <= MAX_SAMPLES,
            samples_in_range(s@),
            center <= MAX_SAMPLE_NANOS,
            acc == squared_deviations(s@.subrange(lo as int, i as int), center as int),
            acc <= (i - lo) * MAX_SQUARED_NANOS,
        decreases hi - i,
    {
        assert(s@.subrange(lo as int, i + 1).drop_last() == s@.subrange(lo as int, i as int));
        let x = s[i];
        assert(x <= MAX_SAMPLE_NANOS);
        let d: u128 = if x >= center {
            (x - center) as u128
        } else {
            (center - x) as u128
        };
        assert(d * d <= MAX_SQUARED_NANOS && d * d == (x - center) * (x - center))
            by (nonlinear_arith)
            requires
                d <= MAX_SAMPLE_NANOS,
                d == x - center || d == center - x,
                MAX_SAMPLE_NANOS * MAX_SAMPLE_NANOS == MAX_SQUARED_NANOS,
        ;
        acc = acc + d * d;
        i = i + 1;
    }
    acc
}

/// Summary of a sample list, per operation, in picoseconds.
#[derive(Clone, Copy, Debug, PartialEq, Eq)]
pub struct Statistics {
    /// The median batch time divided by the repetitions.
    pub central: u64,
    /// Sample standard deviation around the median.
    pub deviation: u64,
    /// `deviation / central` in parts per million; none where `central` is 0.
    pub relative_ppm: Option<u128>,
    /// The fastest batch divided by the repetitions.
    pub min: u64,
    /// The slowest batch divided by the repetitions.
    pub max: u64,
}

/// `st` summarizes the ascending sample list `sorted` of batches of
/// `repetitions` operations: its center is the median `sorted[n / 2]`, and its
/// deviation is the square root of the squared distances from it, divided by
/// `n - 1`.
pub open spec fn summarizes(st: Statistics, sorted: Seq<u64>, repetitions: u64) -> bool {
    let n = sorted.len() as int;
    let median = sorted[n / 2] as int;
    &&& st.central == per_operation(median, repetitions as int)
    &&& st.min == per_operation(sorted[0] as int, repetitions as int)
    &&& st.max == per_operation(sorted[n - 1] as int, repetitions as int)
    &&& st.deviation == spread_root(
        squared_deviations(sorted, median) * 1_000_000,
        (n - 1) * repetitions * repetitions,
    )
    &&& (st.deviation == 0 <==> forall|i: int| 0 <= i < n ==> #[trigger] sorted[i] == median)
    &&& st.relative_ppm == if st.central == 0 {
        None::<u128>
    } else {
        Some((st.deviation * 1_000_000 / (st.central as int)) as u128)
    }
}

/// A batch time in picoseconds per operation.
fn scale_down(batch: u64, repetitions: u64) -> (r: u64)
    requires
        batch <= MAX_SAMPLE_NANOS,
        repetitions >= 1,
    ensures
        r == per_operation(batch as int, repetitions as int),
{
    let scaled = batch as u128 * PICOS_PER_NANO as u128;
    proof {
        lemma_div_is_ordered_by_denominator(scaled as int, 1, repetitions as int);
    }
    (scaled / repetitions as u128) as u64
}

/// The squared distances from `center` sum to zero exactly when every
/// value is `center`.
pub proof fn lemma_no_spread_iff_equal(s: Seq<u64>, center: int)
    ensures
        squared_deviations(s, center) >= 0,
        squared_deviations(s, center) == 0 <==> forall|i: int| 0 <= i < s.len() ==> #[trigger] s[i] == center,
    decreases s.len(),
{
    if s.len() > 0 {
        let t = s.drop_last();
        lemma_no_spread_iff_equal(t, center);
        let d = s.last() - center;
        assert(d * d >= 0) by (nonlinear_arith);
        assert(d * d == 0 <==> d == 0) by (nonlinear_arith);
        if squared_deviations(s, center) == 0 {
            assert forall|i: int| 0 <= i < s.len() implies #[trigger] s[i] == center by {
                if i < s.len() - 1 {
                    assert(t[i] == s[i]);
                }
            }
        }
        if forall|i: int| 0 <= i < s.len() ==> #[trigger] s[i] == center {
            assert forall|i: int| 0 <= i < t.len() implies #[trigger] t[i] == center by {
                assert(s[i] == center);
            }
            assert(s[s.len() - 1] == center);
        }
    }
}

/// Reduces an ascending sample list of batches of `repetitions` operations to
/// per-operation statistics.
pub fn summarize(sorted: &Vec<u64>, repetitions: u64) -> (st: Statistics)
    requires
        sorted_by(sorted@, ascending()),
        2 <= sorted.len() <= MAX_SAMPLES,
        repetitions >= 1,
        samples_in_range(sorted@),
    ensures
        summarizes(st, sorted@, repetitions),
{
    let n = sorted.len();
    let median = sorted[n / 2];
    let reps = repetitions as u128;
    assert(median <= MAX_SAMPLE_NANOS);
    assert(sorted[0] <= MAX_SAMPLE_NANOS);
    assert(sorted[n - 1] <= MAX_SAMPLE_NANOS);
    let central = scale_down(median, repetitions);
    let min = scale_down(sorted[0], repetitions);
    let max = scale_down(sorted[n - 1], repetitions);
    assert(sorted@.subrange(0, n as int) == sorted@);
    let squares = window_squared_deviations(sorted, 0, n, median);
    let scaled = squares * 1_000_000;
    assert((n - 1) * reps <= MAX_SAMPLES * u64::MAX && (n - 1) * reps >= 1) by (nonlinear_arith)
        requires
            2 <= n <= MAX_SAMPLES,
            1 <= reps <= u64::MAX,
    ;
    let deviation = spread_root_u128(scaled, (n - 1) as u128 * reps, reps);
    proof {
        lemma_no_spread_iff_equal(sorted@, median as int);
    }
    let relative_ppm = if central == 0 {
        None
    } else {
        Some(deviation as u128 * 1_000_000 / central as u128)
    };
    Statistics { central, deviation, relative_ppm, min, max }
}

/// The middle half of a list of `n` samples: positions `n / 4` up to
/// `3 * (n / 4)`, which drops the lowest and the highest quarter of an
/// ascending list.
pub open spec fn middle_half(s: Seq<u64>) -> Seq<u64> {
    let q = s.len() / 4;
    s.subrange(q as int, 3 * q as int)
}

/// Mean and variance of the middle half of a sample list, in nanoseconds per
/// batch, both rounded down.
#[derive(Clone, Copy, Debug, PartialEq, Eq)]
pub struct Spread {
    /// Mean of the middle half.
    pub mean: u64,
    /// Sum of the squared distances from `mean`, divided by one less than the
    /// number of samples in the middle half.
    pub variance: u128,
}

/// Mean of the middle half of `s`, rounded down.
pub open spec fn trimmed_mean(s: Seq<u64>) -> int {
    sum_of(middle_half(s)) / (middle_half(s).len() as int)
}

/// Variance of the middle half of `s` around its rounded mean, rounded up,
/// so that it is zero exactly when the middle half holds one value.
pub open spec fn trimmed_variance(s: Seq<u64>) -> int {
    let m = middle_half(s).len() - 1;
    (squared_deviations(middle_half(s), trimmed_mean(s)) + m - 1) / m
}

/// `sp` is the spread of the middle half of `s`.
pub open spec fn spreads(sp: Spread, s: Seq<u64>) -> bool {
    &&& sp.mean == trimmed_mean(s)
    &&& sp.variance == trimmed_variance(s)
}

/// Mean and variance of the middle half of a sample list of at least four
/// samples.
pub fn trimmed_spread(s: &Vec<u64>) -> (sp: Spread)
    requires
        4 <= s.len() <= MAX_SAMPLES,
        samples_in_range(s@),
    ensures
        spreads(sp, s@),
        sp.mean <= MAX_SAMPLE_NANOS,
        sp.variance <= 3 * MAX_SQUARED_NANOS,
{
    let q = s.len() / 4;
    let count = 2 * q;
    let sum = window_sum(s, q, 3 * q);
    assert((sum as int) / (count as int) <= MAX_SAMPLE_NANOS) by (nonlinear_arith)
        requires
            sum <= count * MAX_SAMPLE_NANOS,
            count >= 2,
    ;
    let mean = (sum / count as u128) as u64;
    let squares = window_squared_deviations(s, q, 3 * q, mean);
    let floor = squares / (count - 1) as u128;
    assert(floor <= 2 * MAX_SQUARED_NANOS) by (nonlinear_arith)
        requires
            floor == squares / ((count - 1) as u128),
            squares <= count * MAX_SQUARED_NANOS,
            count >= 2,
    ;
    let variance = if squares % (count - 1) as u128 == 0 {
        floor
    } else {
        floor + 1
    };
    proof {
        let m = (count - 1) as int;
        lemma_fundamental_div_mod(squares as int, m);
        if squares % (count - 1) as u128 == 0 {
            lemma_fundamental_div_mod_converse_div(squares + m - 1, m, floor as int, m - 1);
        } else {
            let rem = (squares % (m as u128)) as int;
            assert(squares + m - 1 == (floor + 1) * m + (rem - 1)) by (nonlinear_arith)
                requires
                    squares == m * floor + rem,
            ;
            lemma_fundamental_div_mod_converse_div(
                squares + m - 1,
                m,
                floor + 1,
                squares % (m as u128) - 1,
            );
        }
    }
    Spread { mean, variance }
}

/// Mean and deviation of one operation, in picoseconds.
#[derive(Clone, Copy, Debug, PartialEq, Eq, Structural)]
pub struct Estimate {
    pub mean: u64,
    pub deviation: u64,
}

/// `est` is the spread `sp` of batches of `length` calls, per call.
pub open spec fn estimates(est: Estimate, sp: Spread, length: u64) -> bool {
    &&& est.mean == per_operation(sp.mean as int, length as int)
    &&& est.deviation == spread_root(sp.variance * 1_000_000, length * length)
}

/// Scales the spread of batches of `length` calls down to one call.
pub fn per_call_estimate(sp: Spread, length: u64) -> (est: Estimate)
    requires
        sp.mean <= MAX_SAMPLE_NANOS,
        sp.variance <= 3 * MAX_SQUARED_NANOS,
        length >= 1,
    ensures
        estimates(est, sp, length),
{
    let mean = scale_down(sp.mean, length);
    let deviation = spread_root_u128(sp.variance * 1_000_000, length as u128, length as u128);
    Estimate { mean, deviation }
}

} // verus!

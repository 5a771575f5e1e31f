use vstd::prelude::*;

verus! {

/// Why a harness operation did no work or stopped.
#[derive(Clone, Copy, Debug, PartialEq, Eq, Structural)]
pub enum HarnessError {
    /// Calibration was asked for before a size was set.
    NotInitialized,
    /// Sampling or statistics were asked for before calibration.
    NotCalibrated,
    /// Fewer than two samples: no standard deviation exists.
    TooFewSamples,
    /// The runner prepared no parameter to call the operation with.
    NoParams,
    /// No repetition count up to the largest that can double cleared the
    /// threshold.
    CalibrationExhausted,
    /// A batch took longer than the reductions accept.
    SampleOutOfRange,
    /// The sample list is full.
    SampleLimit,
    /// A time per call of zero leaves the batch length undefined.
    ZeroTiming,
}

} // verus!

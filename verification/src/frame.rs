//! Deterministic frame budgets for native and Web/WASM render loops.
//!
//! A budget is derived from a target rate in millihertz; the conversion of a floating-point
//! rate to millihertz, and the ratios of a frame assessment, are the caller's.
use core::time::Duration;
use vstd::prelude::*;

verus! {

/// Nanoseconds in one thousand seconds: one period at 1 mHz.
pub const NANOS_PER_MILLIHZ_PERIOD: u64 = 1_000_000_000_000;

#[derive(Clone, Copy, Debug, PartialEq, Eq, Structural)]
pub enum FrameError {
    InvalidTargetHz,
    DurationOverflow,
}

impl FrameError {
    /// Stable user-facing message.
    pub fn message(&self) -> (s: &'static str)
        ensures
            s@ == match *self {
                FrameError::InvalidTargetHz => "target_hz must be finite and > 0"@,
                FrameError::DurationOverflow => "duration is too large to represent"@,
            },
    {
        match self {
            FrameError::InvalidTargetHz => "target_hz must be finite and > 0",
            FrameError::DurationOverflow => "duration is too large to represent",
        }
    }
}

/// What `Duration::from_nanos` returns for this many nanoseconds.
pub uninterp spec fn duration_of_nanos(nanos: u64) -> Duration;

/// A duration of `nanos` nanoseconds.
#[verifier::external_body]
fn duration_from_nanos(nanos: u64) -> (d: Duration)
    ensures
        d == duration_of_nanos(nanos),
{
    Duration::from_nanos(nanos)
}

/// Target frame rate and the per-frame time budget derived from it.
#[derive(Clone, Copy, Debug, PartialEq, Eq)]
pub struct FrameBudget {
    target_hz_millihz: u64,
    budget_nanos: u64,
    budget: Duration,
}

impl FrameBudget {
    pub closed spec fn millihz_spec(self) -> u64 {
        self.target_hz_millihz
    }

    pub closed spec fn nanos_spec(self) -> u64 {
        self.budget_nanos
    }

    pub closed spec fn duration_spec(self) -> Duration {
        self.budget
    }

    /// The budget of a rate of `millihz` thousandths of a hertz: one period, rounded down to
    /// whole nanoseconds. A rate of zero is rejected.
    pub fn from_millihz(millihz: u64) -> (r: Result<Self, FrameError>)
        ensures
            millihz == 0 ==> r == Err::<Self, FrameError>(FrameError::InvalidTargetHz),
            millihz > 0 ==> (r matches Ok(b) && b.millihz_spec() == millihz
                && b.nanos_spec() == NANOS_PER_MILLIHZ_PERIOD / millihz
                && b.duration_spec() == duration_of_nanos(b.nanos_spec())),
    {
        if millihz == 0 {
            return Err(FrameError::InvalidTargetHz);
        }
        let budget_nanos = NANOS_PER_MILLIHZ_PERIOD / millihz;
        Ok(FrameBudget { target_hz_millihz: millihz, budget_nanos, budget: duration_from_nanos(budget_nanos) })
    }

    pub fn target_hz_millihz(self) -> (r: u64)
        ensures
            r == self.millihz_spec(),
    {
        self.target_hz_millihz
    }

    /// The budget in whole nanoseconds.
    pub fn budget_nanos(self) -> (r: u64)
        ensures
            r == self.nanos_spec(),
    {
        self.budget_nanos
    }

    pub fn duration(self) -> (r: Duration)
        ensures
            r == self.duration_spec(),
    {
        self.budget
    }
}

/// Measured CPU frame time and, where a real measurement source exists, GPU frame time.
#[derive(Clone, Copy, Debug, PartialEq, Eq)]
pub struct FrameSample {
    pub cpu_frame: Duration,
    pub gpu_frame: Option<Duration>,
}

#[derive(Clone, Copy, Debug, PartialEq, Eq, Structural)]
pub enum BudgetState {
    WithinBudget,
    OverBudget,
}

} // verus!

//! The integer bookkeeping of the reversible integrator: the error kinds, the
//! layout of a phase-space state, the bound on step counts and the step
//! counter. The arithmetic on reals is the caller's.

use vstd::prelude::*;

verus! {

/// The most steps one call may take.
pub const MAX_STEPS: u64 = 1_000_000_000;

/// The symplectic scheme.
#[derive(Clone, Copy, Debug, PartialEq, Eq, Structural)]
pub enum IntegrationMethod {
    /// Second-order velocity Verlet.
    VelocityVerlet,
    /// Fourth-order Yoshida.
    Yoshida4,
}

/// Which parameter is out of range.
#[derive(Clone, Copy, Debug, PartialEq, Eq, Structural)]
pub enum ParameterFault {
    /// The step size is not a finite number in `(0, 1)`.
    StepSize,
    /// The weight of the momentum term is negative.
    LambdaTrs,
    /// More steps than `MAX_STEPS`.
    StepCount,
    /// The target time is not a finite number.
    TargetTime,
}

/// What can go wrong in the integrator.
#[derive(Clone, Copy, Debug, PartialEq, Eq, Structural)]
pub enum TrsError {
    /// A computed component is not a finite number.
    NumericalInstability,
    /// The state does not split into positions and momenta.
    DimensionMismatch,
    /// A parameter is out of range.
    InvalidParameter(ParameterFault),
}

impl TrsError {
    /// A line of text for logs.
    pub fn message(&self) -> (s: &'static str)
        ensures
            s@ == (match self {
                TrsError::NumericalInstability =>
                    "Integration failed due to numerical instability"@,
                TrsError::DimensionMismatch => "State dimension mismatch"@,
                TrsError::InvalidParameter(ParameterFault::StepSize) =>
                    "Invalid parameter: dt must be finite, positive, and less than 1.0"@,
                TrsError::InvalidParameter(ParameterFault::LambdaTrs) =>
                    "Invalid parameter: lambda_trs must be non-negative"@,
                TrsError::InvalidParameter(ParameterFault::StepCount) =>
                    "Invalid parameter: step count exceeds reasonable limit"@,
                TrsError::InvalidParameter(ParameterFault::TargetTime) =>
                    "Invalid parameter: target time must be finite"@,
            }),
    {
        match self {
            TrsError::NumericalInstability => "Integration failed due to numerical instability",
            TrsError::DimensionMismatch => "State dimension mismatch",
            TrsError::InvalidParameter(ParameterFault::StepSize) => {
                "Invalid parameter: dt must be finite, positive, and less than 1.0"
            },
            TrsError::InvalidParameter(ParameterFault::LambdaTrs) => {
                "Invalid parameter: lambda_trs must be non-negative"
            },
            TrsError::InvalidParameter(ParameterFault::StepCount) => {
                "Invalid parameter: step count exceeds reasonable limit"
            },
            TrsError::InvalidParameter(ParameterFault::TargetTime) => {
                "Invalid parameter: target time must be finite"
            },
        }
    }
}

/// Accepts a step count of at most `MAX_STEPS`.
pub fn check_step_count(steps: u64) -> (r: Result<(), TrsError>)
    ensures
        steps <= MAX_STEPS ==> r is Ok,
        steps > MAX_STEPS ==> r == Err::<(), TrsError>(
            TrsError::InvalidParameter(ParameterFault::StepCount),
        ),
{
    if steps > MAX_STEPS {
        Err(TrsError::InvalidParameter(ParameterFault::StepCount))
    } else {
        Ok(())
    }
}

/// Where the momenta begin in a state of `len` components: positions fill
/// the first half, momenta the second. A state of odd length has no such split.
pub fn momentum_offset(len: usize) -> (r: Result<usize, TrsError>)
    ensures
        len % 2 == 0 ==> r == Ok::<usize, TrsError>((len / 2) as usize),
        len % 2 != 0 ==> r == Err::<usize, TrsError>(TrsError::DimensionMismatch),
{
    if len % 2 != 0 {
        Err(TrsError::DimensionMismatch)
    } else {
        Ok(len / 2)
    }
}

/// Whether two states can be compared for reversibility: both have the same
/// even length.
pub fn comparable(len_a: usize, len_b: usize) -> (ok: bool)
    ensures
        ok == (len_a == len_b && len_a % 2 == 0),
{
    len_a == len_b && len_a % 2 == 0
}

/// Counts the successful steps of a controller.
#[derive(Clone, Copy, Debug, PartialEq, Eq, Structural)]
pub struct StepCounter {
    /// Steps taken since the last reset.
    pub steps: u64,
}

impl StepCounter {
    /// A counter at zero.
    pub fn new() -> (c: Self)
        ensures
            c.steps == 0,
    {
        StepCounter { steps: 0 }
    }

    /// Counts one successful step. The count never goes down; it goes up by
    /// one until it reaches the largest 64-bit number, where it stays.
    pub fn record_step(&mut self)
        ensures
            final(self).steps >= old(self).steps,
            old(self).steps < u64::MAX ==> final(self).steps == old(self).steps + 1,
            old(self).steps == u64::MAX ==> final(self).steps == u64::MAX,
    {
        if self.steps < u64::MAX {
            self.steps = self.steps + 1;
        }
    }

    /// Sets the counter back to zero.
    pub fn reset(&mut self)
        ensures
            final(self).steps == 0,
    {
        self.steps = 0;
    }
}

} // verus!

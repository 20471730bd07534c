//! The decisions of the C interface: which error code each entry point
//! returns, given what it was handed and whether a simulation is active.
//!
//! There is at most one simulation per process: `init` makes it active,
//! `shutdown` ends it.

use vstd::prelude::*;
use crate::controller::{TrsError, MAX_STEPS};

verus! {

/// The most oscillators a simulation may be started with.
pub const MAX_OSCILLATORS: u32 = 1_000_000;

/// Oscillators of a simulation started from a snapshot.
pub const SNAPSHOT_OSCILLATORS: u32 = 32;

/// Error codes of the interface.
#[derive(Clone, Copy, Debug, PartialEq, Eq, Structural)]
pub enum AlanError {
    /// No error.
    NoError,
    /// A parameter is out of range.
    InvalidParameter,
    /// A computed value is not a finite number.
    NumericalInstability,
    /// A buffer has the wrong size.
    DimensionMismatch,
    /// Memory could not be had.
    AllocationFailure,
    /// The storage underneath failed.
    IoError,
    /// The bytes are not a snapshot.
    InvalidSnapshot,
    /// The host or the data is not little-endian.
    EndianMismatch,
    /// A simulation is active already.
    SimulationActive,
    /// No simulation is active.
    SimulationNotInitialized,
    /// Anything else.
    UnknownError,
}

impl AlanError {
    /// The integer that stands for the error.
    pub open spec fn spec_code(self) -> i32 {
        match self {
            AlanError::NoError => 0,
            AlanError::InvalidParameter => 1,
            AlanError::NumericalInstability => 2,
            AlanError::DimensionMismatch => 3,
            AlanError::AllocationFailure => 4,
            AlanError::IoError => 5,
            AlanError::InvalidSnapshot => 6,
            AlanError::EndianMismatch => 7,
            AlanError::SimulationActive => 8,
            AlanError::SimulationNotInitialized => 9,
            AlanError::UnknownError => 999,
        }
    }

    /// The integer that stands for the error.
    pub fn code(&self) -> (c: i32)
        ensures
            c == self.spec_code(),
    {
        match self {
            AlanError::NoError => 0,
            AlanError::InvalidParameter => 1,
            AlanError::NumericalInstability => 2,
            AlanError::DimensionMismatch => 3,
            AlanError::AllocationFailure => 4,
            AlanError::IoError => 5,
            AlanError::InvalidSnapshot => 6,
            AlanError::EndianMismatch => 7,
            AlanError::SimulationActive => 8,
            AlanError::SimulationNotInitialized => 9,
            AlanError::UnknownError => 999,
        }
    }

    /// The error that an integer stands for; an integer that stands for none
    /// is an unknown error.
    pub fn from_code(code: i32) -> (e: Self)
        ensures
            e.spec_code() == code || (e == AlanError::UnknownError && forall|x: AlanError|
                x.spec_code() != code),
    {
        match code {
            0 => AlanError::NoError,
            1 => AlanError::InvalidParameter,
            2 => AlanError::NumericalInstability,
            3 => AlanError::DimensionMismatch,
            4 => AlanError::AllocationFailure,
            5 => AlanError::IoError,
            6 => AlanError::InvalidSnapshot,
            7 => AlanError::EndianMismatch,
            8 => AlanError::SimulationActive,
            9 => AlanError::SimulationNotInitialized,
            _ => AlanError::UnknownError,
        }
    }
}

/// What `init` answers: on a big-endian host an endian mismatch; with a
/// simulation active, that; with no oscillators or more than a million, an
/// invalid parameter; else no error, and a simulation is made.
pub fn init_outcome(big_endian: bool, active: bool, num_oscillators: u32) -> (e: AlanError)
    ensures
        e == (if big_endian {
            AlanError::EndianMismatch
        } else if active {
            AlanError::SimulationActive
        } else if num_oscillators == 0 || num_oscillators > MAX_OSCILLATORS {
            AlanError::InvalidParameter
        } else {
            AlanError::NoError
        }),
{
    if big_endian {
        AlanError::EndianMismatch
    } else if active {
        AlanError::SimulationActive
    } else if num_oscillators == 0 || num_oscillators > MAX_OSCILLATORS {
        AlanError::InvalidParameter
    } else {
        AlanError::NoError
    }
}

/// What `init_snapshot` answers: as `init`, the parameter being invalid
/// where the buffer is null or empty.
pub fn init_snapshot_outcome(
    big_endian: bool,
    active: bool,
    buffer_is_null: bool,
    size: usize,
) -> (e: AlanError)
    ensures
        e == (if big_endian {
            AlanError::EndianMismatch
        } else if active {
            AlanError::SimulationActive
        } else if buffer_is_null || size == 0 {
            AlanError::InvalidParameter
        } else {
            AlanError::NoError
        }),
{
    if big_endian {
        AlanError::EndianMismatch
    } else if active {
        AlanError::SimulationActive
    } else if buffer_is_null || size == 0 {
        AlanError::InvalidParameter
    } else {
        AlanError::NoError
    }
}

/// The length of the state of a simulation: a phase and a momentum for each
/// oscillator.
pub fn state_len(num_oscillators: u32) -> (n: u32)
    requires
        num_oscillators <= MAX_OSCILLATORS,
    ensures
        n == 2 * num_oscillators,
{
    2 * num_oscillators
}

/// What an entry point that copies a buffer answers: a null buffer is an
/// invalid parameter; with no simulation active, that; a buffer of another
/// size than `expected` is a dimension mismatch; else no error.
pub fn buffer_outcome(buffer_is_null: bool, active: bool, size: u32, expected: usize) -> (e:
    AlanError)
    ensures
        e == (if buffer_is_null {
            AlanError::InvalidParameter
        } else if !active {
            AlanError::SimulationNotInitialized
        } else if size != expected {
            AlanError::DimensionMismatch
        } else {
            AlanError::NoError
        }),
{
    if buffer_is_null {
        AlanError::InvalidParameter
    } else if !active {
        AlanError::SimulationNotInitialized
    } else if size as u64 != expected as u64 {
        AlanError::DimensionMismatch
    } else {
        AlanError::NoError
    }
}

/// What `integrate` answers before it steps: no steps are an invalid
/// parameter; with no simulation active, that; more steps than the
/// controller takes are an invalid parameter; else no error.
pub fn integrate_outcome(steps: u32, active: bool) -> (e: AlanError)
    ensures
        e == (if steps == 0 {
            AlanError::InvalidParameter
        } else if !active {
            AlanError::SimulationNotInitialized
        } else if steps > MAX_STEPS {
            AlanError::InvalidParameter
        } else {
            AlanError::NoError
        }),
{
    if steps == 0 {
        AlanError::InvalidParameter
    } else if !active {
        AlanError::SimulationNotInitialized
    } else if steps as u64 > MAX_STEPS {
        AlanError::InvalidParameter
    } else {
        AlanError::NoError
    }
}

/// What an entry point that needs a simulation answers with none active.
pub fn active_outcome(active: bool) -> (e: AlanError)
    ensures
        e == (if active {
            AlanError::NoError
        } else {
            AlanError::SimulationNotInitialized
        }),
{
    if active {
        AlanError::NoError
    } else {
        AlanError::SimulationNotInitialized
    }
}

/// The code for a failed step: the interface reports every failure of the
/// controller as numerical instability.
pub fn step_failure(error: &TrsError) -> (e: AlanError)
    ensures
        e == AlanError::NumericalInstability,
{
    AlanError::NumericalInstability
}

} // verus!

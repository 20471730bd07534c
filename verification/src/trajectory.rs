//! Settings of the trajectory module.

use vstd::prelude::*;
use crate::compat::DEFAULT_OSCILLATOR_COUNT;

verus! {

/// Version of the trajectory module.
pub const VERSION: &'static str = "6.0.0";

/// The most oscillators supported.
pub const MAX_OSCILLATOR_COUNT: usize = 1024;

/// Audio samples per second.
pub const DEFAULT_SAMPLE_RATE: usize = 48000;

/// Memory target on mobile devices, in megabytes.
pub const MOBILE_MEMORY_TARGET_MB: usize = 90;

/// Memory target on desktop systems, in megabytes.
pub const DESKTOP_MEMORY_TARGET_MB: usize = 150;

/// The platform that memory use is tuned for.
#[derive(Debug, Clone, Copy, PartialEq, Eq, Structural)]
pub enum Platform {
    /// Mobile devices.
    Mobile,
    /// Desktop systems.
    Desktop,
}

impl Platform {
    /// The memory target of the platform, in megabytes.
    pub fn memory_target_mb(&self) -> (mb: usize)
        ensures
            mb == (match self {
                Platform::Mobile => MOBILE_MEMORY_TARGET_MB,
                Platform::Desktop => DESKTOP_MEMORY_TARGET_MB,
            }),
    {
        match self {
            Platform::Mobile => MOBILE_MEMORY_TARGET_MB,
            Platform::Desktop => DESKTOP_MEMORY_TARGET_MB,
        }
    }
}

/// The oscillator count that `initialize` settles on.
pub open spec fn effective_count(oscillator_count: Option<usize>) -> usize {
    match oscillator_count {
        Some(n) => n,
        None => DEFAULT_OSCILLATOR_COUNT,
    }
}

/// Sets the module up for the given number of oscillators, the default where
/// none is given. More than `MAX_OSCILLATOR_COUNT` oscillators are refused.
pub fn initialize(oscillator_count: Option<usize>) -> (r: Result<(), &'static str>)
    ensures
        r is Ok <==> effective_count(oscillator_count) <= MAX_OSCILLATOR_COUNT,
        r is Err ==> r->Err_0@ == "Oscillator count exceeds maximum supported value"@,
{
    let count: usize = match oscillator_count {
        Some(n) => n,
        None => DEFAULT_OSCILLATOR_COUNT,
    };
    if count > MAX_OSCILLATOR_COUNT {
        return Err("Oscillator count exceeds maximum supported value");
    }
    Ok(())
}

} // verus!

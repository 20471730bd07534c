//! Verified core of a neuromorphic runtime: the trajectory archive (delta
//! codec, chunk framing, reader), the state snapshot format, and the integer
//! bookkeeping around the reversible integrator and the oscillator network.
//!
//! Every executable function carries a contract that Verus proves. Floating
//! point work, file I/O and threads live with the caller; the library hands
//! over and takes back plain values.
//!
//! # The archive
//!
//! - [`codec`]: phase differences that wrap around the circle, level
//!   differences that saturate, and the encoder and decoder that remember the
//!   last frame.
//! - [`leb128`], [`bytes`], [`checksum`]: lengths, little-endian integers and
//!   CRC-32.
//! - [`format`]: header, chunks and the scan that indexes them.
//! - [`writer`], [`recorder`]: frames to bytes, with a bounded queue between
//!   capture and writing.
//! - [`reader`], [`player`]: bytes to frames, by random access and in order.
//! - [`roundtrip`]: what is written reads back.
//!
//! # State and its surroundings
//!
//! - [`snapshot`]: the network's state on the wire, plain and packed.
//! - [`controller`], [`oscillator`], [`abi`]: step counts, state layouts,
//!   coupling shapes and the error codes of the C interface.
//! - [`binding`]: attractors bound to symbols by the hash of their signature.
//! - [`compat`], [`crypto`], [`buffer`], [`elfin`], [`trajectory`]: schema
//!   versions, the encryption header, buffers, tokens and settings.

use vstd::prelude::*;

pub mod abi;
pub mod binding;
pub mod buffer;
pub mod bytes;
pub mod checksum;
pub mod codec;
pub mod compat;
pub mod controller;
pub mod crypto;
pub mod elfin;
pub mod format;
pub mod frame;
pub mod leb128;
pub mod oscillator;
pub mod player;
pub mod queue;
pub mod reader;
pub mod recorder;
pub mod roundtrip;
pub mod snapshot;
pub mod trajectory;
pub mod writer;

verus! {

/// Major version of the runtime.
pub const VERSION_MAJOR: u32 = 0;

/// Minor version of the runtime.
pub const VERSION_MINOR: u32 = 8;

/// Patch version of the runtime.
pub const VERSION_PATCH: u32 = 0;

/// The version as text: major, minor and patch, with dots between.
pub fn version() -> (v: String)
    ensures
        v@ == "0.8.0"@,
{
    "0.8.0".to_owned()
}

/// Brings the runtime up. There is nothing that can fail.
pub fn init() -> (r: Result<(), &'static str>)
    ensures
        r is Ok,
{
    Ok(())
}

/// The version as `(major, minor, patch)`.
pub fn version_tuple() -> (v: (u32, u32, u32))
    ensures
        v == (VERSION_MAJOR, VERSION_MINOR, VERSION_PATCH),
{
    (VERSION_MAJOR, VERSION_MINOR, VERSION_PATCH)
}

} // verus!

//! The state snapshot on the wire.
//!
//! ```text
//! "ALSN" | version u16 | schema CRC u32 | byte order (0) | dt_phase | dt_spin
//!        | lambda present (0 or 1) [| lambda] | N u32
//!        | theta[N] | p_theta[N] | sigma[N][3] | p_sigma[N][3]
//! ```
//! Every number is little-endian; every real is an IEEE-754 single, carried
//! here by its 32-bit pattern. The packed form is `"ALSNZ"` followed by the
//! snapshot as a zstd frame.

use vstd::prelude::*;
use crate::bytes::{
    le_bytes, le_value, lemma_le_bytes_len, lemma_le_roundtrip, 
    lemma_pow256_values, push_u16_le, push_u32_le, read_u16_le, read_u32_le,
};
use crate::format::slice_range;

verus! {

/// Checksum of the schema that this version writes and reads.
pub const SCHEMA_CRC32: u32 = 0x8A7B4C3D;

/// The format version: major in the high byte, minor in the low byte.
pub const VERSION: u16 = 0x0200;

/// Byte-order flag of a little-endian snapshot.
pub const LITTLE_ENDIAN: u8 = 0;

/// Byte-order flag of a big-endian snapshot.
pub const BIG_ENDIAN: u8 = 1;

/// Compression level used for packed snapshots.
pub const COMPRESSION_LEVEL: i32 = 3;

/// The four bytes that open a snapshot.
pub open spec fn identifier() -> Seq<u8> {
    seq![0x41u8, 0x4Cu8, 0x53u8, 0x4Eu8]
}

/// The five bytes that open a packed snapshot.
pub open spec fn compressed_identifier() -> Seq<u8> {
    seq![0x41u8, 0x4Cu8, 0x53u8, 0x4Eu8, 0x5Au8]
}

/// What is wrong with the shape of a snapshot.
#[derive(Clone, Copy, Debug, PartialEq, Eq, Structural)]
pub enum SnapshotFault {
    /// Fewer bytes than the fields need.
    BufferTooSmall,
    /// The first four bytes are not the identifier.
    InvalidIdentifier,
    /// The four arrays do not have one length.
    UnevenArrays,
    /// More oscillators than a 32-bit count can say.
    TooManyOscillators,
}

/// What can go wrong with a snapshot.
#[derive(Clone, Copy, Debug, PartialEq, Eq, Structural)]
pub enum SnapshotError {
    /// The storage underneath failed.
    Io,
    /// The bytes are not a snapshot.
    InvalidFormat(SnapshotFault),
    /// The version is not the one supported: actual major and minor, then
    /// expected major and minor.
    IncompatibleVersion(u8, u8, u8, u8),
    /// The schema checksum is not the one supported: actual, then expected.
    SchemaMismatch(u32, u32),
    /// The byte-order flag is not little-endian.
    UnsupportedEndianness(u8),
    /// The snapshot could not be compressed.
    CompressionError,
    /// The packed snapshot could not be expanded.
    DecompressionError,
}

/// The schema version as `(major, minor)`.
pub fn get_version() -> (v: (u8, u8))
    ensures
        v == (2u8, 0u8),
        v.0 == VERSION / 256,
        v.1 == VERSION % 256,
{
    ((VERSION / 256) as u8, (VERSION % 256) as u8)
}

/// The bit patterns of a three-component real vector.
#[derive(Clone, Copy, Debug, PartialEq, Eq, Structural)]
pub struct SpinBits {
    pub x: u32,
    pub y: u32,
    pub z: u32,
}

/// A snapshot as mathematical sequences.
pub struct SnapshotView {
    pub theta: Seq<u32>,
    pub p_theta: Seq<u32>,
    pub sigma: Seq<SpinBits>,
    pub p_sigma: Seq<SpinBits>,
    pub dt_phase: u32,
    pub dt_spin: u32,
    pub lambda: Option<u32>,
}

impl SnapshotView {
    /// Whether the four arrays have one length, and that fits a 32-bit count.
    pub open spec fn consistent(self) -> bool {
        &&& self.theta.len() <= u32::MAX
        &&& self.p_theta.len() == self.theta.len()
        &&& self.sigma.len() == self.theta.len()
        &&& self.p_sigma.len() == self.theta.len()
    }
}

/// The state of the oscillator network: phases, phase momenta, spins, spin
/// momenta, the two time steps and the cached regularisation weight. Every
/// real is held by its IEEE-754 single-precision bit pattern.
#[derive(Debug)]
pub struct StateSnapshot {
    /// Phase angles.
    pub theta: Vec<u32>,
    /// Phase momenta.
    pub p_theta: Vec<u32>,
    /// Spin vectors.
    pub sigma: Vec<SpinBits>,
    /// Spin momenta.
    pub p_sigma: Vec<SpinBits>,
    /// Time step of the phase loop.
    pub dt_phase: u32,
    /// Time step of the spin loop.
    pub dt_spin: u32,
    /// Regularisation weight, if cached.
    pub lambda: Option<u32>,
}

impl View for StateSnapshot {
    type V = SnapshotView;

    open spec fn view(&self) -> SnapshotView {
        SnapshotView {
            theta: self.theta@,
            p_theta: self.p_theta@,
            sigma: self.sigma@,
            p_sigma: self.p_sigma@,
            dt_phase: self.dt_phase,
            dt_spin: self.dt_spin,
            lambda: self.lambda,
        }
    }
}

/// The bytes of a run of 32-bit words, four per word, little-endian.
pub open spec fn u32s_le(v: Seq<u32>) -> Seq<u8> {
    Seq::new(4 * v.len(), |i: int| le_bytes(v[i / 4] as nat, 4)[i % 4])
}

/// The 32-bit word stored little-endian at byte `at`.
pub open spec fn word_at(bytes: Seq<u8>, at: int) -> u32 {
    le_value(bytes.subrange(at, at + 4)) as u32
}

/// The `count` words stored from byte `at` on.
pub open spec fn u32s_from_le(bytes: Seq<u8>, at: int, count: nat) -> Seq<u32> {
    Seq::new(count, |i: int| word_at(bytes, at + 4 * i))
}

/// The `count` vectors stored from byte `at` on, three words each.
pub open spec fn spins_from_le(bytes: Seq<u8>, at: int, count: nat) -> Seq<SpinBits> {
    Seq::new(
        count,
        |i: int|
            SpinBits {
                x: word_at(bytes, at + 12 * i),
                y: word_at(bytes, at + 12 * i + 4),
                z: word_at(bytes, at + 12 * i + 8),
            },
    )
}

/// The words of a run of vectors: x, y, z of the first, then of the second, ...
pub open spec fn flat(v: Seq<SpinBits>) -> Seq<u32> {
    Seq::new(
        3 * v.len(),
        |i: int|
            if i % 3 == 0 {
                v[i / 3].x
            } else if i % 3 == 1 {
                v[i / 3].y
            } else {
                v[i / 3].z
            },
    )
}

/// The bytes of the optional weight: a presence byte, then the weight if present.
pub open spec fn lambda_bytes(lambda: Option<u32>) -> Seq<u8> {
    match lambda {
        Some(l) => seq![1u8] + le_bytes(l as nat, 4),
        None => seq![0u8],
    }
}

/// The fields of a snapshot that come before the arrays.
pub open spec fn snapshot_head(s: SnapshotView) -> Seq<u8> {
    identifier() + le_bytes(VERSION as nat, 2) + le_bytes(SCHEMA_CRC32 as nat, 4) + seq![
        LITTLE_ENDIAN,
    ] + le_bytes(s.dt_phase as nat, 4) + le_bytes(s.dt_spin as nat, 4) + lambda_bytes(s.lambda)
        + le_bytes(s.theta.len(), 4)
}

/// The bytes of a snapshot.
pub open spec fn snapshot_bytes(s: SnapshotView) -> Seq<u8> {
    snapshot_head(s) + u32s_le(s.theta + s.p_theta + flat(s.sigma) + flat(s.p_sigma))
}

/// What `bytes` are as a snapshot.
///
/// The checks come in this order: twelve bytes at least, identifier, version,
/// schema checksum, byte order, then room for each field in turn. Bytes
/// behind the last array are not looked at.
pub open spec fn parse_snapshot(bytes: Seq<u8>) -> Result<SnapshotView, SnapshotError> {
    if bytes.len() < 12 {
        Err(SnapshotError::InvalidFormat(SnapshotFault::BufferTooSmall))
    } else if bytes.subrange(0, 4) != identifier() {
        Err(SnapshotError::InvalidFormat(SnapshotFault::InvalidIdentifier))
    } else if le_value(bytes.subrange(4, 6)) != VERSION {
        Err(
            SnapshotError::IncompatibleVersion(
                (le_value(bytes.subrange(4, 6)) / 256) as u8,
                (le_value(bytes.subrange(4, 6)) % 256) as u8,
                2,
                0,
            ),
        )
    } else if word_at(bytes, 6) != SCHEMA_CRC32 {
        Err(SnapshotError::SchemaMismatch(word_at(bytes, 6), SCHEMA_CRC32))
    } else if bytes[10] != LITTLE_ENDIAN {
        Err(SnapshotError::UnsupportedEndianness(bytes[10]))
    } else if bytes.len() < 20 {
        Err(SnapshotError::InvalidFormat(SnapshotFault::BufferTooSmall))
    } else {
        let has_lambda = bytes[19] != 0;
        let count_at: int = if has_lambda {
            24
        } else {
            20
        };
        if bytes.len() < count_at + 4 {
            Err(SnapshotError::InvalidFormat(SnapshotFault::BufferTooSmall))
        } else {
            let n = word_at(bytes, count_at) as nat;
            let at = count_at + 4;
            if bytes.len() < at + 32 * n {
                Err(SnapshotError::InvalidFormat(SnapshotFault::BufferTooSmall))
            } else {
                Ok(
                    SnapshotView {
                        theta: u32s_from_le(bytes, at, n),
                        p_theta: u32s_from_le(bytes, at + 4 * n, n),
                        sigma: spins_from_le(bytes, at + 8 * n, n),
                        p_sigma: spins_from_le(bytes, at + 20 * n, n),
                        dt_phase: word_at(bytes, 11),
                        dt_spin: word_at(bytes, 15),
                        lambda: if has_lambda {
                            Some(word_at(bytes, 20))
                        } else {
                            None
                        },
                    },
                )
            }
        }
    }
}

/// Appends the words of `values`, four bytes each, little-endian.
pub fn push_u32s_le(out: &mut Vec<u8>, values: &[u32])
    ensures
        final(out)@ == old(out)@ + u32s_le(values@),
{
    let n: usize = values.len();
    let mut i: usize = 0;
    while i < n
        invariant
            i <= n,
            n == values@.len(),
            out@ == old(out)@ + u32s_le(values@.take(i as int)),
        decreases n - i,
    {
        push_u32_le(out, values[i]);
        proof {
            let a = values@.take(i as int);
            let b = values@.take(i + 1);
            let w = le_bytes(values@[i as int] as nat, 4);
            lemma_le_bytes_len(values@[i as int] as nat, 4);
            assert forall|k: int| 0 <= k < 4 * (i + 1) implies u32s_le(b)[k] == (u32s_le(a)
                + w)[k] by {
                if k < 4 * i {
                    assert(k / 4 < i);
                    assert(b[k / 4] == a[k / 4]);
                } else {
                    assert(k / 4 == i);
                    assert(k % 4 == k - 4 * i);
                }
            }
            assert(u32s_le(b) =~= u32s_le(a) + w);
            assert(out@ =~= old(out)@ + u32s_le(b));
        }
        i = i + 1;
    }
    assert(values@.take(n as int) =~= values@);
}

/// Appends the words of `values`, three per vector.
pub fn push_spins_le(out: &mut Vec<u8>, values: &[SpinBits])
    ensures
        final(out)@ == old(out)@ + u32s_le(flat(values@)),
{
    let n: usize = values.len();
    let mut i: usize = 0;
    assert(u32s_le(flat(values@.take(0))) =~= Seq::<u8>::empty());
    while i < n
        invariant
            i <= n,
            n == values@.len(),
            out@ == old(out)@ + u32s_le(flat(values@.take(i as int))),
        decreases n - i,
    {
        let v: SpinBits = values[i];
        push_u32_le(out, v.x);
        push_u32_le(out, v.y);
        push_u32_le(out, v.z);
        proof {
            let a = flat(values@.take(i as int));
            let b = flat(values@.take(i + 1));
            let three = seq![v.x, v.y, v.z];
            assert(b =~= a + three) by {
                assert forall|k: int| 0 <= k < 3 * (i + 1) implies b[k] == (a + three)[k] by {
                    if k < 3 * i {
                        assert(k / 3 < i);
                    } else {
                        assert(k / 3 == i);
                        assert(k % 3 == k - 3 * i);
                    }
                }
            }
            lemma_u32s_le_concat(a, three);
            lemma_le_bytes_len(v.x as nat, 4);
            lemma_le_bytes_len(v.y as nat, 4);
            lemma_le_bytes_len(v.z as nat, 4);
            let w = le_bytes(v.x as nat, 4) + le_bytes(v.y as nat, 4) + le_bytes(v.z as nat, 4);
            assert(u32s_le(three) =~= w) by {
                assert forall|k: int| 0 <= k < 12 implies u32s_le(three)[k] == w[k] by {
                    if k < 4 {
                        assert(k / 4 == 0 && k % 4 == k);
                    } else if k < 8 {
                        assert(k / 4 == 1 && k % 4 == k - 4);
                    } else {
                        assert(k / 4 == 2 && k % 4 == k - 8);
                    }
                }
            }
            assert(out@ =~= old(out)@ + u32s_le(b));
        }
        i = i + 1;
    }
    assert(values@.take(n as int) =~= values@);
}

/// Bytes of a run of words are the bytes of its parts, one after the other.
pub proof fn lemma_u32s_le_concat(a: Seq<u32>, b: Seq<u32>)
    ensures
        u32s_le(a + b) == u32s_le(a) + u32s_le(b),
{
    let l = u32s_le(a + b);
    let r = u32s_le(a) + u32s_le(b);
    assert forall|k: int| 0 <= k < l.len() implies l[k] == r[k] by {
        if k < 4 * a.len() {
            assert(k / 4 < a.len());
        } else {
            let j = k - 4 * a.len();
            assert(k / 4 == a.len() + j / 4);
            assert(k % 4 == j % 4);
        }
    }
    assert(l =~= r);
}

/// Reads `count` words stored from byte `at` on.
pub fn read_u32s_le(data: &[u8], at: usize, count: usize) -> (v: Vec<u32>)
    requires
        at + 4 * count <= data@.len(),
    ensures
        v@ == u32s_from_le(data@, at as int, count as nat),
{
    let mut v: Vec<u32> = Vec::new();
    let len: usize = data.len();
    let mut i: usize = 0;
    while i < count
        invariant
            i <= count,
            len == data@.len(),
            at + 4 * count <= data@.len(),
            v@ == u32s_from_le(data@, at as int, i as nat),
        decreases count - i,
    {
        let x: u32 = read_u32_le(data, at + 4 * i);
        v.push(x);
        i = i + 1;
        assert(v@ =~= u32s_from_le(data@, at as int, i as nat));
    }
    v
}

/// Reads `count` vectors stored from byte `at` on.
pub fn read_spins_le(data: &[u8], at: usize, count: usize) -> (v: Vec<SpinBits>)
    requires
        at + 12 * count <= data@.len(),
    ensures
        v@ == spins_from_le(data@, at as int, count as nat),
{
    let mut v: Vec<SpinBits> = Vec::new();
    let len: usize = data.len();
    let mut i: usize = 0;
    while i < count
        invariant
            i <= count,
            len == data@.len(),
            at + 12 * count <= data@.len(),
            v@ == spins_from_le(data@, at as int, i as nat),
        decreases count - i,
    {
        let x: u32 = read_u32_le(data, at + 12 * i);
        let y: u32 = read_u32_le(data, at + 12 * i + 4);
        let z: u32 = read_u32_le(data, at + 12 * i + 8);
        v.push(SpinBits { x, y, z });
        i = i + 1;
        assert(v@ =~= spins_from_le(data@, at as int, i as nat));
    }
    v
}

fn zero_words(n: usize) -> (v: Vec<u32>)
    ensures
        v@ == Seq::new(n as nat, |i: int| 0u32),
{
    let mut v: Vec<u32> = Vec::new();
    let mut i: usize = 0;
    while i < n
        invariant
            i <= n,
            v@ == Seq::new(i as nat, |i: int| 0u32),
        decreases n - i,
    {
        v.push(0);
        i = i + 1;
        assert(v@ =~= Seq::new(i as nat, |i: int| 0u32));
    }
    v
}

fn zero_spins(n: usize) -> (v: Vec<SpinBits>)
    ensures
        v@ == Seq::new(n as nat, |i: int| SpinBits { x: 0, y: 0, z: 0 }),
{
    let mut v: Vec<SpinBits> = Vec::new();
    let mut i: usize = 0;
    while i < n
        invariant
            i <= n,
            v@ == Seq::new(i as nat, |i: int| SpinBits { x: 0, y: 0, z: 0 }),
        decreases n - i,
    {
        v.push(SpinBits { x: 0, y: 0, z: 0 });
        i = i + 1;
        assert(v@ =~= Seq::new(i as nat, |i: int| SpinBits { x: 0, y: 0, z: 0 }));
    }
    v
}

impl StateSnapshot {
    /// A snapshot of `n_oscillators` oscillators at rest: every array value
    /// is positive zero, and no weight is cached.
    pub fn new(n_oscillators: usize, dt_phase: u32, dt_spin: u32) -> (s: Self)
        ensures
            s@ == (SnapshotView {
                theta: Seq::new(n_oscillators as nat, |i: int| 0u32),
                p_theta: Seq::new(n_oscillators as nat, |i: int| 0u32),
                sigma: Seq::new(n_oscillators as nat, |i: int| SpinBits { x: 0, y: 0, z: 0 }),
                p_sigma: Seq::new(n_oscillators as nat, |i: int| SpinBits { x: 0, y: 0, z: 0 }),
                dt_phase,
                dt_spin,
                lambda: None,
            }),
    {
        StateSnapshot {
            theta: zero_words(n_oscillators),
            p_theta: zero_words(n_oscillators),
            sigma: zero_spins(n_oscillators),
            p_sigma: zero_spins(n_oscillators),
            dt_phase,
            dt_spin,
            lambda: None,
        }
    }

    /// The number of oscillators.
    pub fn n_oscillators(&self) -> (n: usize)
        ensures
            n == self@.theta.len(),
    {
        self.theta.len()
    }

    /// Whether the four arrays have one length, and that fits a 32-bit count.
    pub fn is_consistent(&self) -> (ok: bool)
        ensures
            ok == self@.consistent(),
    {
        let n: usize = self.theta.len();
        n as u64 <= u32::MAX as u64 && self.p_theta.len() == n && self.sigma.len() == n
            && self.p_sigma.len() == n
    }

    /// The snapshot as bytes.
    ///
    /// Fails on a snapshot whose arrays differ in length, or hold more
    /// oscillators than a 32-bit count can say.
    pub fn to_bytes(&self) -> (r: Result<Vec<u8>, SnapshotError>)
        ensures
            self@.consistent() ==> r is Ok && r->Ok_0@ == snapshot_bytes(self@),
            !self@.consistent() && self@.theta.len() > u32::MAX ==> r == Err::<
                Vec<u8>,
                SnapshotError,
            >(SnapshotError::InvalidFormat(SnapshotFault::TooManyOscillators)),
            !self@.consistent() && self@.theta.len() <= u32::MAX ==> r == Err::<
                Vec<u8>,
                SnapshotError,
            >(SnapshotError::InvalidFormat(SnapshotFault::UnevenArrays)),
    {
        let n: usize = self.theta.len();
        if n as u64 > u32::MAX as u64 {
            return Err(SnapshotError::InvalidFormat(SnapshotFault::TooManyOscillators));
        }
        if self.p_theta.len() != n || self.sigma.len() != n || self.p_sigma.len() != n {
            return Err(SnapshotError::InvalidFormat(SnapshotFault::UnevenArrays));
        }
        let mut buffer: Vec<u8> = Vec::new();
        buffer.push(0x41);
        buffer.push(0x4C);
        buffer.push(0x53);
        buffer.push(0x4E);
        assert(buffer@ =~= identifier());
        push_u16_le(&mut buffer, VERSION);
        push_u32_le(&mut buffer, SCHEMA_CRC32);
        buffer.push(LITTLE_ENDIAN);
        push_u32_le(&mut buffer, self.dt_phase);
        push_u32_le(&mut buffer, self.dt_spin);
        match self.lambda {
            Some(l) => {
                buffer.push(1);
                push_u32_le(&mut buffer, l);
            },
            None => {
                buffer.push(0);
            },
        }
        push_u32_le(&mut buffer, n as u32);
        assert(buffer@ =~= snapshot_head(self@));
        push_u32s_le(&mut buffer, self.theta.as_slice());
        push_u32s_le(&mut buffer, self.p_theta.as_slice());
        push_spins_le(&mut buffer, self.sigma.as_slice());
        push_spins_le(&mut buffer, self.p_sigma.as_slice());
        proof {
            let a = self@.theta;
            let b = self@.p_theta;
            let c = flat(self@.sigma);
            let d = flat(self@.p_sigma);
            lemma_u32s_le_concat(a, b);
            lemma_u32s_le_concat(a + b, c);
            lemma_u32s_le_concat(a + b + c, d);
            assert(buffer@ =~= snapshot_bytes(self@));
        }
        Ok(buffer)
    }

    /// The snapshot that `bytes` hold, or why they hold none.
    pub fn from_bytes(bytes: &[u8]) -> (r: Result<Self, SnapshotError>)
        ensures
            match parse_snapshot(bytes@) {
                Ok(s) => r is Ok && r->Ok_0@ == s,
                Err(e) => r == Err::<Self, SnapshotError>(e),
            },
    {
        let len: usize = bytes.len();
        if len < 12 {
            return Err(SnapshotError::InvalidFormat(SnapshotFault::BufferTooSmall));
        }
        let id_ok: bool = bytes[0] == 0x41 && bytes[1] == 0x4C && bytes[2] == 0x53 && bytes[3]
            == 0x4E;
        proof {
            let m = bytes@.subrange(0, 4);
            assert(m[0] == bytes@[0] && m[1] == bytes@[1] && m[2] == bytes@[2] && m[3]
                == bytes@[3]);
            if id_ok {
                assert(m =~= identifier());
            }
        }
        if !id_ok {
            return Err(SnapshotError::InvalidFormat(SnapshotFault::InvalidIdentifier));
        }
        let version: u16 = read_u16_le(bytes, 4);
        if version != VERSION {
            return Err(
                SnapshotError::IncompatibleVersion(
                    (version / 256) as u8,
                    (version % 256) as u8,
                    2,
                    0,
                ),
            );
        }
        let schema: u32 = read_u32_le(bytes, 6);
        if schema != SCHEMA_CRC32 {
            return Err(SnapshotError::SchemaMismatch(schema, SCHEMA_CRC32));
        }
        let endianness: u8 = bytes[10];
        if endianness != LITTLE_ENDIAN {
            return Err(SnapshotError::UnsupportedEndianness(endianness));
        }
        if len < 20 {
            return Err(SnapshotError::InvalidFormat(SnapshotFault::BufferTooSmall));
        }
        let dt_phase: u32 = read_u32_le(bytes, 11);
        let dt_spin: u32 = read_u32_le(bytes, 15);
        let has_lambda: bool = bytes[19] != 0;
        let count_at: usize = if has_lambda {
            24
        } else {
            20
        };
        if len < count_at + 4 {
            return Err(SnapshotError::InvalidFormat(SnapshotFault::BufferTooSmall));
        }
        let lambda: Option<u32> = if has_lambda {
            Some(read_u32_le(bytes, 20))
        } else {
            None
        };
        let count: u32 = read_u32_le(bytes, count_at);
        let at: usize = count_at + 4;
        if ((len - at) as u64) < 32 * (count as u64) {
            return Err(SnapshotError::InvalidFormat(SnapshotFault::BufferTooSmall));
        }
        let n: usize = count as usize;
        let theta: Vec<u32> = read_u32s_le(bytes, at, n);
        let p_theta: Vec<u32> = read_u32s_le(bytes, at + 4 * n, n);
        let sigma: Vec<SpinBits> = read_spins_le(bytes, at + 8 * n, n);
        let p_sigma: Vec<SpinBits> = read_spins_le(bytes, at + 20 * n, n);
        Ok(StateSnapshot { theta, p_theta, sigma, p_sigma, dt_phase, dt_spin, lambda })
    }
}


/// Words written little-endian read back unchanged, wherever in a buffer
/// they stand.
pub proof fn lemma_words_roundtrip(bytes: Seq<u8>, at: int, v: Seq<u32>)
    requires
        0 <= at,
        at + 4 * v.len() <= bytes.len(),
        bytes.subrange(at, at + 4 * v.len()) == u32s_le(v),
    ensures
        forall|k: int| 0 <= k < v.len() ==> #[trigger] word_at(bytes, at + 4 * k) == v[k],
{
    let part = bytes.subrange(at, at + 4 * v.len());
    assert forall|k: int| 0 <= k < v.len() implies #[trigger] word_at(bytes, at + 4 * k)
        == v[k] by {
        let w = bytes.subrange(at + 4 * k, at + 4 * k + 4);
        let e = le_bytes(v[k] as nat, 4);
        lemma_le_bytes_len(v[k] as nat, 4);
        assert forall|j: int| 0 <= j < 4 implies w[j] == e[j] by {
            assert(w[j] == part[4 * k + j]);
            assert((4 * k + j) / 4 == k && (4 * k + j) % 4 == j);
        }
        assert(w =~= e);
        lemma_pow256_values();
        lemma_le_roundtrip(v[k] as nat, 4);
    }
}

/// Where the count of oscillators stands in a snapshot.
pub open spec fn count_offset(lambda: Option<u32>) -> int {
    if lambda is Some {
        24
    } else {
        20
    }
}

proof fn lemma_head_len(s: SnapshotView)
    ensures
        snapshot_head(s).len() == count_offset(s.lambda) + 4,
        snapshot_bytes(s).len() == count_offset(s.lambda) + 4 + 4 * (s.theta.len()
            + s.p_theta.len() + 3 * s.sigma.len() + 3 * s.p_sigma.len()),
{
    lemma_le_bytes_len(VERSION as nat, 2);
    lemma_le_bytes_len(SCHEMA_CRC32 as nat, 4);
    lemma_le_bytes_len(s.dt_phase as nat, 4);
    lemma_le_bytes_len(s.dt_spin as nat, 4);
    lemma_le_bytes_len(s.theta.len(), 4);
    match s.lambda {
        Some(l) => {
            lemma_le_bytes_len(l as nat, 4);
        },
        None => {},
    }
}

proof fn lemma_head_fixed(s: SnapshotView)
    ensures
        snapshot_bytes(s).subrange(0, 4) == identifier(),
        le_value(snapshot_bytes(s).subrange(4, 6)) == VERSION,
        word_at(snapshot_bytes(s), 6) == SCHEMA_CRC32,
        snapshot_bytes(s)[10] == LITTLE_ENDIAN,
{
    let bytes = snapshot_bytes(s);
    lemma_head_len(s);
    lemma_pow256_values();
    lemma_le_bytes_len(VERSION as nat, 2);
    lemma_le_bytes_len(SCHEMA_CRC32 as nat, 4);
    lemma_le_roundtrip(VERSION as nat, 2);
    lemma_le_roundtrip(SCHEMA_CRC32 as nat, 4);
    assert(bytes.subrange(0, 4) =~= identifier());
    assert(bytes.subrange(4, 6) =~= le_bytes(VERSION as nat, 2));
    assert(bytes.subrange(6, 10) =~= le_bytes(SCHEMA_CRC32 as nat, 4));
}

proof fn lemma_head_steps(s: SnapshotView)
    ensures
        word_at(snapshot_bytes(s), 11) == s.dt_phase,
        word_at(snapshot_bytes(s), 15) == s.dt_spin,
{
    let bytes = snapshot_bytes(s);
    lemma_head_len(s);
    lemma_pow256_values();
    lemma_le_bytes_len(VERSION as nat, 2);
    lemma_le_bytes_len(SCHEMA_CRC32 as nat, 4);
    lemma_le_bytes_len(s.dt_phase as nat, 4);
    lemma_le_bytes_len(s.dt_spin as nat, 4);
    lemma_le_roundtrip(s.dt_phase as nat, 4);
    lemma_le_roundtrip(s.dt_spin as nat, 4);
    assert(bytes.subrange(11, 15) =~= le_bytes(s.dt_phase as nat, 4));
    assert(bytes.subrange(15, 19) =~= le_bytes(s.dt_spin as nat, 4));
}

proof fn lemma_head_lambda(s: SnapshotView)
    requires
        s.theta.len() <= u32::MAX,
    ensures
        (snapshot_bytes(s)[19] != 0) == (s.lambda is Some),
        s.lambda is Some ==> word_at(snapshot_bytes(s), 20) == s.lambda->Some_0,
        word_at(snapshot_bytes(s), count_offset(s.lambda)) == s.theta.len(),
{
    let bytes = snapshot_bytes(s);
    let n = s.theta.len();
    lemma_head_len(s);
    lemma_pow256_values();
    lemma_le_bytes_len(VERSION as nat, 2);
    lemma_le_bytes_len(SCHEMA_CRC32 as nat, 4);
    lemma_le_bytes_len(s.dt_phase as nat, 4);
    lemma_le_bytes_len(s.dt_spin as nat, 4);
    lemma_le_bytes_len(n, 4);
    lemma_le_roundtrip(n, 4);
    match s.lambda {
        Some(l) => {
            lemma_le_bytes_len(l as nat, 4);
            lemma_le_roundtrip(l as nat, 4);
            assert(bytes[19] == 1);
            assert(bytes.subrange(20, 24) =~= le_bytes(l as nat, 4));
            assert(bytes.subrange(24, 28) =~= le_bytes(n, 4));
        },
        None => {
            assert(bytes[19] == 0);
            assert(bytes.subrange(20, 24) =~= le_bytes(n, 4));
        },
    }
}

proof fn lemma_body_words(s: SnapshotView)
    ensures
        forall|k: int|
            0 <= k < (s.theta + s.p_theta + flat(s.sigma) + flat(s.p_sigma)).len()
                ==> #[trigger] word_at(snapshot_bytes(s), count_offset(s.lambda) + 4 + 4 * k) == (
            s.theta + s.p_theta + flat(s.sigma) + flat(s.p_sigma))[k],
{
    let bytes = snapshot_bytes(s);
    let all = s.theta + s.p_theta + flat(s.sigma) + flat(s.p_sigma);
    let at = count_offset(s.lambda) + 4;
    lemma_head_len(s);
    assert(bytes.subrange(at, at + 4 * all.len()) =~= u32s_le(all));
    lemma_words_roundtrip(bytes, at, all);
}

proof fn lemma_flat_index(v: Seq<SpinBits>, i: int)
    requires
        0 <= i < v.len(),
    ensures
        flat(v)[3 * i] == v[i].x,
        flat(v)[3 * i + 1] == v[i].y,
        flat(v)[3 * i + 2] == v[i].z,
{
    assert((3 * i) / 3 == i && (3 * i) % 3 == 0);
    assert((3 * i + 1) / 3 == i && (3 * i + 1) % 3 == 1);
    assert((3 * i + 2) / 3 == i && (3 * i + 2) % 3 == 2);
}

proof fn lemma_body_arrays(s: SnapshotView)
    requires
        s.consistent(),
    ensures
        u32s_from_le(snapshot_bytes(s), count_offset(s.lambda) + 4, s.theta.len()) == s.theta,
        u32s_from_le(
            snapshot_bytes(s),
            count_offset(s.lambda) + 4 + 4 * s.theta.len(),
            s.theta.len(),
        ) == s.p_theta,
        spins_from_le(
            snapshot_bytes(s),
            count_offset(s.lambda) + 4 + 8 * s.theta.len(),
            s.theta.len(),
        ) == s.sigma,
        spins_from_le(
            snapshot_bytes(s),
            count_offset(s.lambda) + 4 + 20 * s.theta.len(),
            s.theta.len(),
        ) == s.p_sigma,
{
    let bytes = snapshot_bytes(s);
    let n = s.theta.len() as int;
    let at = count_offset(s.lambda) + 4;
    let all = s.theta + s.p_theta + flat(s.sigma) + flat(s.p_sigma);
    lemma_body_words(s);
    assert(all.len() == 8 * n);
    let theta = u32s_from_le(bytes, at, n as nat);
    assert forall|i: int| 0 <= i < n implies theta[i] == s.theta[i] by {
        assert(word_at(bytes, at + 4 * i) == all[i]);
    }
    assert(theta =~= s.theta);
    let p_theta = u32s_from_le(bytes, at + 4 * n, n as nat);
    assert forall|i: int| 0 <= i < n implies p_theta[i] == s.p_theta[i] by {
        assert(word_at(bytes, at + 4 * (n + i)) == all[n + i]);
    }
    assert(p_theta =~= s.p_theta);
    let sigma = spins_from_le(bytes, at + 8 * n, n as nat);
    assert forall|i: int| 0 <= i < n implies sigma[i] == s.sigma[i] by {
        let k = 2 * n + 3 * i;
        lemma_flat_index(s.sigma, i);
        assert(word_at(bytes, at + 4 * k) == all[k]);
        assert(word_at(bytes, at + 4 * (k + 1)) == all[k + 1]);
        assert(word_at(bytes, at + 4 * (k + 2)) == all[k + 2]);
        assert(all[k] == flat(s.sigma)[3 * i]);
        assert(all[k + 1] == flat(s.sigma)[3 * i + 1]);
        assert(all[k + 2] == flat(s.sigma)[3 * i + 2]);
    }
    assert(sigma =~= s.sigma);
    let p_sigma = spins_from_le(bytes, at + 20 * n, n as nat);
    assert forall|i: int| 0 <= i < n implies p_sigma[i] == s.p_sigma[i] by {
        let k = 5 * n + 3 * i;
        lemma_flat_index(s.p_sigma, i);
        assert(word_at(bytes, at + 4 * k) == all[k]);
        assert(word_at(bytes, at + 4 * (k + 1)) == all[k + 1]);
        assert(word_at(bytes, at + 4 * (k + 2)) == all[k + 2]);
        assert(all[k] == flat(s.p_sigma)[3 * i]);
        assert(all[k + 1] == flat(s.p_sigma)[3 * i + 1]);
        assert(all[k + 2] == flat(s.p_sigma)[3 * i + 2]);
    }
    assert(p_sigma =~= s.p_sigma);
}

/// A snapshot written as bytes reads back as itself.
///
/// For every snapshot whose four arrays have one length that fits a 32-bit
/// count, parsing its bytes gives the snapshot: every bit pattern, the two
/// time steps and the optional weight.
pub proof fn theorem_snapshot_roundtrip(s: SnapshotView)
    requires
        s.consistent(),
    ensures
        parse_snapshot(snapshot_bytes(s)) == Ok::<SnapshotView, SnapshotError>(s),
{
    lemma_head_len(s);
    lemma_head_fixed(s);
    lemma_head_steps(s);
    lemma_head_lambda(s);
    lemma_body_arrays(s);
}

/// The zstd frame that holds `data`, compressed at `level` by the zstd
/// library that is linked; none where the library fails.
pub uninterp spec fn zstd_frame(data: Seq<u8>, level: i32) -> Option<Seq<u8>>;

/// What the zstd frames in `data` hold; none where `data` is not made of
/// zstd frames.
pub uninterp spec fn zstd_content(data: Seq<u8>) -> Option<Seq<u8>>;

/// Calls `zstd::encode_all`. Trusted: the result is a function of the bytes
/// and the level alone.
#[verifier::external_body]
fn zstd_encode(data: &[u8], level: i32) -> (r: Option<Vec<u8>>)
    ensures
        match zstd_frame(data@, level) {
            Some(frame) => r is Some && r->Some_0@ == frame,
            None => r is None,
        },
{
    zstd::encode_all(data, level).ok()
}

/// Calls `zstd::decode_all`. Trusted: the result is a function of the bytes
/// alone.
#[verifier::external_body]
fn zstd_decode(data: &[u8]) -> (r: Option<Vec<u8>>)
    ensures
        match zstd_content(data@) {
            Some(content) => r is Some && r->Some_0@ == content,
            None => r is None,
        },
{
    zstd::decode_all(data).ok()
}

/// Whether `bytes` begin with the identifier of a packed snapshot.
pub open spec fn is_packed(bytes: Seq<u8>) -> bool {
    bytes.len() >= 5 && bytes.subrange(0, 5) == compressed_identifier()
}

/// The bytes to store for a compressed snapshot, given what the compressor
/// returned: the packed identifier and the frame, or a compression error
/// where it returned nothing.
pub fn frame_packed(compressed: Option<Vec<u8>>) -> (r: Result<Vec<u8>, SnapshotError>)
    ensures
        match compressed {
            Some(frame) => r is Ok && r->Ok_0@ == compressed_identifier() + frame@,
            None => r == Err::<Vec<u8>, SnapshotError>(SnapshotError::CompressionError),
        },
{
    match compressed {
        None => Err(SnapshotError::CompressionError),
        Some(frame) => {
            let mut buffer: Vec<u8> = Vec::new();
            buffer.push(0x41);
            buffer.push(0x4C);
            buffer.push(0x53);
            buffer.push(0x4E);
            buffer.push(0x5A);
            assert(buffer@ =~= compressed_identifier());
            let mut i: usize = 0;
            while i < frame.len()
                invariant
                    i <= frame@.len(),
                    buffer@ == compressed_identifier() + frame@.take(i as int),
                decreases frame@.len() - i,
            {
                buffer.push(frame[i]);
                i = i + 1;
                assert(buffer@ =~= compressed_identifier() + frame@.take(i as int));
            }
            assert(frame@.take(frame@.len() as int) =~= frame@);
            Ok(buffer)
        },
    }
}

/// The snapshot in what the decompressor returned, or a decompression error
/// where it returned nothing.
pub fn from_unpacked(content: Option<Vec<u8>>) -> (r: Result<StateSnapshot, SnapshotError>)
    ensures
        match content {
            Some(bytes) => match parse_snapshot(bytes@) {
                Ok(s) => r is Ok && r->Ok_0@ == s,
                Err(e) => r == Err::<StateSnapshot, SnapshotError>(e),
            },
            None => r == Err::<StateSnapshot, SnapshotError>(SnapshotError::DecompressionError),
        },
{
    match content {
        None => Err(SnapshotError::DecompressionError),
        Some(bytes) => StateSnapshot::from_bytes(bytes.as_slice()),
    }
}

/// What is stored for a snapshot: its bytes, or its packed form.
pub open spec fn stored_bytes(s: SnapshotView, compress: bool) -> Result<Seq<u8>, SnapshotError> {
    if !s.consistent() {
        if s.theta.len() > u32::MAX {
            Err(SnapshotError::InvalidFormat(SnapshotFault::TooManyOscillators))
        } else {
            Err(SnapshotError::InvalidFormat(SnapshotFault::UnevenArrays))
        }
    } else if !compress {
        Ok(snapshot_bytes(s))
    } else {
        match zstd_frame(snapshot_bytes(s), COMPRESSION_LEVEL) {
            Some(frame) => Ok(compressed_identifier() + frame),
            None => Err(SnapshotError::CompressionError),
        }
    }
}

/// What stored bytes hold: a packed snapshot where they begin with the
/// packed identifier, else a plain one.
pub open spec fn loaded_snapshot(bytes: Seq<u8>) -> Result<SnapshotView, SnapshotError> {
    if is_packed(bytes) {
        match zstd_content(bytes.subrange(5, bytes.len() as int)) {
            Some(content) => parse_snapshot(content),
            None => Err(SnapshotError::DecompressionError),
        }
    } else {
        parse_snapshot(bytes)
    }
}

impl StateSnapshot {
    /// The bytes to store for the snapshot, compressed if asked.
    pub fn to_stored_bytes(&self, compress: bool) -> (r: Result<Vec<u8>, SnapshotError>)
        ensures
            match stored_bytes(self@, compress) {
                Ok(bytes) => r is Ok && r->Ok_0@ == bytes,
                Err(e) => r == Err::<Vec<u8>, SnapshotError>(e),
            },
    {
        let plain: Vec<u8> = match self.to_bytes() {
            Ok(b) => b,
            Err(e) => {
                return Err(e);
            },
        };
        if compress {
            frame_packed(zstd_encode(plain.as_slice(), COMPRESSION_LEVEL))
        } else {
            Ok(plain)
        }
    }

    /// The snapshot in stored bytes, plain or packed.
    pub fn from_stored_bytes(bytes: &[u8]) -> (r: Result<Self, SnapshotError>)
        ensures
            match loaded_snapshot(bytes@) {
                Ok(s) => r is Ok && r->Ok_0@ == s,
                Err(e) => r == Err::<Self, SnapshotError>(e),
            },
    {
        let packed: bool = bytes.len() >= 5 && bytes[0] == 0x41 && bytes[1] == 0x4C && bytes[2]
            == 0x53 && bytes[3] == 0x4E && bytes[4] == 0x5A;
        proof {
            if bytes@.len() >= 5 {
                let m = bytes@.subrange(0, 5);
                assert(m[0] == bytes@[0] && m[1] == bytes@[1] && m[2] == bytes@[2] && m[3]
                    == bytes@[3] && m[4] == bytes@[4]);
                if packed {
                    assert(m =~= compressed_identifier());
                }
            }
        }
        if packed {
            from_unpacked(zstd_decode(slice_range(bytes, 5, bytes.len())))
        } else {
            StateSnapshot::from_bytes(bytes)
        }
    }
}

} // verus!

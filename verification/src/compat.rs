//! Schema versions and the compatibility header of an archive file.
//!
//! ```text
//! schema:  length u32 (30) | version u32 | oscillators u64 | six flag bytes
//!          | compatibility flags u32 | creation time u64
//! header:  "PSIARC" | schema | sessions u32 | CRC-32 of all bytes before
//! ```
//! All integers are little-endian; a flag byte is 0 or 1.

use vstd::prelude::*;
use crate::bytes::{
    le_bytes, le_value, lemma_le_bytes_len, lemma_le_roundtrip, lemma_pow256_values, push_u32_le,
    push_u64_le, read_u32_le, read_u64_le,
};
use crate::checksum::{crc32, crc32_ieee};
use crate::format::slice_range;

verus! {

/// The newest schema version.
pub const CURRENT_SCHEMA_VERSION: u32 = 2;

/// Oscillators of an archive in the current version.
pub const DEFAULT_OSCILLATOR_COUNT: usize = 256;

/// Bytes of an encoded schema, without its length prefix.
pub const SCHEMA_LEN: usize = 30;

/// Bytes of an encoded header.
pub const HEADER_LEN: usize = 48;

/// What an archive holds and how.
#[derive(Debug, Clone, Copy, PartialEq, Eq, Structural)]
pub struct FeatureFlags {
    /// Audio is present.
    pub has_audio: bool,
    /// Video is present.
    pub has_video: bool,
    /// The archive is encrypted.
    pub encrypted: bool,
    /// Chunks are cut by content.
    pub chunked: bool,
    /// Markers and annotations are present.
    pub annotated: bool,
    /// Frames are stored as differences.
    pub delta_encoded: bool,
}

impl Default for FeatureFlags {
    /// Audio and video, stored as differences; nothing else.
    fn default() -> (f: Self)
        ensures
            f == (FeatureFlags {
                has_audio: true,
                has_video: true,
                encrypted: false,
                chunked: false,
                annotated: false,
                delta_encoded: true,
            }),
    {
        FeatureFlags {
            has_audio: true,
            has_video: true,
            encrypted: false,
            chunked: false,
            annotated: false,
            delta_encoded: true,
        }
    }
}

/// The schema version of an archive, with its features.
#[derive(Debug, Clone, Copy, PartialEq, Eq, Structural)]
pub struct SchemaVersion {
    /// Schema version number.
    pub version: u32,
    /// Oscillators in the archive.
    pub oscillator_count: usize,
    /// What the archive holds and how.
    pub features: FeatureFlags,
    /// Compatibility flags.
    pub compat_flags: u32,
    /// Creation time, in seconds since the epoch.
    pub created_at: u64,
}

/// Why bytes could not be read.
#[derive(Debug, Clone, Copy, PartialEq, Eq, Structural)]
pub enum IoFault {
    /// The bytes end before the value does.
    UnexpectedEof,
    /// The bytes do not encode a value.
    InvalidData,
}

/// What can go wrong with compatibility.
#[derive(Debug)]
pub enum CompatError {
    /// The schema version is not supported.
    UnsupportedVersion(u32),
    /// The archive has another number of oscillators than expected: actual,
    /// then expected.
    OscillatorCountMismatch(usize, usize),
    /// The archive uses a feature that is not supported.
    UnsupportedFeature(String),
    /// The bytes could not be read.
    IoError(IoFault),
    /// The archive needs a feature that this build lacks.
    MissingFeature(String),
}

/// The byte of a flag.
pub open spec fn flag_byte(b: bool) -> u8 {
    if b {
        1
    } else {
        0
    }
}

/// The six flag bytes.
pub open spec fn flags_bytes(f: FeatureFlags) -> Seq<u8> {
    seq![
        flag_byte(f.has_audio),
        flag_byte(f.has_video),
        flag_byte(f.encrypted),
        flag_byte(f.chunked),
        flag_byte(f.annotated),
        flag_byte(f.delta_encoded),
    ]
}

/// The encoded schema, behind its length prefix.
pub open spec fn schema_bytes(s: SchemaVersion) -> Seq<u8> {
    le_bytes(SCHEMA_LEN as nat, 4) + le_bytes(s.version as nat, 4) + le_bytes(
        s.oscillator_count as nat,
        8,
    ) + flags_bytes(s.features) + le_bytes(s.compat_flags as nat, 4) + le_bytes(
        s.created_at as nat,
        8,
    )
}

/// The magic of the compatibility header: `PSIARC`.
pub open spec fn psiarc_magic() -> Seq<u8> {
    seq![0x50u8, 0x53u8, 0x49u8, 0x41u8, 0x52u8, 0x43u8]
}

/// Whether the six bytes from `at` on are flag bytes: each 0 or 1.
pub open spec fn flags_decode(data: Seq<u8>, at: int) -> bool {
    data[at] <= 1 && data[at + 1] <= 1 && data[at + 2] <= 1 && data[at + 3] <= 1 && data[at + 4]
        <= 1 && data[at + 5] <= 1
}

/// What `data` holds as a schema from byte `at` on.
///
/// The length prefix must leave room for its bytes in the data and for the
/// thirty bytes of a schema in itself; every flag byte must be 0 or 1; the
/// oscillator count must fit the machine's sizes.
pub open spec fn parse_schema(data: Seq<u8>, at: int) -> Result<(SchemaVersion, int), IoFault> {
    if data.len() < at + 4 {
        Err(IoFault::UnexpectedEof)
    } else {
        let len = le_value(data.subrange(at, at + 4)) as int;
        if data.len() < at + 4 + len {
            Err(IoFault::UnexpectedEof)
        } else if len < SCHEMA_LEN {
            Err(IoFault::InvalidData)
        } else {
            let body = at + 4;
            let count = le_value(data.subrange(body + 4, body + 12));
            if count > usize::MAX {
                Err(IoFault::InvalidData)
            } else if !flags_decode(data, body + 12) {
                Err(IoFault::InvalidData)
            } else {
                Ok(
                    (
                        SchemaVersion {
                            version: le_value(data.subrange(body, body + 4)) as u32,
                            oscillator_count: count as usize,
                            features: FeatureFlags {
                                has_audio: data[body + 12] == 1,
                                has_video: data[body + 13] == 1,
                                encrypted: data[body + 14] == 1,
                                chunked: data[body + 15] == 1,
                                annotated: data[body + 16] == 1,
                                delta_encoded: data[body + 17] == 1,
                            },
                            compat_flags: le_value(data.subrange(body + 18, body + 22)) as u32,
                            created_at: le_value(data.subrange(body + 22, body + 30)) as u64,
                        },
                        body + len,
                    ),
                )
            }
        }
    }
}

fn push_flag(out: &mut Vec<u8>, b: bool)
    ensures
        final(out)@ == old(out)@.push(flag_byte(b)),
{
    out.push(if b {
        1
    } else {
        0
    });
}

impl SchemaVersion {
    /// The current schema for `oscillator_count` oscillators, created at
    /// `created_at`, with the default features.
    pub open spec fn current(oscillator_count: usize, created_at: u64) -> SchemaVersion {
        SchemaVersion {
            version: CURRENT_SCHEMA_VERSION,
            oscillator_count,
            features: FeatureFlags {
                has_audio: true,
                has_video: true,
                encrypted: false,
                chunked: false,
                annotated: false,
                delta_encoded: true,
            },
            compat_flags: 0,
            created_at,
        }
    }

    /// The current schema for `oscillator_count` oscillators, created at
    /// `created_at`, with the default features.
    pub fn new(oscillator_count: usize, created_at: u64) -> (s: Self)
        ensures
            s == SchemaVersion::current(oscillator_count, created_at),
    {
        SchemaVersion {
            version: CURRENT_SCHEMA_VERSION,
            oscillator_count,
            features: FeatureFlags::default(),
            compat_flags: 0,
            created_at,
        }
    }

    /// Whether this build reads the schema: version 1 or 2, at least one
    /// oscillator, and audio or video.
    pub open spec fn compatible(&self) -> bool {
        (self.version == 1 || self.version == 2) && self.oscillator_count > 0 && (
        self.features.has_audio || self.features.has_video)
    }

    /// Whether this build reads the schema.
    pub fn is_compatible(&self) -> (b: bool)
        ensures
            b == self.compatible(),
    {
        (self.version == 1 || self.version == 2) && self.oscillator_count > 0 && (
        self.features.has_audio || self.features.has_video)
    }

    /// Whether the archive has another number of oscillators than the
    /// current version's.
    pub fn needs_oscillator_migration(&self) -> (b: bool)
        ensures
            b == (self.oscillator_count != DEFAULT_OSCILLATOR_COUNT),
    {
        self.oscillator_count != DEFAULT_OSCILLATOR_COUNT
    }

    /// Appends the encoded schema.
    pub fn write(&self, out: &mut Vec<u8>)
        ensures
            final(out)@ == old(out)@ + schema_bytes(*self),
    {
        push_u32_le(out, SCHEMA_LEN as u32);
        push_u32_le(out, self.version);
        push_u64_le(out, self.oscillator_count as u64);
        let ghost before = out@;
        push_flag(out, self.features.has_audio);
        push_flag(out, self.features.has_video);
        push_flag(out, self.features.encrypted);
        push_flag(out, self.features.chunked);
        push_flag(out, self.features.annotated);
        push_flag(out, self.features.delta_encoded);
        assert(out@ =~= before + flags_bytes(self.features));
        push_u32_le(out, self.compat_flags);
        push_u64_le(out, self.created_at);
        assert(out@ =~= old(out)@ + schema_bytes(*self));
    }

    /// Reads the schema that stands at byte `at`, and says where it ends.
    pub fn read(data: &[u8], at: usize) -> (r: Result<(SchemaVersion, usize), IoFault>)
        requires
            at <= data@.len(),
        ensures
            match parse_schema(data@, at as int) {
                Ok((schema, end)) => r == Ok::<(SchemaVersion, usize), IoFault>(
                    (schema, end as usize),
                ) && end <= data@.len(),
                Err(fault) => r == Err::<(SchemaVersion, usize), IoFault>(fault),
            },
    {
        let total: usize = data.len();
        if total - at < 4 {
            return Err(IoFault::UnexpectedEof);
        }
        let len: u32 = read_u32_le(data, at);
        if ((total - at - 4) as u64) < len as u64 {
            return Err(IoFault::UnexpectedEof);
        }
        if (len as u64) < SCHEMA_LEN as u64 {
            return Err(IoFault::InvalidData);
        }
        let body: usize = at + 4;
        let version: u32 = read_u32_le(data, body);
        let count: u64 = read_u64_le(data, body + 4);
        if count > usize::MAX as u64 {
            return Err(IoFault::InvalidData);
        }
        if data[body + 12] > 1 || data[body + 13] > 1 || data[body + 14] > 1 || data[body + 15] > 1
            || data[body + 16] > 1 || data[body + 17] > 1 {
            return Err(IoFault::InvalidData);
        }
        let features = FeatureFlags {
            has_audio: data[body + 12] == 1,
            has_video: data[body + 13] == 1,
            encrypted: data[body + 14] == 1,
            chunked: data[body + 15] == 1,
            annotated: data[body + 16] == 1,
            delta_encoded: data[body + 17] == 1,
        };
        let compat_flags: u32 = read_u32_le(data, body + 18);
        let created_at: u64 = read_u64_le(data, body + 22);
        Ok(
            (
                SchemaVersion {
                    version,
                    oscillator_count: count as usize,
                    features,
                    compat_flags,
                    created_at,
                },
                body + len as usize,
            ),
        )
    }
}

/// An encoded schema reads back as itself, wherever in a buffer it stands.
pub proof fn theorem_schema_roundtrip(prefix: Seq<u8>, s: SchemaVersion, suffix: Seq<u8>)
    ensures
        schema_bytes(s).len() == 4 + SCHEMA_LEN,
        parse_schema(prefix + schema_bytes(s) + suffix, prefix.len() as int) == Ok::<
            (SchemaVersion, int),
            IoFault,
        >((s, prefix.len() + 4 + SCHEMA_LEN)),
{
    let data = prefix + schema_bytes(s) + suffix;
    let at = prefix.len() as int;
    let body = at + 4;
    lemma_pow256_values();
    lemma_le_bytes_len(SCHEMA_LEN as nat, 4);
    lemma_le_bytes_len(s.version as nat, 4);
    lemma_le_bytes_len(s.oscillator_count as nat, 8);
    lemma_le_bytes_len(s.compat_flags as nat, 4);
    lemma_le_bytes_len(s.created_at as nat, 8);
    lemma_le_roundtrip(SCHEMA_LEN as nat, 4);
    lemma_le_roundtrip(s.version as nat, 4);
    lemma_le_roundtrip(s.oscillator_count as nat, 8);
    lemma_le_roundtrip(s.compat_flags as nat, 4);
    lemma_le_roundtrip(s.created_at as nat, 8);
    assert(data.subrange(at, at + 4) =~= le_bytes(SCHEMA_LEN as nat, 4));
    assert(data.subrange(body, body + 4) =~= le_bytes(s.version as nat, 4));
    assert(data.subrange(body + 4, body + 12) =~= le_bytes(s.oscillator_count as nat, 8));
    assert(data.subrange(body + 18, body + 22) =~= le_bytes(s.compat_flags as nat, 4));
    assert(data.subrange(body + 22, body + 30) =~= le_bytes(s.created_at as nat, 8));
    let f = flags_bytes(s.features);
    assert(data[body + 12] == f[0]);
    assert(data[body + 13] == f[1]);
    assert(data[body + 14] == f[2]);
    assert(data[body + 15] == f[3]);
    assert(data[body + 16] == f[4]);
    assert(data[body + 17] == f[5]);
}

/// The compatibility header of an archive file.
#[derive(Debug, Clone, Copy)]
pub struct ArchiveHeader {
    /// The magic, `PSIARC`.
    pub magic: [u8; 6],
    /// Schema version and features.
    pub schema: SchemaVersion,
    /// Sessions in the archive.
    pub session_count: u32,
    /// CRC-32 of the header's bytes before this field.
    pub header_crc: u32,
}

/// The bytes of a header before its checksum.
pub open spec fn header_body(magic: Seq<u8>, schema: SchemaVersion, session_count: u32) -> Seq<
    u8,
> {
    magic + schema_bytes(schema) + le_bytes(session_count as nat, 4)
}

/// The bytes of a header: its body, then the checksum of the body.
pub open spec fn header_bytes(magic: Seq<u8>, schema: SchemaVersion, session_count: u32) -> Seq<
    u8,
> {
    header_body(magic, schema, session_count) + le_bytes(
        crc32_ieee(header_body(magic, schema, session_count)) as nat,
        4,
    )
}

/// What `data` hold as a header, from their first byte on.
pub open spec fn parse_header(data: Seq<u8>) -> Result<
    (Seq<u8>, SchemaVersion, u32, u32),
    IoFault,
> {
    if data.len() < 6 {
        Err(IoFault::UnexpectedEof)
    } else if data.subrange(0, 6) != psiarc_magic() {
        Err(IoFault::InvalidData)
    } else {
        match parse_schema(data, 6) {
            Err(fault) => Err(fault),
            Ok((schema, end)) => if data.len() < end + 8 {
                Err(IoFault::UnexpectedEof)
            } else if le_value(data.subrange(end + 4, end + 8)) != crc32_ieee(
                data.subrange(0, end + 4),
            ) {
                Err(IoFault::InvalidData)
            } else {
                Ok(
                    (
                        psiarc_magic(),
                        schema,
                        le_value(data.subrange(end, end + 4)) as u32,
                        le_value(data.subrange(end + 4, end + 8)) as u32,
                    ),
                )
            },
        }
    }
}

/// An encoded header reads back as it was written, whatever follows it.
pub proof fn theorem_header_roundtrip(schema: SchemaVersion, session_count: u32, rest: Seq<u8>)
    ensures
        header_bytes(psiarc_magic(), schema, session_count).len() == HEADER_LEN,
        parse_header(header_bytes(psiarc_magic(), schema, session_count) + rest) == Ok::<
            (Seq<u8>, SchemaVersion, u32, u32),
            IoFault,
        >(
            (
                psiarc_magic(),
                schema,
                session_count,
                crc32_ieee(header_body(psiarc_magic(), schema, session_count)),
            ),
        ),
{
    let body = header_body(psiarc_magic(), schema, session_count);
    let crc = crc32_ieee(body);
    let data = header_bytes(psiarc_magic(), schema, session_count) + rest;
    let suffix = le_bytes(session_count as nat, 4) + le_bytes(crc as nat, 4) + rest;
    lemma_pow256_values();
    lemma_le_bytes_len(session_count as nat, 4);
    lemma_le_bytes_len(crc as nat, 4);
    lemma_le_roundtrip(session_count as nat, 4);
    lemma_le_roundtrip(crc as nat, 4);
    theorem_schema_roundtrip(psiarc_magic(), schema, suffix);
    assert(data =~= psiarc_magic() + schema_bytes(schema) + suffix);
    let end = 6 + 4 + SCHEMA_LEN as int;
    assert(data.subrange(0, 6) =~= psiarc_magic());
    assert(data.subrange(end, end + 4) =~= le_bytes(session_count as nat, 4));
    assert(data.subrange(end + 4, end + 8) =~= le_bytes(crc as nat, 4));
    assert(data.subrange(0, end + 4) =~= body);
}

impl ArchiveHeader {
    /// A header for a new archive of `oscillator_count` oscillators, created
    /// at `created_at`: no sessions yet, and no checksum.
    pub fn new(oscillator_count: usize, created_at: u64) -> (h: Self)
        ensures
            h.magic@ == psiarc_magic(),
            h.schema == SchemaVersion::current(oscillator_count, created_at),
            h.session_count == 0,
            h.header_crc == 0,
    {
        let magic: [u8; 6] = [0x50, 0x53, 0x49, 0x41, 0x52, 0x43];
        assert(magic@ =~= psiarc_magic());
        ArchiveHeader {
            magic,
            schema: SchemaVersion::new(oscillator_count, created_at),
            session_count: 0,
            header_crc: 0,
        }
    }

    /// Whether the header has the magic and a schema that this build reads.
    pub fn is_valid(&self) -> (b: bool)
        ensures
            b == (self.magic@ == psiarc_magic() && self.schema.compatible()),
    {
        let magic_ok: bool = self.magic[0] == 0x50 && self.magic[1] == 0x53 && self.magic[2]
            == 0x49 && self.magic[3] == 0x41 && self.magic[4] == 0x52 && self.magic[5] == 0x43;
        proof {
            if magic_ok {
                assert(self.magic@ =~= psiarc_magic());
            }
        }
        magic_ok && self.schema.is_compatible()
    }

    /// Appends the encoded header. The checksum written is that of the bytes
    /// written before it, whatever the header's own field says.
    pub fn write(&self, out: &mut Vec<u8>)
        requires
            old(out)@.len() == 0,
        ensures
            final(out)@ == header_bytes(self.magic@, self.schema, self.session_count),
    {
        let mut i: usize = 0;
        while i < 6
            invariant
                i <= 6,
                out@ == self.magic@.take(i as int),
            decreases 6 - i,
        {
            out.push(self.magic[i]);
            i = i + 1;
            assert(out@ =~= self.magic@.take(i as int));
        }
        assert(self.magic@.take(6) =~= self.magic@);
        self.schema.write(out);
        push_u32_le(out, self.session_count);
        let crc: u32 = crc32(out.as_slice());
        push_u32_le(out, crc);
    }

    /// Reads the header at the front of `data`.
    ///
    /// Fails where the data end too early, the magic is wrong, the schema
    /// does not decode or the checksum does not match the bytes before it.
    pub fn read(data: &[u8]) -> (r: Result<ArchiveHeader, CompatError>)
        ensures
            match parse_header(data@) {
                Ok((magic, schema, session_count, header_crc)) => r is Ok && r->Ok_0.magic@
                    == magic && r->Ok_0.schema == schema && r->Ok_0.session_count
                    == session_count && r->Ok_0.header_crc == header_crc,
                Err(fault) => r is Err && r->Err_0 == CompatError::IoError(fault),
            },
    {
        let total: usize = data.len();
        if total < 6 {
            return Err(CompatError::IoError(IoFault::UnexpectedEof));
        }
        let magic: [u8; 6] = [data[0], data[1], data[2], data[3], data[4], data[5]];
        let magic_ok: bool = magic[0] == 0x50 && magic[1] == 0x53 && magic[2] == 0x49 && magic[3]
            == 0x41 && magic[4] == 0x52 && magic[5] == 0x43;
        proof {
            let m = data@.subrange(0, 6);
            assert(m[0] == data@[0] && m[1] == data@[1] && m[2] == data@[2] && m[3] == data@[3]
                && m[4] == data@[4] && m[5] == data@[5]);
            if magic_ok {
                assert(m =~= psiarc_magic());
                assert(magic@ =~= psiarc_magic());
            }
        }
        if !magic_ok {
            return Err(CompatError::IoError(IoFault::InvalidData));
        }
        let (schema, end) = match SchemaVersion::read(data, 6) {
            Ok(pair) => pair,
            Err(fault) => {
                return Err(CompatError::IoError(fault));
            },
        };
        if total - end < 8 {
            return Err(CompatError::IoError(IoFault::UnexpectedEof));
        }
        let session_count: u32 = read_u32_le(data, end);
        let header_crc: u32 = read_u32_le(data, end + 4);
        let computed: u32 = crc32(slice_range(data, 0, end + 4));
        if computed != header_crc {
            return Err(CompatError::IoError(IoFault::InvalidData));
        }
        Ok(ArchiveHeader { magic, schema, session_count, header_crc })
    }
}

/// Accepts a header for use with this build: invalid headers are refused
/// with their schema version, and headers with another number of oscillators
/// than the current version's with the two counts.
pub fn verify_header(header: &ArchiveHeader) -> (r: Result<(), CompatError>)
    ensures
        r is Ok <==> header.magic@ == psiarc_magic() && header.schema.compatible()
            && header.schema.oscillator_count == DEFAULT_OSCILLATOR_COUNT,
        !(header.magic@ == psiarc_magic() && header.schema.compatible()) ==> r is Err && r->Err_0
            == CompatError::UnsupportedVersion(header.schema.version),
        header.magic@ == psiarc_magic() && header.schema.compatible()
            && header.schema.oscillator_count != DEFAULT_OSCILLATOR_COUNT ==> r is Err && r->Err_0
            == CompatError::OscillatorCountMismatch(
            header.schema.oscillator_count,
            DEFAULT_OSCILLATOR_COUNT,
        ),
{
    if !header.is_valid() {
        return Err(CompatError::UnsupportedVersion(header.schema.version));
    }
    if header.schema.needs_oscillator_migration() {
        return Err(
            CompatError::OscillatorCountMismatch(
                header.schema.oscillator_count,
                DEFAULT_OSCILLATOR_COUNT,
            ),
        );
    }
    Ok(())
}

/// The state of `source_count` oscillators carried over to `target_count`
/// oscillators, each with as many values as `source` gives one: where there
/// are more oscillators now, `zero` fills their values; where there are
/// fewer, the values of the last ones are left out.
pub open spec fn migrated<T>(source: Seq<T>, source_count: int, target_count: int, zero: T) -> Seq<
    T,
> {
    if source_count == target_count {
        source
    } else {
        let per = source.len() as int / source_count;
        if source_count < target_count {
            source + Seq::new((per * (target_count - source_count)) as nat, |i: int| zero)
        } else {
            source.subrange(0, per * target_count)
        }
    }
}

/// Carries the state of `source_count` oscillators over to `target_count`
/// oscillators.
pub fn migrate_oscillator_state<T: Copy>(
    source: &[T],
    source_count: usize,
    target_count: usize,
    zero: T,
) -> (r: Vec<T>)
    requires
        source_count == target_count || source_count > 0,
        source_count < target_count ==> (source@.len() as int / source_count as int) * (
        target_count - source_count) + source@.len() <= usize::MAX,
    ensures
        r@ == migrated(source@, source_count as int, target_count as int, zero),
{
    let mut result: Vec<T> = Vec::new();
    if source_count == target_count {
        let mut i: usize = 0;
        while i < source.len()
            invariant
                i <= source@.len(),
                result@ == source@.take(i as int),
            decreases source@.len() - i,
        {
            result.push(source[i]);
            i = i + 1;
            assert(result@ =~= source@.take(i as int));
        }
        assert(source@.take(source@.len() as int) =~= source@);
        return result;
    }
    let per: usize = source.len() / source_count;
    if source_count < target_count {
        let mut i: usize = 0;
        while i < source.len()
            invariant
                i <= source@.len(),
                result@ == source@.take(i as int),
            decreases source@.len() - i,
        {
            result.push(source[i]);
            i = i + 1;
            assert(result@ =~= source@.take(i as int));
        }
        assert(source@.take(source@.len() as int) =~= source@);
        let extra: usize = target_count - source_count;
        assert(per * extra <= usize::MAX) by (nonlinear_arith)
            requires
                per * extra + source@.len() <= usize::MAX,
                source@.len() >= 0,
        ;
        let padding: usize = per * extra;
        let mut k: usize = 0;
        while k < padding
            invariant
                k <= padding,
                result@ == source@ + Seq::new(k as nat, |i: int| zero),
            decreases padding - k,
        {
            result.push(zero);
            k = k + 1;
            assert(result@ =~= source@ + Seq::new(k as nat, |i: int| zero));
        }
        result
    } else {
        assert(per * target_count <= source@.len()) by (nonlinear_arith)
            requires
                per == source@.len() as int / source_count as int,
                0 <= target_count < source_count,
                source@.len() >= 0,
        ;
        let keep: usize = per * target_count;
        let mut i: usize = 0;
        while i < keep
            invariant
                i <= keep,
                keep <= source@.len(),
                result@ == source@.take(i as int),
            decreases keep - i,
        {
            result.push(source[i]);
            i = i + 1;
            assert(result@ =~= source@.take(i as int));
        }
        assert(source@.take(keep as int) =~= source@.subrange(0, keep as int));
        result
    }
}

} // verus!

//! The archive on the wire: header, chunks, end marker.
//!
//! ```text
//! header:  magic (5) | version u16 | start time u64 | CRC-32 of the 15 bytes before
//! chunk:   tag | LEB128 payload length | payload | CRC-32 of the payload
//! end:     0xFF | LEB128 0
//! ```
//! All integers are little-endian. A tag is the band, with the high bit set on
//! a keyframe.

use vstd::prelude::*;
use crate::bytes::{
    le_bytes, le_value, lemma_le_bytes_len, lemma_le_roundtrip, lemma_pow256_values, push_u16_le,
    push_u32_le, push_u64_le, read_u16_le, read_u32_le, read_u64_le,
};
use crate::checksum::{crc32, crc32_ieee};
use crate::frame::{band_is_visual, is_visual_band, BAND_AUDIO_PCM, BAND_END, FRAME_PERIOD_MS};
use crate::leb128::{
    leb128, leb128_parse, lemma_parse_bounds, read_leb128, write_leb128, LebError, LebParse,
    MAX_GROUPS,
};

verus! {

/// Bytes in a header.
pub const HEADER_LEN: usize = 19;

/// The one format version written and read.
pub const FORMAT_VERSION: u16 = 1;

/// The five bytes that open an archive.
pub open spec fn magic() -> Seq<u8> {
    seq![0xCEu8, 0xA8u8, 0x41u8, 0x52u8, 0x43u8]
}

/// A header without its checksum.
pub open spec fn header_prefix(version: u16, start_timestamp_ms: u64) -> Seq<u8> {
    magic() + le_bytes(version as nat, 2) + le_bytes(start_timestamp_ms as nat, 8)
}

/// A whole header.
pub open spec fn header_bytes(version: u16, start_timestamp_ms: u64) -> Seq<u8> {
    let prefix = header_prefix(version, start_timestamp_ms);
    prefix + le_bytes(crc32_ieee(prefix) as nat, 4)
}

/// The tag of a chunk: the band, with the high bit set on a keyframe.
pub open spec fn chunk_tag(band: u8, is_keyframe: bool) -> u8 {
    if is_keyframe && band < 128 {
        (band + 128) as u8
    } else {
        band
    }
}

/// A whole chunk.
pub open spec fn chunk_bytes(tag: u8, payload: Seq<u8>) -> Seq<u8> {
    seq![tag] + leb128(payload.len()) + payload + le_bytes(crc32_ieee(payload) as nat, 4)
}

/// The two bytes that end the chunk stream.
pub open spec fn end_marker() -> Seq<u8> {
    seq![0xFFu8, 0x00u8]
}

/// What is wrong with the bytes of an archive.
#[derive(Clone, Copy, Debug, PartialEq, Eq, Structural)]
pub enum FormatFault {
    /// Fewer bytes than a header has.
    FileTooSmall,
    /// The first five bytes are not the magic.
    BadMagic,
    /// The header's checksum does not match its bytes.
    HeaderCrcMismatch,
    /// The data ends inside a chunk's length.
    TruncatedLength,
    /// A chunk's length has more than five groups.
    LengthOverflow,
    /// A chunk's payload or checksum runs past the end of the data.
    ChunkBeyondEnd,
    /// A chunk's checksum does not match its payload.
    ChunkCrcMismatch,
    /// A chunk's payload is shorter than the frame it should hold.
    PayloadTooShort,
}

/// What a reader reports.
#[derive(Clone, Copy, Debug, PartialEq, Eq, Structural)]
pub enum ReaderError {
    /// The storage underneath failed.
    Io,
    /// The bytes are not a well-formed archive.
    InvalidFormat(FormatFault),
    /// The archive has a version that this reader does not read.
    UnsupportedVersion(u16),
    /// There is nothing more to read.
    EndOfFile,
    /// No keyframe stands at or before the frame asked for.
    SeekError,
    /// A compressed chunk could not be expanded.
    DecompressionError,
    /// A parameter is out of range.
    InvalidParameter,
}

impl ReaderError {
    /// A line of text for logs.
    pub fn message(&self) -> (s: &'static str)
        ensures
            s@ == (match self {
                ReaderError::Io => "I/O error"@,
                ReaderError::InvalidFormat(FormatFault::FileTooSmall) =>
                    "File too small for header"@,
                ReaderError::InvalidFormat(FormatFault::BadMagic) => "Invalid magic bytes"@,
                ReaderError::InvalidFormat(FormatFault::HeaderCrcMismatch) =>
                    "Header CRC mismatch"@,
                ReaderError::InvalidFormat(FormatFault::TruncatedLength) =>
                    "Unexpected end of file in LEB128"@,
                ReaderError::InvalidFormat(FormatFault::LengthOverflow) => "LEB128 overflow"@,
                ReaderError::InvalidFormat(FormatFault::ChunkBeyondEnd) =>
                    "Chunk extends beyond file"@,
                ReaderError::InvalidFormat(FormatFault::ChunkCrcMismatch) => "Chunk CRC mismatch"@,
                ReaderError::InvalidFormat(FormatFault::PayloadTooShort) => "Frame data too small"@,
                ReaderError::UnsupportedVersion(_) => "Unsupported archive version"@,
                ReaderError::EndOfFile => "End of file"@,
                ReaderError::SeekError => "No keyframe found before frame"@,
                ReaderError::DecompressionError => "Decompression error"@,
                ReaderError::InvalidParameter => "Invalid parameter"@,
            }),
    {
        match self {
            ReaderError::Io => "I/O error",
            ReaderError::InvalidFormat(FormatFault::FileTooSmall) => "File too small for header",
            ReaderError::InvalidFormat(FormatFault::BadMagic) => "Invalid magic bytes",
            ReaderError::InvalidFormat(FormatFault::HeaderCrcMismatch) => "Header CRC mismatch",
            ReaderError::InvalidFormat(FormatFault::TruncatedLength) => {
                "Unexpected end of file in LEB128"
            },
            ReaderError::InvalidFormat(FormatFault::LengthOverflow) => "LEB128 overflow",
            ReaderError::InvalidFormat(FormatFault::ChunkBeyondEnd) => "Chunk extends beyond file",
            ReaderError::InvalidFormat(FormatFault::ChunkCrcMismatch) => "Chunk CRC mismatch",
            ReaderError::InvalidFormat(FormatFault::PayloadTooShort) => "Frame data too small",
            ReaderError::UnsupportedVersion(_) => "Unsupported archive version",
            ReaderError::EndOfFile => "End of file",
            ReaderError::SeekError => "No keyframe found before frame",
            ReaderError::DecompressionError => "Decompression error",
            ReaderError::InvalidParameter => "Invalid parameter",
        }
    }
}

/// What a header says.
#[derive(Clone, Copy, Debug, PartialEq, Eq, Structural)]
pub struct StreamHeader {
    /// Format version.
    pub version: u16,
    /// Time of the first frame, in milliseconds.
    pub start_timestamp_ms: u64,
    /// The checksum stored in the header.
    pub header_crc: u32,
}

/// What the first bytes of `data` are as a header.
///
/// The checks come in this order: length, magic, version, checksum.
pub open spec fn parse_header_spec(data: Seq<u8>) -> Result<StreamHeader, ReaderError> {
    if data.len() < HEADER_LEN {
        Err(ReaderError::InvalidFormat(FormatFault::FileTooSmall))
    } else if data.subrange(0, 5) != magic() {
        Err(ReaderError::InvalidFormat(FormatFault::BadMagic))
    } else if le_value(data.subrange(5, 7)) != FORMAT_VERSION {
        Err(ReaderError::UnsupportedVersion(le_value(data.subrange(5, 7)) as u16))
    } else if le_value(data.subrange(15, 19)) != crc32_ieee(data.subrange(0, 15)) {
        Err(ReaderError::InvalidFormat(FormatFault::HeaderCrcMismatch))
    } else {
        Ok(
            StreamHeader {
                version: FORMAT_VERSION,
                start_timestamp_ms: le_value(data.subrange(7, 15)) as u64,
                header_crc: le_value(data.subrange(15, 19)) as u32,
            },
        )
    }
}

/// Appends a header for an archive that starts at `start_timestamp_ms`.
pub fn write_header(out: &mut Vec<u8>, start_timestamp_ms: u64)
    requires
        old(out)@.len() == 0,
    ensures
        final(out)@ == header_bytes(FORMAT_VERSION, start_timestamp_ms),
        final(out)@.len() == HEADER_LEN,
{
    out.push(0xCE);
    out.push(0xA8);
    out.push(0x41);
    out.push(0x52);
    out.push(0x43);
    assert(out@ =~= magic());
    push_u16_le(out, FORMAT_VERSION);
    push_u64_le(out, start_timestamp_ms);
    let crc: u32 = crc32(out.as_slice());
    push_u32_le(out, crc);
    proof {
        lemma_le_bytes_len(FORMAT_VERSION as nat, 2);
        lemma_le_bytes_len(start_timestamp_ms as nat, 8);
        lemma_le_bytes_len(crc as nat, 4);
    }
}

/// Reads the header at the front of `data`.
pub fn parse_header(data: &[u8]) -> (r: Result<StreamHeader, ReaderError>)
    ensures
        r == parse_header_spec(data@),
{
    if data.len() < HEADER_LEN {
        return Err(ReaderError::InvalidFormat(FormatFault::FileTooSmall));
    }
    let magic_ok: bool = data[0] == 0xCE && data[1] == 0xA8 && data[2] == 0x41 && data[3] == 0x52
        && data[4] == 0x43;
    proof {
        let m = data@.subrange(0, 5);
        assert(m[0] == data@[0] && m[1] == data@[1] && m[2] == data@[2] && m[3] == data@[3] && m[4]
            == data@[4]);
        if magic_ok {
            assert(m =~= magic());
        }
    }
    if !magic_ok {
        return Err(ReaderError::InvalidFormat(FormatFault::BadMagic));
    }
    let version: u16 = read_u16_le(data, 5);
    if version != FORMAT_VERSION {
        return Err(ReaderError::UnsupportedVersion(version));
    }
    let start_timestamp_ms: u64 = read_u64_le(data, 7);
    let header_crc: u32 = read_u32_le(data, 15);
    let computed: u32 = crc32(slice_range(data, 0, 15));
    if computed != header_crc {
        return Err(ReaderError::InvalidFormat(FormatFault::HeaderCrcMismatch));
    }
    Ok(StreamHeader { version, start_timestamp_ms, header_crc })
}

/// The part of `data` from `from` up to `to`.
pub fn slice_range(data: &[u8], from: usize, to: usize) -> (part: &[u8])
    requires
        from <= to <= data@.len(),
    ensures
        part@ == data@.subrange(from as int, to as int),
{
    vstd::slice::slice_subrange(data, from, to)
}

/// A header that was written reads back, whatever follows it.
pub proof fn lemma_header_roundtrip(start_timestamp_ms: u64, rest: Seq<u8>)
    ensures
        header_bytes(FORMAT_VERSION, start_timestamp_ms).len() == HEADER_LEN,
        parse_header_spec(header_bytes(FORMAT_VERSION, start_timestamp_ms) + rest) == Ok::<
            StreamHeader,
            ReaderError,
        >(
            StreamHeader {
                version: FORMAT_VERSION,
                start_timestamp_ms,
                header_crc: crc32_ieee(header_prefix(FORMAT_VERSION, start_timestamp_ms)),
            },
        ),
{
    let prefix = header_prefix(FORMAT_VERSION, start_timestamp_ms);
    let crc = crc32_ieee(prefix);
    let data = header_bytes(FORMAT_VERSION, start_timestamp_ms) + rest;
    lemma_pow256_values();
    lemma_le_bytes_len(FORMAT_VERSION as nat, 2);
    lemma_le_bytes_len(start_timestamp_ms as nat, 8);
    lemma_le_bytes_len(crc as nat, 4);
    lemma_le_roundtrip(FORMAT_VERSION as nat, 2);
    lemma_le_roundtrip(start_timestamp_ms as nat, 8);
    lemma_le_roundtrip(crc as nat, 4);
    assert(data.subrange(0, 5) =~= magic());
    assert(data.subrange(5, 7) =~= le_bytes(FORMAT_VERSION as nat, 2));
    assert(data.subrange(7, 15) =~= le_bytes(start_timestamp_ms as nat, 8));
    assert(data.subrange(15, 19) =~= le_bytes(crc as nat, 4));
    assert(data.subrange(0, 15) =~= prefix);
}

/// Damage to a header outside its start time is noticed.
///
/// For every header that parses, changing any one byte of the magic, the
/// version or the stored checksum makes the parse fail. (For the eight bytes
/// of the start time the same rests on the strength of the checksum, which is
/// not stated here.)
pub proof fn theorem_header_damage_noticed(data: Seq<u8>, at: int, byte: u8)
    requires
        parse_header_spec(data) is Ok,
        0 <= at < 7 || 15 <= at < HEADER_LEN,
        byte != data[at],
    ensures
        parse_header_spec(data.update(at, byte)) is Err,
{
    let damaged = data.update(at, byte);
    if at < 5 {
        assert(damaged.subrange(0, 5)[at] != data.subrange(0, 5)[at]);
    } else if at < 7 {
        assert(damaged.subrange(0, 5) =~= data.subrange(0, 5));
        let before = data.subrange(5, 7);
        let after = damaged.subrange(5, 7);
        assert(after[at - 5] != before[at - 5]);
        if le_value(after) == le_value(before) {
            crate::bytes::lemma_le_value_injective(after, before);
        }
    } else {
        assert(damaged.subrange(0, 5) =~= data.subrange(0, 5));
        assert(damaged.subrange(5, 7) =~= data.subrange(5, 7));
        assert(damaged.subrange(0, 15) =~= data.subrange(0, 15));
        let before = data.subrange(15, 19);
        let after = damaged.subrange(15, 19);
        assert(after[at - 15] != before[at - 15]);
        if le_value(after) == le_value(before) {
            crate::bytes::lemma_le_value_injective(after, before);
        }
    }
}

/// The tag for a chunk of `band`.
pub fn make_tag(band: u8, is_keyframe: bool) -> (tag: u8)
    ensures
        tag == chunk_tag(band, is_keyframe),
{
    if is_keyframe && band < 128 {
        band + 128
    } else {
        band
    }
}

/// Appends a chunk: tag, length, payload, checksum of the payload.
pub fn write_chunk_bytes(out: &mut Vec<u8>, band: u8, is_keyframe: bool, data: &[u8])
    requires
        data@.len() <= u32::MAX,
    ensures
        final(out)@ == old(out)@ + chunk_bytes(chunk_tag(band, is_keyframe), data@),
{
    let tag: u8 = make_tag(band, is_keyframe);
    out.push(tag);
    write_leb128(out, data.len() as u32);
    let ghost before = out@;
    let mut i: usize = 0;
    while i < data.len()
        invariant
            i <= data@.len(),
            out@ == before + data@.take(i as int),
        decreases data@.len() - i,
    {
        out.push(data[i]);
        i = i + 1;
        assert(out@ =~= before + data@.take(i as int));
    }
    assert(data@.take(data@.len() as int) =~= data@);
    let crc: u32 = crc32(data);
    push_u32_le(out, crc);
    assert(out@ =~= old(out)@ + chunk_bytes(tag, data@));
}

/// Appends the end marker.
pub fn write_end_marker(out: &mut Vec<u8>)
    ensures
        final(out)@ == old(out)@ + end_marker(),
{
    out.push(BAND_END);
    write_leb128(out, 0);
    proof {
        assert(leb128(0) =~= seq![0u8]);
        assert(out@ =~= old(out)@ + end_marker());
    }
}

/// Where a chunk lies and what it is.
#[derive(Clone, Copy, Debug, PartialEq, Eq, Structural)]
pub struct ChunkDescriptor {
    /// Offset of the payload in the data.
    pub offset: u64,
    /// The band.
    pub chunk_type: u8,
    /// Whether the chunk holds a keyframe.
    pub is_keyframe: bool,
    /// Length of the payload.
    pub data_size: usize,
    /// Replay time of the frame, in milliseconds.
    pub timestamp_ms: u64,
    /// Index of the frame the chunk belongs to.
    pub frame_index: u64,
}

/// The band in a tag: the audio tag is its own band, every other tag loses
/// its high bit.
pub open spec fn tag_band(tag: u8) -> u8 {
    if tag == BAND_AUDIO_PCM {
        BAND_AUDIO_PCM
    } else {
        (tag % 128) as u8
    }
}

/// Whether a tag marks a keyframe.
pub open spec fn tag_is_keyframe(tag: u8) -> bool {
    tag != BAND_AUDIO_PCM && tag >= 128
}

/// Replay time of frame `frame_index`: sixteen milliseconds per frame after
/// the start, held at the largest 64-bit number.
pub open spec fn replay_time(start_timestamp_ms: u64, frame_index: u64) -> u64 {
    if start_timestamp_ms + FRAME_PERIOD_MS * frame_index > u64::MAX {
        u64::MAX
    } else {
        (start_timestamp_ms + FRAME_PERIOD_MS * frame_index) as u64
    }
}

/// The descriptor of the chunk with this tag whose payload of `size` bytes
/// starts at `payload_at`.
pub open spec fn describe(
    tag: u8,
    payload_at: int,
    size: nat,
    start_timestamp_ms: u64,
    frame_index: nat,
) -> ChunkDescriptor {
    ChunkDescriptor {
        offset: payload_at as u64,
        chunk_type: tag_band(tag),
        is_keyframe: tag_is_keyframe(tag),
        data_size: size as usize,
        timestamp_ms: replay_time(start_timestamp_ms, frame_index as u64),
        frame_index: frame_index as u64,
    }
}

/// The chunks of `data` from `offset` on, the first visual one being frame
/// `frame_index`.
///
/// The scan stops at the end of the data or at an end tag. A chunk whose
/// length cannot be decoded, or whose payload and checksum do not lie within
/// the data, is a fault. Each chunk of a visual band takes the next frame index.
pub open spec fn scan_from(
    data: Seq<u8>,
    start_timestamp_ms: u64,
    offset: int,
    frame_index: nat,
) -> Result<Seq<ChunkDescriptor>, FormatFault>
    decreases data.len() - offset,
{
    if offset < 0 || offset >= data.len() {
        Ok(Seq::empty())
    } else if data[offset] == BAND_END {
        Ok(Seq::empty())
    } else {
        match leb128_parse(data, (offset + 1) as nat, MAX_GROUPS as nat) {
            LebParse::Truncated => Err(FormatFault::TruncatedLength),
            LebParse::Overflow => Err(FormatFault::LengthOverflow),
            LebParse::Value { value, consumed } => {
                let payload_at = offset + 1 + consumed;
                if payload_at + value + 4 > data.len() {
                    Err(FormatFault::ChunkBeyondEnd)
                } else {
                    let here = describe(
                        data[offset],
                        payload_at,
                        value,
                        start_timestamp_ms,
                        frame_index,
                    );
                    let next_index = if is_visual_band(here.chunk_type) {
                        frame_index + 1
                    } else {
                        frame_index
                    };
                    match scan_from(
                        data,
                        start_timestamp_ms,
                        payload_at + value + 4,
                        next_index,
                    ) {
                        Ok(rest) => Ok(seq![here] + rest),
                        Err(fault) => Err(fault),
                    }
                }
            },
        }
    }
}

/// Whether a chunk is a keyframe of a visual band.
pub open spec fn is_keyframe_chunk(c: ChunkDescriptor) -> bool {
    c.is_keyframe && is_visual_band(c.chunk_type)
}

/// The positions among the first `upto` chunks that hold visual keyframes.
pub open spec fn keyframe_positions(chunks: Seq<ChunkDescriptor>, upto: int) -> Seq<usize>
    decreases upto,
{
    if upto <= 0 {
        Seq::empty()
    } else {
        let before = keyframe_positions(chunks, upto - 1);
        if is_keyframe_chunk(chunks[upto - 1]) {
            before.push((upto - 1) as usize)
        } else {
            before
        }
    }
}

/// Whether every chunk, payload and checksum, lies within `len` bytes.
pub open spec fn chunks_within(chunks: Seq<ChunkDescriptor>, len: nat) -> bool {
    forall|i: int| 0 <= i < chunks.len()
        ==> (#[trigger] chunks[i]).offset + chunks[i].data_size + 4 <= len
}

/// What a scan finds lies within the data, and there are no more chunks than
/// bytes scanned.
pub proof fn lemma_scan_within(
    data: Seq<u8>,
    start_timestamp_ms: u64,
    offset: int,
    frame_index: nat,
)
    requires
        data.len() <= u64::MAX,
        data.len() <= usize::MAX,
        0 <= offset,
    ensures
        match scan_from(data, start_timestamp_ms, offset, frame_index) {
            Ok(chunks) => {
                &&& chunks_within(chunks, data.len())
                &&& offset <= data.len() ==> chunks.len() <= data.len() - offset
                &&& offset > data.len() ==> chunks.len() == 0
                &&& forall|i: int| 0 <= i < chunks.len() ==> offset < (#[trigger] chunks[i]).offset
            },
            Err(_) => true,
        },
    decreases data.len() - offset,
{
    if offset < data.len() && data[offset] != BAND_END {
        lemma_parse_bounds(data, (offset + 1) as nat, MAX_GROUPS as nat);
        match leb128_parse(data, (offset + 1) as nat, MAX_GROUPS as nat) {
            LebParse::Value { value, consumed } => {
                let payload_at = offset + 1 + consumed;
                if payload_at + value + 4 <= data.len() {
                    let here = describe(
                        data[offset],
                        payload_at,
                        value,
                        start_timestamp_ms,
                        frame_index,
                    );
                    let next_index = if is_visual_band(here.chunk_type) {
                        frame_index + 1
                    } else {
                        frame_index
                    };
                    lemma_scan_within(data, start_timestamp_ms, payload_at + value + 4, next_index);
                    match scan_from(data, start_timestamp_ms, payload_at + value + 4, next_index) {
                        Ok(rest) => {
                            let chunks = seq![here] + rest;
                            assert forall|i: int| 0 <= i < chunks.len() implies (
                            #[trigger] chunks[i]).offset + chunks[i].data_size + 4 <= data.len()
                                && offset < chunks[i].offset by {
                                if i > 0 {
                                    assert(chunks[i] == rest[i - 1]);
                                }
                            }
                        },
                        Err(_) => {},
                    }
                }
            },
            _ => {},
        }
    }
}

/// Whether frame indices go up along the chunks, and strictly so after a
/// chunk of a visual band.
pub open spec fn indices_ascend(chunks: Seq<ChunkDescriptor>) -> bool {
    forall|i: int, j: int|
        0 <= i < j < chunks.len() ==> (#[trigger] chunks[i]).frame_index <= (
        #[trigger] chunks[j]).frame_index && (is_visual_band(chunks[i].chunk_type)
            ==> chunks[i].frame_index < chunks[j].frame_index)
}

/// In what a scan finds, frame indices start at `frame_index` and ascend.
pub proof fn lemma_scan_indices(
    data: Seq<u8>,
    start_timestamp_ms: u64,
    offset: int,
    frame_index: nat,
)
    requires
        0 <= offset,
        offset <= data.len() ==> frame_index + (data.len() - offset) <= u64::MAX,
        offset > data.len() ==> frame_index <= u64::MAX,
    ensures
        match scan_from(data, start_timestamp_ms, offset, frame_index) {
            Ok(chunks) => {
                &&& indices_ascend(chunks)
                &&& forall|i: int|
                    0 <= i < chunks.len() ==> frame_index <= (#[trigger] chunks[i]).frame_index
            },
            Err(_) => true,
        },
    decreases data.len() - offset,
{
    if offset < data.len() && data[offset] != BAND_END {
        lemma_parse_bounds(data, (offset + 1) as nat, MAX_GROUPS as nat);
        match leb128_parse(data, (offset + 1) as nat, MAX_GROUPS as nat) {
            LebParse::Value { value, consumed } => {
                let payload_at = offset + 1 + consumed;
                if payload_at + value + 4 <= data.len() {
                    let here = describe(
                        data[offset],
                        payload_at,
                        value,
                        start_timestamp_ms,
                        frame_index,
                    );
                    let next_index = if is_visual_band(here.chunk_type) {
                        frame_index + 1
                    } else {
                        frame_index
                    };
                    lemma_scan_indices(data, start_timestamp_ms, payload_at + value
                        + 4, next_index);
                    match scan_from(data, start_timestamp_ms, payload_at + value + 4, next_index) {
                        Ok(rest) => {
                            let chunks = seq![here] + rest;
                            assert forall|i: int| 0 <= i < chunks.len() implies frame_index <= (
                            #[trigger] chunks[i]).frame_index by {
                                if i > 0 {
                                    assert(chunks[i] == rest[i - 1]);
                                }
                            }
                            assert forall|i: int, j: int| 0 <= i < j < chunks.len() implies (
                            #[trigger] chunks[i]).frame_index <= (
                            #[trigger] chunks[j]).frame_index && (is_visual_band(
                                chunks[i].chunk_type,
                            ) ==> chunks[i].frame_index < chunks[j].frame_index) by {
                                assert(chunks[j] == rest[j - 1]);
                                if i > 0 {
                                    assert(chunks[i] == rest[i - 1]);
                                }
                            }
                        },
                        Err(_) => {},
                    }
                }
            },
            _ => {},
        }
    }
}

/// The keyframe positions among the first `upto` chunks depend on those chunks only.
pub proof fn lemma_keyframe_positions_prefix(
    a: Seq<ChunkDescriptor>,
    b: Seq<ChunkDescriptor>,
    upto: int,
)
    requires
        upto <= a.len(),
        upto <= b.len(),
        forall|i: int| 0 <= i < upto ==> a[i] == b[i],
    ensures
        keyframe_positions(a, upto) == keyframe_positions(b, upto),
    decreases upto,
{
    if upto > 0 {
        lemma_keyframe_positions_prefix(a, b, upto - 1);
    }
}

/// The chunk index of an archive.
pub struct ChunkIndex {
    /// Every chunk, in the order of the data.
    pub all_chunks: Vec<ChunkDescriptor>,
    /// The positions in `all_chunks` of the visual keyframes, in order.
    pub keyframes: Vec<usize>,
}

/// Scans the chunk stream that follows the header of `data`.
pub fn scan_chunks(data: &[u8], start_timestamp_ms: u64) -> (r: Result<ChunkIndex, FormatFault>)
    requires
        data@.len() >= HEADER_LEN,
    ensures
        match scan_from(data@, start_timestamp_ms, HEADER_LEN as int, 0) {
            Ok(chunks) => r is Ok && r->Ok_0.all_chunks@ == chunks && r->Ok_0.keyframes@
                == keyframe_positions(chunks, chunks.len() as int),
            Err(fault) => r == Err::<ChunkIndex, FormatFault>(fault),
        },
{
    let len: usize = data.len();
    let mut all_chunks: Vec<ChunkDescriptor> = Vec::new();
    let mut keyframes: Vec<usize> = Vec::new();
    let mut offset: usize = HEADER_LEN;
    let mut frame_index: u64 = 0;
    let ghost whole = scan_from(data@, start_timestamp_ms, HEADER_LEN as int, 0);
    assert(seq![] + Seq::<ChunkDescriptor>::empty() =~= Seq::<ChunkDescriptor>::empty());
    while offset < len
        invariant
            len == data@.len(),
            HEADER_LEN <= offset <= len,
            frame_index <= all_chunks@.len(),
            all_chunks@.len() <= offset,
            keyframes@ == keyframe_positions(all_chunks@, all_chunks@.len() as int),
            whole == scan_from(data@, start_timestamp_ms, HEADER_LEN as int, 0),
            match scan_from(data@, start_timestamp_ms, offset as int, frame_index as nat) {
                Ok(rest) => whole == Ok::<Seq<ChunkDescriptor>, FormatFault>(all_chunks@ + rest),
                Err(fault) => whole == Err::<Seq<ChunkDescriptor>, FormatFault>(fault),
            },
        ensures
            match whole {
                Ok(chunks) => all_chunks@ == chunks && keyframes@ == keyframe_positions(
                    chunks,
                    chunks.len() as int,
                ),
                Err(_) => false,
            },
        decreases len - offset,
    {
        let tag: u8 = data[offset];
        if tag == BAND_END {
            assert(all_chunks@ + Seq::<ChunkDescriptor>::empty() =~= all_chunks@);
            break;
        }
        let (length, taken) = match read_leb128(data, offset + 1) {
            Ok(pair) => pair,
            Err(LebError::Truncated) => {
                return Err(FormatFault::TruncatedLength);
            },
            Err(LebError::Overflow) => {
                return Err(FormatFault::LengthOverflow);
            },
        };
        let payload_at: usize = offset + 1 + taken;
        if length > (len - payload_at) as u64 || (len - payload_at) as u64 - length < 4 {
            return Err(FormatFault::ChunkBeyondEnd);
        }
        let size: usize = length as usize;
        let chunk_type: u8 = if tag == BAND_AUDIO_PCM {
            BAND_AUDIO_PCM
        } else {
            tag % 128
        };
        let is_keyframe: bool = tag != BAND_AUDIO_PCM && tag >= 128;
        let stamp: u128 = start_timestamp_ms as u128 + (FRAME_PERIOD_MS as u128) * (
        frame_index as u128);
        let timestamp_ms: u64 = if stamp > u64::MAX as u128 {
            u64::MAX
        } else {
            stamp as u64
        };
        let chunk = ChunkDescriptor {
            offset: payload_at as u64,
            chunk_type,
            is_keyframe,
            data_size: size,
            timestamp_ms,
            frame_index,
        };
        let visual: bool = band_is_visual(chunk_type);
        proof {
            let here = describe(
                tag,
                payload_at as int,
                length as nat,
                start_timestamp_ms,
                frame_index as nat,
            );
            assert(chunk == here);
            let next_index: nat = if visual {
                (frame_index + 1) as nat
            } else {
                frame_index as nat
            };
            match scan_from(data@, start_timestamp_ms, payload_at + size + 4, next_index) {
                Ok(rest) => {
                    assert(all_chunks@.push(chunk) + rest =~= all_chunks@ + (seq![here] + rest));
                },
                Err(_) => {},
            }
            lemma_keyframe_positions_prefix(
                all_chunks@.push(chunk),
                all_chunks@,
                all_chunks@.len() as int,
            );
        }
        if is_keyframe && visual {
            keyframes.push(all_chunks.len());
        }
        all_chunks.push(chunk);
        if visual {
            frame_index = frame_index + 1;
        }
        offset = payload_at + size + 4;
    }
    proof {
        if offset >= len {
            assert(all_chunks@ + Seq::<ChunkDescriptor>::empty() =~= all_chunks@);
        }
    }
    Ok(ChunkIndex { all_chunks, keyframes })
}

} // verus!

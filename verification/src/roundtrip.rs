//! What is written can be read back.
//!
//! The model of a recording is a sequence of frames handed to the writer one
//! by one, the encoder starting blank. The theorems here say that the reader
//! finds one chunk per frame in the bytes so written, returns every keyframe
//! as it was written, and rebuilds every other frame to the values the
//! encoder held after it.

use vstd::prelude::*;
use crate::bytes::{le_bytes, lemma_le_bytes_len, lemma_le_roundtrip, lemma_pow256_values};
use crate::checksum::crc32_ieee;
use crate::codec::{lemma_levels_replay, lemma_phases_replay, CodecState};
use crate::format::{
    StreamHeader, chunk_bytes, chunk_tag, end_marker, header_bytes, is_keyframe_chunk, keyframe_positions,
    lemma_header_roundtrip, parse_header_spec, replay_time, scan_from, ChunkDescriptor, FormatFault,
    ReaderError, FORMAT_VERSION, HEADER_LEN,
};
use crate::frame::{lemma_payload_roundtrip, payload_bytes, payload_len, FrameView, BAND_MICRO};
use crate::leb128::{leb128, lemma_leb128_len, lemma_leb128_roundtrip, lemma_u32_fits, MAX_GROUPS};
use crate::reader::{
    ArchiveReader,
    apply_deltas, chunk_payload, chunk_values, first_keyframe_at, frame_at, last_keyframe_before,
    replay, stored_crc,
};
use crate::writer::{
    chunks_upto, state_before, delta_values, frame_chunk, frame_fits, frame_is_written, same_shape,
};

verus! {

/// The bytes of a finished recording: header, one chunk per frame, end marker.
pub open spec fn archive_bytes(
    start_timestamp_ms: u64,
    oscillators: nat,
    emotions: nat,
    frames: Seq<FrameView>,
) -> Seq<u8> {
    header_bytes(FORMAT_VERSION, start_timestamp_ms) + chunks_upto(
        CodecState::blank(oscillators, emotions),
        frames,
        frames.len() as int,
    ) + end_marker()
}

/// Whether the writer takes every frame of a recording: each is of a visual
/// band, has the recording's sizes, and can be taken by the encoder when its
/// turn comes.
pub open spec fn recordable(oscillators: nat, emotions: nat, frames: Seq<FrameView>) -> bool {
    &&& payload_len(oscillators, emotions) <= u32::MAX
    &&& forall|j: int|
        0 <= j < frames.len() ==> {
            &&& frame_is_written(#[trigger] frames[j])
            &&& frames[j].has_shape(oscillators, emotions)
            &&& frame_fits(
                state_before(CodecState::blank(oscillators, emotions), frames, j),
                frames[j],
            )
        }
}

/// Whether a frame is stored whole: every frame but a micro frame that is no
/// keyframe.
pub open spec fn stored_whole(f: FrameView) -> bool {
    f.band != BAND_MICRO || f.is_keyframe
}

/// The bytes of one chunk of a recording with these sizes.
pub open spec fn chunk_len(oscillators: nat, emotions: nat) -> int {
    (1 + leb128(payload_len(oscillators, emotions)).len() + payload_len(oscillators, emotions)
        + 4) as int
}

/// Where chunk `j` of a recording starts.
pub open spec fn chunk_start(oscillators: nat, emotions: nat, j: int) -> int {
    HEADER_LEN + j * chunk_len(oscillators, emotions)
}

/// The descriptor that a scan gives chunk `j` of a recording.
pub open spec fn expected_chunk(
    start_timestamp_ms: u64,
    oscillators: nat,
    emotions: nat,
    frames: Seq<FrameView>,
    j: int,
) -> ChunkDescriptor {
    ChunkDescriptor {
        offset: (chunk_start(oscillators, emotions, j) + 1 + leb128(
            payload_len(oscillators, emotions),
        ).len()) as u64,
        chunk_type: frames[j].band,
        is_keyframe: stored_whole(frames[j]),
        data_size: payload_len(oscillators, emotions) as usize,
        timestamp_ms: replay_time(start_timestamp_ms, j as u64),
        frame_index: j as u64,
    }
}

/// The descriptors that a scan gives a recording: one per frame.
pub open spec fn expected_chunks(
    start_timestamp_ms: u64,
    oscillators: nat,
    emotions: nat,
    frames: Seq<FrameView>,
) -> Seq<ChunkDescriptor> {
    Seq::new(
        frames.len(),
        |j: int| expected_chunk(start_timestamp_ms, oscillators, emotions, frames, j),
    )
}

/// The payload of the chunk that a frame becomes.
pub open spec fn frame_payload(state: CodecState, f: FrameView) -> Seq<u8> {
    if stored_whole(f) {
        payload_bytes(f.values())
    } else {
        payload_bytes(delta_values(state, f.values()))
    }
}

proof fn lemma_state_shape(oscillators: nat, emotions: nat, frames: Seq<FrameView>, j: int)
    requires
        recordable(oscillators, emotions, frames),
        0 <= j <= frames.len(),
    ensures
        same_shape(
            CodecState::blank(oscillators, emotions),
            state_before(CodecState::blank(oscillators, emotions), frames, j),
        ),
    decreases j,
{
    if j > 0 {
        lemma_state_shape(oscillators, emotions, frames, j - 1);
        assert(frames[j - 1].has_shape(oscillators, emotions));
    }
}

proof fn lemma_frame_chunk(oscillators: nat, emotions: nat, frames: Seq<FrameView>, j: int)
    requires
        recordable(oscillators, emotions, frames),
        0 <= j < frames.len(),
    ensures
        frame_chunk(
            state_before(CodecState::blank(oscillators, emotions), frames, j),
            frames[j],
        ) == chunk_bytes(
            chunk_tag(frames[j].band, stored_whole(frames[j])),
            frame_payload(
                state_before(CodecState::blank(oscillators, emotions), frames, j),
                frames[j],
            ),
        ),
        frame_payload(
            state_before(CodecState::blank(oscillators, emotions), frames, j),
            frames[j],
        ).len() == payload_len(oscillators, emotions),
        frame_chunk(
            state_before(CodecState::blank(oscillators, emotions), frames, j),
            frames[j],
        ).len() == chunk_len(oscillators, emotions),
{
    let state = state_before(CodecState::blank(oscillators, emotions), frames, j);
    let f = frames[j];
    lemma_state_shape(oscillators, emotions, frames, j);
    assert(frame_is_written(f));
    assert(f.has_shape(oscillators, emotions));
    let payload = frame_payload(state, f);
    lemma_le_bytes_len(crc32_ieee(payload) as nat, 4);
}

proof fn lemma_chunk_start_step(oscillators: nat, emotions: nat, j: int)
    ensures
        chunk_start(oscillators, emotions, j + 1) == chunk_start(oscillators, emotions, j)
            + chunk_len(oscillators, emotions),
        chunk_start(oscillators, emotions, 0) == HEADER_LEN,
{
    let c = chunk_len(oscillators, emotions);
    assert((j + 1) * c == j * c + c) by (nonlinear_arith);
    assert(0 * c == 0) by (nonlinear_arith);
}

proof fn lemma_chunks_len(oscillators: nat, emotions: nat, frames: Seq<FrameView>, j: int)
    requires
        recordable(oscillators, emotions, frames),
        0 <= j <= frames.len(),
    ensures
        HEADER_LEN + chunks_upto(CodecState::blank(oscillators, emotions), frames, j).len()
            == chunk_start(oscillators, emotions, j),
    decreases j,
{
    if j > 0 {
        lemma_chunks_len(oscillators, emotions, frames, j - 1);
        lemma_frame_chunk(oscillators, emotions, frames, j - 1);
        lemma_chunk_start_step(oscillators, emotions, j - 1);
    } else {
        lemma_chunk_start_step(oscillators, emotions, 0);
    }
}

proof fn lemma_chunks_prefix(
    oscillators: nat,
    emotions: nat,
    frames: Seq<FrameView>,
    j: int,
    n: int,
)
    requires
        recordable(oscillators, emotions, frames),
        0 <= j <= n <= frames.len(),
    ensures
        chunks_upto(CodecState::blank(oscillators, emotions), frames, j).len() <= chunks_upto(
            CodecState::blank(oscillators, emotions),
            frames,
            n,
        ).len(),
        chunks_upto(CodecState::blank(oscillators, emotions), frames, n).subrange(
            0,
            chunks_upto(CodecState::blank(oscillators, emotions), frames, j).len() as int,
        ) == chunks_upto(CodecState::blank(oscillators, emotions), frames, j),
    decreases n - j,
{
    let blank = CodecState::blank(oscillators, emotions);
    if j < n {
        lemma_chunks_prefix(oscillators, emotions, frames, j, n - 1);
        let a = chunks_upto(blank, frames, j);
        let b = chunks_upto(blank, frames, n - 1);
        let c = chunks_upto(blank, frames, n);
        assert(c.subrange(0, a.len() as int) =~= b.subrange(0, a.len() as int));
    } else {
        let a = chunks_upto(blank, frames, j);
        assert(a.subrange(0, a.len() as int) =~= a);
    }
}

/// The bytes and the length of a recording, and where chunk `j` lies in it.
pub proof fn lemma_chunk_located(
    start_timestamp_ms: u64,
    oscillators: nat,
    emotions: nat,
    frames: Seq<FrameView>,
    j: int,
)
    requires
        recordable(oscillators, emotions, frames),
        0 <= j < frames.len(),
    ensures
        archive_bytes(start_timestamp_ms, oscillators, emotions, frames).len() == chunk_start(
            oscillators,
            emotions,
            frames.len() as int,
        ) + 2,
        0 <= chunk_start(oscillators, emotions, j),
        chunk_start(oscillators, emotions, j + 1) <= chunk_start(
            oscillators,
            emotions,
            frames.len() as int,
        ),
        archive_bytes(start_timestamp_ms, oscillators, emotions, frames).subrange(
            chunk_start(oscillators, emotions, j),
            chunk_start(oscillators, emotions, j + 1),
        ) == frame_chunk(
            state_before(CodecState::blank(oscillators, emotions), frames, j),
            frames[j],
        ),
{
    let blank = CodecState::blank(oscillators, emotions);
    let n = frames.len() as int;
    let data = archive_bytes(start_timestamp_ms, oscillators, emotions, frames);
    let header = header_bytes(FORMAT_VERSION, start_timestamp_ms);
    let body = chunks_upto(blank, frames, n);
    lemma_header_roundtrip(start_timestamp_ms, Seq::empty());
    lemma_chunks_len(oscillators, emotions, frames, n);
    lemma_chunks_len(oscillators, emotions, frames, j);
    lemma_chunks_len(oscillators, emotions, frames, j + 1);
    lemma_chunks_prefix(oscillators, emotions, frames, j + 1, n);
    lemma_frame_chunk(oscillators, emotions, frames, j);
    let upto_j = chunks_upto(blank, frames, j);
    let upto_next = chunks_upto(blank, frames, j + 1);
    let chunk = frame_chunk(state_before(blank, frames, j), frames[j]);
    assert(upto_next == upto_j + chunk);
    let part = data.subrange(
        chunk_start(oscillators, emotions, j),
        chunk_start(oscillators, emotions, j + 1),
    );
    assert(part.len() == chunk.len());
    assert forall|i: int| 0 <= i < chunk.len() implies part[i] == chunk[i] by {
        let at = upto_j.len() + i;
        assert(part[i] == data[HEADER_LEN + at]);
        assert(data[HEADER_LEN + at] == body[at]);
        assert(body.subrange(0, upto_next.len() as int)[at] == body[at]);
        assert(upto_next[at] == chunk[i]);
    }
    assert(part =~= chunk);
}


/// The parts of chunk `j` of a recording, where they lie in its bytes.
proof fn lemma_chunk_parts(
    start_timestamp_ms: u64,
    oscillators: nat,
    emotions: nat,
    frames: Seq<FrameView>,
    j: int,
)
    requires
        recordable(oscillators, emotions, frames),
        0 <= j < frames.len(),
    ensures
        ({
            let data = archive_bytes(start_timestamp_ms, oscillators, emotions, frames);
            let at = chunk_start(oscillators, emotions, j);
            let len = payload_len(oscillators, emotions) as int;
            let groups = leb128(payload_len(oscillators, emotions)).len() as int;
            let payload = frame_payload(
                state_before(CodecState::blank(oscillators, emotions), frames, j),
                frames[j],
            );
            &&& HEADER_LEN <= at
            &&& 1 <= groups <= 5
            &&& at + 1 + groups + len + 4 == chunk_start(oscillators, emotions, j + 1)
            &&& chunk_start(oscillators, emotions, j + 1) + 2 <= data.len()
            &&& data[at] == chunk_tag(frames[j].band, stored_whole(frames[j]))
            &&& data.subrange(at + 1, at + 1 + groups) == leb128(
                payload_len(oscillators, emotions),
            )
            &&& data.subrange(at + 1 + groups, at + 1 + groups + len) == payload
            &&& data.subrange(at + 1 + groups + len, at + 1 + groups + len + 4) == le_bytes(
                crc32_ieee(payload) as nat,
                4,
            )
        }),
{
    let data = archive_bytes(start_timestamp_ms, oscillators, emotions, frames);
    let at = chunk_start(oscillators, emotions, j);
    let size = payload_len(oscillators, emotions);
    let len = size as int;
    let groups = leb128(size).len() as int;
    let state = state_before(CodecState::blank(oscillators, emotions), frames, j);
    let payload = frame_payload(state, frames[j]);
    let tag = chunk_tag(frames[j].band, stored_whole(frames[j]));
    lemma_chunk_located(start_timestamp_ms, oscillators, emotions, frames, j);
    lemma_frame_chunk(oscillators, emotions, frames, j);
    lemma_chunk_start_step(oscillators, emotions, j);
    lemma_chunk_start_nonneg(oscillators, emotions, j);
    lemma_u32_fits(size as u32);
    lemma_leb128_len(size, 5);
    lemma_le_bytes_len(crc32_ieee(payload) as nat, 4);
    let chunk = chunk_bytes(tag, payload);
    let part = data.subrange(at, at + chunk_len(oscillators, emotions));
    assert(part == chunk);
    assert(data[at] == part[0]);
    assert(data.subrange(at + 1, at + 1 + groups) =~= leb128(size)) by {
        assert forall|i: int| 0 <= i < groups implies data[at + 1 + i] == leb128(size)[i] by {
            assert(part[1 + i] == data[at + 1 + i]);
            assert(chunk[1 + i] == leb128(size)[i]);
        }
    }
    assert(data.subrange(at + 1 + groups, at + 1 + groups + len) =~= payload) by {
        assert forall|i: int| 0 <= i < len implies data[at + 1 + groups + i] == payload[i] by {
            assert(part[1 + groups + i] == data[at + 1 + groups + i]);
            assert(chunk[1 + groups + i] == payload[i]);
        }
    }
    let crc = le_bytes(crc32_ieee(payload) as nat, 4);
    assert(data.subrange(at + 1 + groups + len, at + 1 + groups + len + 4) =~= crc) by {
        assert forall|i: int| 0 <= i < 4 implies data[at + 1 + groups + len + i] == crc[i] by {
            assert(part[1 + groups + len + i] == data[at + 1 + groups + len + i]);
            assert(chunk[1 + groups + len + i] == crc[i]);
        }
    }
}

proof fn lemma_chunk_start_nonneg(oscillators: nat, emotions: nat, j: int)
    requires
        0 <= j,
    ensures
        HEADER_LEN <= chunk_start(oscillators, emotions, j),
        j <= chunk_start(oscillators, emotions, j),
{
    let c = chunk_len(oscillators, emotions);
    assert(j * c >= j) by (nonlinear_arith)
        requires
            j >= 0,
            c >= 1,
    ;
}

proof fn lemma_chunk_start_monotone(oscillators: nat, emotions: nat, j: int, n: int)
    requires
        0 <= j <= n,
    ensures
        chunk_start(oscillators, emotions, j) <= chunk_start(oscillators, emotions, n),
{
    let c = chunk_len(oscillators, emotions);
    assert(j * c <= n * c) by (nonlinear_arith)
        requires
            0 <= j <= n,
            c >= 1,
    ;
}

/// The scan of a recording from chunk `j` on finds the chunks from `j` on.
proof fn lemma_scan_recording(
    start_timestamp_ms: u64,
    oscillators: nat,
    emotions: nat,
    frames: Seq<FrameView>,
    j: int,
)
    requires
        recordable(oscillators, emotions, frames),
        0 <= j <= frames.len(),
    ensures
        scan_from(
            archive_bytes(start_timestamp_ms, oscillators, emotions, frames),
            start_timestamp_ms,
            chunk_start(oscillators, emotions, j),
            j as nat,
        ) == Ok::<Seq<ChunkDescriptor>, FormatFault>(
            expected_chunks(start_timestamp_ms, oscillators, emotions, frames).subrange(
                j,
                frames.len() as int,
            ),
        ),
    decreases frames.len() - j,
{
    let data = archive_bytes(start_timestamp_ms, oscillators, emotions, frames);
    let n = frames.len() as int;
    let expected = expected_chunks(start_timestamp_ms, oscillators, emotions, frames);
    let at = chunk_start(oscillators, emotions, j);
    lemma_chunk_start_nonneg(oscillators, emotions, j);
    if j == n {
        lemma_chunks_len(oscillators, emotions, frames, n);
        lemma_header_roundtrip(start_timestamp_ms, Seq::empty());
        assert(data.len() == at + 2);
        assert(data[at] == end_marker()[0]);
        assert(expected.subrange(j, n) =~= Seq::<ChunkDescriptor>::empty());
    } else {
        let size = payload_len(oscillators, emotions);
        let groups = leb128(size).len() as int;
        lemma_chunk_parts(start_timestamp_ms, oscillators, emotions, frames, j);
        lemma_u32_fits(size as u32);
        lemma_leb128_roundtrip(data, (at + 1) as nat, size, MAX_GROUPS as nat);
        assert(frame_is_written(frames[j]));
        let tag = data[at];
        lemma_scan_recording(start_timestamp_ms, oscillators, emotions, frames, j + 1);
        let rest = expected.subrange(j + 1, n);
        assert(seq![expected[j]] + rest =~= expected.subrange(j, n));
    }
}

/// Every keyframe chunk among the first `upto` has its position in the
/// keyframe list.
pub proof fn lemma_keyframe_positions_complete(chunks: Seq<ChunkDescriptor>, upto: int, p: int)
    requires
        0 <= p < upto <= chunks.len() <= usize::MAX,
        is_keyframe_chunk(chunks[p]),
    ensures
        keyframe_positions(chunks, upto).contains(p as usize),
    decreases upto,
{
    let now = keyframe_positions(chunks, upto);
    let before = keyframe_positions(chunks, upto - 1);
    if p == upto - 1 {
        assert(now[before.len() as int] == p as usize);
    } else {
        lemma_keyframe_positions_complete(chunks, upto - 1, p);
        let k = choose|k: int| 0 <= k < before.len() && before[k] == p as usize;
        assert(now[k] == p as usize);
    }
}

/// Whether every chunk's frame index is its position.
pub open spec fn indexed_by_position(chunks: Seq<ChunkDescriptor>) -> bool {
    forall|p: int| 0 <= p < chunks.len() ==> (#[trigger] chunks[p]).frame_index == p
}

proof fn lemma_first_keyframe_from(chunks: Seq<ChunkDescriptor>, index: u64, from: int)
    requires
        chunks.len() <= usize::MAX,
        indexed_by_position(chunks),
        0 <= from,
    ensures
        first_keyframe_at(
            chunks,
            keyframe_positions(chunks, chunks.len() as int),
            index,
            from,
        ) == (if exists|k: int|
            from <= k < keyframe_positions(chunks, chunks.len() as int).len()
                && keyframe_positions(chunks, chunks.len() as int)[k] == index {
            Some(index as usize)
        } else {
            None
        }),
    decreases keyframe_positions(chunks, chunks.len() as int).len() - from,
{
    let kfs = keyframe_positions(chunks, chunks.len() as int);
    crate::reader::lemma_keyframe_positions_valid(chunks, chunks.len() as int);
    if from < kfs.len() {
        lemma_first_keyframe_from(chunks, index, from + 1);
        let p = kfs[from] as int;
        assert(chunks[p].frame_index == p);
        if p == index {
            assert(kfs[from] == index);
        } else {
            if exists|k: int| from <= k < kfs.len() && kfs[k] == index {
                let k = choose|k: int| from <= k < kfs.len() && kfs[k] == index;
                assert(from + 1 <= k);
            }
        }
    }
}

/// In chunks indexed by position, the keyframe with a given frame index is
/// the chunk at that position, if that chunk is a keyframe, and there is none
/// otherwise.
proof fn lemma_first_keyframe(chunks: Seq<ChunkDescriptor>, index: u64)
    requires
        chunks.len() <= usize::MAX,
        indexed_by_position(chunks),
    ensures
        first_keyframe_at(chunks, keyframe_positions(chunks, chunks.len() as int), index, 0) == (
        if index < chunks.len() && is_keyframe_chunk(chunks[index as int]) {
            Some(index as usize)
        } else {
            None
        }),
{
    let kfs = keyframe_positions(chunks, chunks.len() as int);
    crate::reader::lemma_keyframe_positions_valid(chunks, chunks.len() as int);
    lemma_first_keyframe_from(chunks, index, 0);
    if index < chunks.len() && is_keyframe_chunk(chunks[index as int]) {
        lemma_keyframe_positions_complete(chunks, chunks.len() as int, index as int);
        let k = choose|k: int| 0 <= k < kfs.len() && kfs[k] == index as usize;
        assert(kfs[k] == index);
    } else {
        if exists|k: int| 0 <= k < kfs.len() && kfs[k] == index {
            let k = choose|k: int| 0 <= k < kfs.len() && kfs[k] == index;
            assert(is_keyframe_chunk(chunks[kfs[k] as int]));
        }
    }
}

proof fn lemma_last_keyframe_upto(
    chunks: Seq<ChunkDescriptor>,
    index: u64,
    key: int,
    place: int,
    upto: int,
)
    requires
        chunks.len() <= usize::MAX,
        indexed_by_position(chunks),
        0 <= key <= index,
        index < chunks.len(),
        forall|p: int| key < p <= index ==> !is_keyframe_chunk(#[trigger] chunks[p]),
        0 <= place < upto <= keyframe_positions(chunks, chunks.len() as int).len(),
        keyframe_positions(chunks, chunks.len() as int)[place] == key,
    ensures
        last_keyframe_before(
            chunks,
            keyframe_positions(chunks, chunks.len() as int),
            index,
            upto,
        ) == Some(key as usize),
    decreases upto,
{
    let kfs = keyframe_positions(chunks, chunks.len() as int);
    crate::reader::lemma_keyframe_positions_valid(chunks, chunks.len() as int);
    let last = kfs[upto - 1] as int;
    assert(chunks[last].frame_index == last);
    if upto - 1 > place {
        assert(kfs[place] < kfs[upto - 1]);
        assert(is_keyframe_chunk(chunks[last]));
        assert(last > index);
        lemma_last_keyframe_upto(chunks, index, key, place, upto - 1);
    }
}

/// In chunks indexed by position, the nearest keyframe at or before a frame
/// is the keyframe behind which no other stands up to that frame.
proof fn lemma_last_keyframe(chunks: Seq<ChunkDescriptor>, index: u64, key: int)
    requires
        chunks.len() <= usize::MAX,
        indexed_by_position(chunks),
        0 <= key <= index,
        index < chunks.len(),
        is_keyframe_chunk(chunks[key]),
        forall|p: int| key < p <= index ==> !is_keyframe_chunk(#[trigger] chunks[p]),
    ensures
        last_keyframe_before(
            chunks,
            keyframe_positions(chunks, chunks.len() as int),
            index,
            keyframe_positions(chunks, chunks.len() as int).len() as int,
        ) == Some(key as usize),
{
    let kfs = keyframe_positions(chunks, chunks.len() as int);
    lemma_keyframe_positions_complete(chunks, chunks.len() as int, key);
    let place = choose|k: int| 0 <= k < kfs.len() && kfs[k] == key as usize;
    lemma_last_keyframe_upto(chunks, index, key, place, kfs.len() as int);
}


/// Whether the bytes of a recording can be held and indexed: their count fits
/// the machine's sizes.
pub open spec fn fits_in_memory(
    start_timestamp_ms: u64,
    oscillators: nat,
    emotions: nat,
    frames: Seq<FrameView>,
) -> bool {
    archive_bytes(start_timestamp_ms, oscillators, emotions, frames).len() <= usize::MAX
}

proof fn lemma_expected_chunks(
    start_timestamp_ms: u64,
    oscillators: nat,
    emotions: nat,
    frames: Seq<FrameView>,
)
    requires
        recordable(oscillators, emotions, frames),
        fits_in_memory(start_timestamp_ms, oscillators, emotions, frames),
    ensures
        expected_chunks(start_timestamp_ms, oscillators, emotions, frames).len() == frames.len(),
        frames.len() <= usize::MAX,
        indexed_by_position(expected_chunks(start_timestamp_ms, oscillators, emotions, frames)),
        forall|j: int|
            0 <= j < frames.len() ==> {
                let c = #[trigger] expected_chunks(
                    start_timestamp_ms,
                    oscillators,
                    emotions,
                    frames,
                )[j];
                &&& c.offset == chunk_start(oscillators, emotions, j) + 1 + leb128(
                    payload_len(oscillators, emotions),
                ).len()
                &&& c.data_size == payload_len(oscillators, emotions)
                &&& c.chunk_type == frames[j].band
                &&& is_keyframe_chunk(c) == stored_whole(frames[j])
            },
{
    let expected = expected_chunks(start_timestamp_ms, oscillators, emotions, frames);
    let n = frames.len() as int;
    let data = archive_bytes(start_timestamp_ms, oscillators, emotions, frames);
    lemma_chunks_len(oscillators, emotions, frames, n);
    lemma_chunk_start_nonneg(oscillators, emotions, n);
    assert(data.len() == chunk_start(oscillators, emotions, n) + 2) by {
        lemma_header_roundtrip(start_timestamp_ms, Seq::empty());
    }
    assert forall|j: int| 0 <= j < n implies {
        let c = #[trigger] expected[j];
        &&& c.frame_index == j
        &&& c.offset == chunk_start(oscillators, emotions, j) + 1 + leb128(
            payload_len(oscillators, emotions),
        ).len()
        &&& c.data_size == payload_len(oscillators, emotions)
        &&& c.chunk_type == frames[j].band
        &&& is_keyframe_chunk(c) == stored_whole(frames[j])
    } by {
        lemma_chunk_parts(start_timestamp_ms, oscillators, emotions, frames, j);
        lemma_chunk_start_monotone(oscillators, emotions, j + 1, n);
        assert(frame_is_written(frames[j]));
    }
}

/// The values stored in chunk `j` of a recording: the frame's own where it is
/// stored whole, else its differences from the frame before.
proof fn lemma_chunk_decodes(
    start_timestamp_ms: u64,
    oscillators: nat,
    emotions: nat,
    frames: Seq<FrameView>,
    j: int,
)
    requires
        recordable(oscillators, emotions, frames),
        fits_in_memory(start_timestamp_ms, oscillators, emotions, frames),
        0 <= j < frames.len(),
    ensures
        chunk_values(
            archive_bytes(start_timestamp_ms, oscillators, emotions, frames),
            expected_chunks(start_timestamp_ms, oscillators, emotions, frames)[j],
            oscillators,
            emotions,
        ) == Ok::<CodecState, FormatFault>(
            if stored_whole(frames[j]) {
                frames[j].values()
            } else {
                delta_values(
                    state_before(CodecState::blank(oscillators, emotions), frames, j),
                    frames[j].values(),
                )
            },
        ),
{
    let data = archive_bytes(start_timestamp_ms, oscillators, emotions, frames);
    let c = expected_chunks(start_timestamp_ms, oscillators, emotions, frames)[j];
    let state = state_before(CodecState::blank(oscillators, emotions), frames, j);
    let payload = frame_payload(state, frames[j]);
    lemma_expected_chunks(start_timestamp_ms, oscillators, emotions, frames);
    lemma_chunk_parts(start_timestamp_ms, oscillators, emotions, frames, j);
    lemma_state_shape(oscillators, emotions, frames, j);
    lemma_pow256_values();
    lemma_le_roundtrip(crc32_ieee(payload) as nat, 4);
    assert(chunk_payload(data, c) == payload);
    assert(stored_crc(data, c) == crc32_ieee(payload));
    assert(frames[j].has_shape(oscillators, emotions));
    let values = if stored_whole(frames[j]) {
        frames[j].values()
    } else {
        delta_values(state, frames[j].values())
    };
    lemma_payload_roundtrip(values);
}

/// Behind frame `target`, nothing is applied any more.
proof fn lemma_replay_tail(
    data: Seq<u8>,
    chunks: Seq<ChunkDescriptor>,
    from: int,
    target: u64,
    state: CodecState,
    oscillators: nat,
    emotions: nat,
)
    requires
        indexed_by_position(chunks),
        target < from,
    ensures
        replay(data, chunks, from, target, state, oscillators, emotions) == Ok::<
            CodecState,
            FormatFault,
        >(state),
    decreases chunks.len() - from,
{
    if from < chunks.len() {
        assert(chunks[from].frame_index == from);
        if chunks[from].chunk_type != BAND_MICRO {
            lemma_replay_tail(data, chunks, from + 1, target, state, oscillators, emotions);
        }
    }
}

/// Applying the differences of the frames from `from` up to `target` onto the
/// values of the frame before `from` gives the values of frame `target`.
proof fn lemma_replay_run(
    start_timestamp_ms: u64,
    oscillators: nat,
    emotions: nat,
    frames: Seq<FrameView>,
    key: int,
    from: int,
    target: int,
)
    requires
        recordable(oscillators, emotions, frames),
        fits_in_memory(start_timestamp_ms, oscillators, emotions, frames),
        0 <= key < from <= target + 1,
        target < frames.len(),
        frames[key].band == BAND_MICRO,
        forall|m: int|
            key < m <= target ==> (#[trigger] frames[m]).band == BAND_MICRO
                && !frames[m].is_keyframe,
    ensures
        replay(
            archive_bytes(start_timestamp_ms, oscillators, emotions, frames),
            expected_chunks(start_timestamp_ms, oscillators, emotions, frames),
            from,
            target as u64,
            frames[from - 1].values(),
            oscillators,
            emotions,
        ) == Ok::<CodecState, FormatFault>(frames[target].values()),
    decreases target + 1 - from,
{
    let data = archive_bytes(start_timestamp_ms, oscillators, emotions, frames);
    let chunks = expected_chunks(start_timestamp_ms, oscillators, emotions, frames);
    let blank = CodecState::blank(oscillators, emotions);
    lemma_expected_chunks(start_timestamp_ms, oscillators, emotions, frames);
    if from == target + 1 {
        lemma_replay_tail(
            data,
            chunks,
            from,
            target as u64,
            frames[target].values(),
            oscillators,
            emotions,
        );
    } else {
        let before = frames[from - 1];
        let f = frames[from];
        assert(before.band == BAND_MICRO);
        assert(f.band == BAND_MICRO && !f.is_keyframe);
        assert(state_before(blank, frames, from) == before.values());
        assert(frame_fits(state_before(blank, frames, from), f));
        assert(chunks[from].frame_index == from);
        lemma_chunk_decodes(start_timestamp_ms, oscillators, emotions, frames, from);
        let deltas = delta_values(before.values(), f.values());
        lemma_phases_replay(before.phases, f.phases);
        lemma_levels_replay(before.amplitudes, f.amplitudes);
        lemma_levels_replay(before.emotions, f.emotions);
        assert(apply_deltas(before.values(), deltas) == f.values());
        lemma_replay_run(
            start_timestamp_ms,
            oscillators,
            emotions,
            frames,
            key,
            from + 1,
            target,
        );
    }
}

/// The reader accepts what the writer wrote, and finds one chunk per frame.
///
/// For every recording that the writer takes and that fits in memory, the
/// header parses to the start time that was written, and the scan gives
/// `expected_chunks`: chunk `j` is frame `j`, with the frame's band, marked
/// as a keyframe where the frame was stored whole.
pub proof fn theorem_scan_finds_every_frame(
    start_timestamp_ms: u64,
    oscillators: nat,
    emotions: nat,
    frames: Seq<FrameView>,
)
    requires
        recordable(oscillators, emotions, frames),
        fits_in_memory(start_timestamp_ms, oscillators, emotions, frames),
    ensures
        parse_header_spec(archive_bytes(start_timestamp_ms, oscillators, emotions, frames))
            is Ok,
        parse_header_spec(
            archive_bytes(start_timestamp_ms, oscillators, emotions, frames),
        )->Ok_0.start_timestamp_ms == start_timestamp_ms,
        scan_from(
            archive_bytes(start_timestamp_ms, oscillators, emotions, frames),
            start_timestamp_ms,
            HEADER_LEN as int,
            0,
        ) == Ok::<Seq<ChunkDescriptor>, FormatFault>(
            expected_chunks(start_timestamp_ms, oscillators, emotions, frames),
        ),
{
    let blank = CodecState::blank(oscillators, emotions);
    let body = chunks_upto(blank, frames, frames.len() as int) + end_marker();
    let data = archive_bytes(start_timestamp_ms, oscillators, emotions, frames);
    assert(data =~= header_bytes(FORMAT_VERSION, start_timestamp_ms) + body);
    lemma_header_roundtrip(start_timestamp_ms, body);
    lemma_scan_recording(start_timestamp_ms, oscillators, emotions, frames, 0);
    lemma_chunk_start_step(oscillators, emotions, 0);
    let expected = expected_chunks(start_timestamp_ms, oscillators, emotions, frames);
    assert(expected.subrange(0, frames.len() as int) =~= expected);
}

/// A frame that was stored whole is read back as it was written.
///
/// For every recording that the writer takes and every frame `j` of it that
/// is a keyframe or of the meso or macro band, reading frame `j` gives the
/// three vectors that were written, value for value, with the frame's band,
/// marked as a keyframe, at its replay time.
pub proof fn theorem_keyframe_reproduced(
    start_timestamp_ms: u64,
    oscillators: nat,
    emotions: nat,
    frames: Seq<FrameView>,
    j: int,
)
    requires
        recordable(oscillators, emotions, frames),
        fits_in_memory(start_timestamp_ms, oscillators, emotions, frames),
        0 <= j < frames.len(),
        stored_whole(frames[j]),
    ensures
        frame_at(
            archive_bytes(start_timestamp_ms, oscillators, emotions, frames),
            expected_chunks(start_timestamp_ms, oscillators, emotions, frames),
            start_timestamp_ms,
            oscillators,
            emotions,
            j as u64,
        ) == Ok::<FrameView, ReaderError>(
            FrameView {
                timestamp_ms: replay_time(start_timestamp_ms, j as u64),
                frame_index: j as u64,
                phases: frames[j].phases,
                amplitudes: frames[j].amplitudes,
                emotions: frames[j].emotions,
                is_keyframe: true,
                band: frames[j].band,
                processed: false,
            },
        ),
{
    let chunks = expected_chunks(start_timestamp_ms, oscillators, emotions, frames);
    lemma_expected_chunks(start_timestamp_ms, oscillators, emotions, frames);
    lemma_first_keyframe(chunks, j as u64);
    lemma_chunk_decodes(start_timestamp_ms, oscillators, emotions, frames, j);
    assert(is_keyframe_chunk(chunks[j]));
}

/// A frame that was stored as differences is rebuilt to the values the
/// encoder held after it.
///
/// For every recording that the writer takes and every micro frame `j` of it
/// that is no keyframe, if the nearest frame stored whole before it, `key`,
/// is a micro keyframe, then reading frame `j` gives the three vectors of
/// frame `j` as they were handed to the writer, value for value.
pub proof fn theorem_replay_equivalence(
    start_timestamp_ms: u64,
    oscillators: nat,
    emotions: nat,
    frames: Seq<FrameView>,
    key: int,
    j: int,
)
    requires
        recordable(oscillators, emotions, frames),
        fits_in_memory(start_timestamp_ms, oscillators, emotions, frames),
        0 <= key < j < frames.len(),
        frames[key].band == BAND_MICRO && frames[key].is_keyframe,
        forall|m: int| key < m <= j ==> !stored_whole(#[trigger] frames[m]),
    ensures
        frame_at(
            archive_bytes(start_timestamp_ms, oscillators, emotions, frames),
            expected_chunks(start_timestamp_ms, oscillators, emotions, frames),
            start_timestamp_ms,
            oscillators,
            emotions,
            j as u64,
        ) == Ok::<FrameView, ReaderError>(
            FrameView {
                timestamp_ms: replay_time(start_timestamp_ms, j as u64),
                frame_index: j as u64,
                phases: frames[j].phases,
                amplitudes: frames[j].amplitudes,
                emotions: frames[j].emotions,
                is_keyframe: false,
                band: BAND_MICRO,
                processed: false,
            },
        ),
{
    let data = archive_bytes(start_timestamp_ms, oscillators, emotions, frames);
    let chunks = expected_chunks(start_timestamp_ms, oscillators, emotions, frames);
    lemma_expected_chunks(start_timestamp_ms, oscillators, emotions, frames);
    lemma_first_keyframe(chunks, j as u64);
    assert(!stored_whole(frames[j]));
    assert(!is_keyframe_chunk(chunks[j]));
    assert(is_keyframe_chunk(chunks[key]));
    assert forall|p: int| key < p <= j implies !is_keyframe_chunk(#[trigger] chunks[p]) by {
        assert(!stored_whole(frames[p]));
    }
    lemma_last_keyframe(chunks, j as u64, key);
    lemma_chunk_decodes(start_timestamp_ms, oscillators, emotions, frames, key);
    assert forall|m: int| key < m <= j implies (#[trigger] frames[m]).band == BAND_MICRO
        && !frames[m].is_keyframe by {
        assert(!stored_whole(frames[m]));
    }
    lemma_replay_run(start_timestamp_ms, oscillators, emotions, frames, key, key + 1, j);
}


/// Whether a reader has opened `data`: it holds the bytes, the header that
/// stands at their front and the chunks that a scan of them finds. This is
/// what `ArchiveReader::open` leaves behind when it succeeds.
pub open spec fn opened(reader: &ArchiveReader, data: Seq<u8>) -> bool {
    &&& reader.data() == data
    &&& reader.header() is Some
    &&& parse_header_spec(data) == Ok::<StreamHeader, ReaderError>(reader.header()->Some_0)
    &&& scan_from(data, reader.start_time(), HEADER_LEN as int, 0) == Ok::<
        Seq<ChunkDescriptor>,
        FormatFault,
    >(reader.chunks())
}

proof fn lemma_opened_reader(
    reader: &ArchiveReader,
    start_timestamp_ms: u64,
    frames: Seq<FrameView>,
)
    requires
        recordable(reader.oscillators(), reader.emotions(), frames),
        fits_in_memory(start_timestamp_ms, reader.oscillators(), reader.emotions(), frames),
        opened(
            reader,
            archive_bytes(start_timestamp_ms, reader.oscillators(), reader.emotions(), frames),
        ),
    ensures
        forall|index: u64|
            #[trigger] reader.frame(index) == frame_at(
                archive_bytes(start_timestamp_ms, reader.oscillators(), reader.emotions(), frames),
                expected_chunks(start_timestamp_ms, reader.oscillators(), reader.emotions(), frames),
                start_timestamp_ms,
                reader.oscillators(),
                reader.emotions(),
                index,
            ),
{
    let d = reader.oscillators();
    let e = reader.emotions();
    theorem_scan_finds_every_frame(start_timestamp_ms, d, e, frames);
    assert(reader.start_time() == start_timestamp_ms);
    assert(reader.chunks() == expected_chunks(start_timestamp_ms, d, e, frames));
}

/// A reader that has opened a recording returns its keyframes as written.
///
/// For every recording that the writer takes, every reader for frames of the
/// recording's sizes that has opened its bytes, and every frame `j` that was
/// stored whole: the frame that the reader has at `j` holds the three
/// vectors that were written.
pub proof fn theorem_reader_returns_keyframes(
    reader: &ArchiveReader,
    start_timestamp_ms: u64,
    frames: Seq<FrameView>,
    j: int,
)
    requires
        recordable(reader.oscillators(), reader.emotions(), frames),
        fits_in_memory(start_timestamp_ms, reader.oscillators(), reader.emotions(), frames),
        opened(
            reader,
            archive_bytes(start_timestamp_ms, reader.oscillators(), reader.emotions(), frames),
        ),
        0 <= j < frames.len(),
        stored_whole(frames[j]),
    ensures
        reader.frame(j as u64) == Ok::<FrameView, ReaderError>(
            FrameView {
                timestamp_ms: replay_time(start_timestamp_ms, j as u64),
                frame_index: j as u64,
                phases: frames[j].phases,
                amplitudes: frames[j].amplitudes,
                emotions: frames[j].emotions,
                is_keyframe: true,
                band: frames[j].band,
                processed: false,
            },
        ),
{
    let d = reader.oscillators();
    let e = reader.emotions();
    lemma_opened_reader(reader, start_timestamp_ms, frames);
    theorem_keyframe_reproduced(start_timestamp_ms, d, e, frames, j);
}

/// A reader that has opened a recording rebuilds the frames stored as
/// differences.
///
/// For every recording that the writer takes, every reader for frames of the
/// recording's sizes that has opened its bytes, and every micro frame `j`
/// that is no keyframe and whose nearest frame stored whole before it, `key`,
/// is a micro keyframe: the frame that the reader has at `j` holds the three
/// vectors of frame `j` as they were handed to the writer.
pub proof fn theorem_reader_rebuilds_frames(
    reader: &ArchiveReader,
    start_timestamp_ms: u64,
    frames: Seq<FrameView>,
    key: int,
    j: int,
)
    requires
        recordable(reader.oscillators(), reader.emotions(), frames),
        fits_in_memory(start_timestamp_ms, reader.oscillators(), reader.emotions(), frames),
        opened(
            reader,
            archive_bytes(start_timestamp_ms, reader.oscillators(), reader.emotions(), frames),
        ),
        0 <= key < j < frames.len(),
        frames[key].band == BAND_MICRO && frames[key].is_keyframe,
        forall|m: int| key < m <= j ==> !stored_whole(#[trigger] frames[m]),
    ensures
        reader.frame(j as u64) == Ok::<FrameView, ReaderError>(
            FrameView {
                timestamp_ms: replay_time(start_timestamp_ms, j as u64),
                frame_index: j as u64,
                phases: frames[j].phases,
                amplitudes: frames[j].amplitudes,
                emotions: frames[j].emotions,
                is_keyframe: false,
                band: BAND_MICRO,
                processed: false,
            },
        ),
{
    let d = reader.oscillators();
    let e = reader.emotions();
    lemma_opened_reader(reader, start_timestamp_ms, frames);
    theorem_replay_equivalence(start_timestamp_ms, d, e, frames, key, j);
}

} // verus!

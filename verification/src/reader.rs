//! The reading side of an archive: an index of its chunks and random access
//! to its frames.
//!
//! A frame that is a keyframe is decoded from its own chunk. Any other frame
//! is rebuilt from the nearest keyframe at or before it, by applying the
//! micro-band differences that follow, up to the frame asked for.

use vstd::prelude::*;
use crate::bytes::{le_value, read_u32_le};
use crate::checksum::{crc32, crc32_ieee};
use crate::codec::{levels_applied, phases_applied, CodecState, DeltaDecoder};
use crate::format::{
    chunks_within, indices_ascend, is_keyframe_chunk, keyframe_positions, lemma_scan_indices,
    lemma_scan_within, parse_header,
    parse_header_spec, replay_time, scan_chunks, scan_from, slice_range, ChunkDescriptor,
    FormatFault, ReaderError, StreamHeader, HEADER_LEN,
};
use crate::frame::{
    copy_values, payload_len, payload_values, read_i16s_le, FrameData, FrameView, BAND_MICRO,
    FRAME_PERIOD_MS,
};

verus! {

/// Keyframes kept decoded unless configured otherwise.
pub const DEFAULT_KEYFRAME_CACHE: usize = 10;

/// The first keyframe, from place `from` of the keyframe list on, that has
/// frame index `index`: its position among the chunks.
pub open spec fn first_keyframe_at(
    chunks: Seq<ChunkDescriptor>,
    keyframes: Seq<usize>,
    index: u64,
    from: int,
) -> Option<usize>
    decreases keyframes.len() - from,
{
    if from < 0 || from >= keyframes.len() {
        None
    } else if chunks[keyframes[from] as int].frame_index == index {
        Some(keyframes[from])
    } else {
        first_keyframe_at(chunks, keyframes, index, from + 1)
    }
}

/// The last keyframe, among the first `upto` of the keyframe list, whose
/// frame index is at most `index`: its position among the chunks.
pub open spec fn last_keyframe_before(
    chunks: Seq<ChunkDescriptor>,
    keyframes: Seq<usize>,
    index: u64,
    upto: int,
) -> Option<usize>
    decreases upto,
{
    if upto <= 0 || upto > keyframes.len() {
        None
    } else if chunks[keyframes[upto - 1] as int].frame_index <= index {
        Some(keyframes[upto - 1])
    } else {
        last_keyframe_before(chunks, keyframes, index, upto - 1)
    }
}

/// The payload of a chunk.
pub open spec fn chunk_payload(data: Seq<u8>, c: ChunkDescriptor) -> Seq<u8> {
    data.subrange(c.offset as int, c.offset + c.data_size)
}

/// The checksum stored behind a chunk's payload.
pub open spec fn stored_crc(data: Seq<u8>, c: ChunkDescriptor) -> nat {
    le_value(data.subrange(c.offset + c.data_size, c.offset + c.data_size + 4))
}

/// The payload of a chunk, once its checksum has been found to match.
pub open spec fn checked_payload(data: Seq<u8>, c: ChunkDescriptor) -> Result<
    Seq<u8>,
    FormatFault,
> {
    if stored_crc(data, c) == crc32_ieee(chunk_payload(data, c)) {
        Ok(chunk_payload(data, c))
    } else {
        Err(FormatFault::ChunkCrcMismatch)
    }
}

/// The three vectors that a chunk stores.
pub open spec fn chunk_values(
    data: Seq<u8>,
    c: ChunkDescriptor,
    oscillators: nat,
    emotions: nat,
) -> Result<CodecState, FormatFault> {
    match checked_payload(data, c) {
        Err(fault) => Err(fault),
        Ok(payload) => if payload.len() < payload_len(oscillators, emotions) {
            Err(FormatFault::PayloadTooShort)
        } else {
            Ok(payload_values(payload, oscillators, emotions))
        },
    }
}

/// The frame that a keyframe chunk stores.
pub open spec fn keyframe_frame(
    data: Seq<u8>,
    c: ChunkDescriptor,
    oscillators: nat,
    emotions: nat,
) -> Result<FrameView, ReaderError> {
    match chunk_values(data, c, oscillators, emotions) {
        Err(fault) => Err(ReaderError::InvalidFormat(fault)),
        Ok(values) => Ok(
            FrameView {
                timestamp_ms: c.timestamp_ms,
                frame_index: c.frame_index,
                phases: values.phases,
                amplitudes: values.amplitudes,
                emotions: values.emotions,
                is_keyframe: true,
                band: c.chunk_type,
                processed: false,
            },
        ),
    }
}

/// A state moved on by one chunk of differences: phases, then amplitudes,
/// then emotions.
pub open spec fn apply_deltas(state: CodecState, deltas: CodecState) -> CodecState {
    CodecState {
        phases: phases_applied(state.phases, deltas.phases),
        amplitudes: levels_applied(state.amplitudes, deltas.amplitudes),
        emotions: levels_applied(state.emotions, deltas.emotions),
    }
}

/// The state after the chunks from position `from` on have been applied to
/// `state`, up to frame `target`.
///
/// Chunks of other bands than micro are passed over. The walk ends at the
/// first micro chunk beyond `target`, or at the end of the chunks.
pub open spec fn replay(
    data: Seq<u8>,
    chunks: Seq<ChunkDescriptor>,
    from: int,
    target: u64,
    state: CodecState,
    oscillators: nat,
    emotions: nat,
) -> Result<CodecState, FormatFault>
    decreases chunks.len() - from,
{
    if from < 0 || from >= chunks.len() {
        Ok(state)
    } else if chunks[from].chunk_type != BAND_MICRO {
        replay(data, chunks, from + 1, target, state, oscillators, emotions)
    } else if chunks[from].frame_index > target {
        Ok(state)
    } else {
        match chunk_values(data, chunks[from], oscillators, emotions) {
            Err(fault) => Err(fault),
            Ok(deltas) => replay(
                data,
                chunks,
                from + 1,
                target,
                apply_deltas(state, deltas),
                oscillators,
                emotions,
            ),
        }
    }
}

/// The frame that stands at `index` in an archive with these bytes and chunks.
pub open spec fn frame_at(
    data: Seq<u8>,
    chunks: Seq<ChunkDescriptor>,
    start_timestamp_ms: u64,
    oscillators: nat,
    emotions: nat,
    index: u64,
) -> Result<FrameView, ReaderError> {
    let keyframes = keyframe_positions(chunks, chunks.len() as int);
    match first_keyframe_at(chunks, keyframes, index, 0) {
        Some(p) => keyframe_frame(data, chunks[p as int], oscillators, emotions),
        None => match last_keyframe_before(chunks, keyframes, index, keyframes.len() as int) {
            None => Err(ReaderError::SeekError),
            Some(q) => match keyframe_frame(data, chunks[q as int], oscillators, emotions) {
                Err(e) => Err(e),
                Ok(keyframe) => match replay(
                    data,
                    chunks,
                    q + 1,
                    index,
                    keyframe.values(),
                    oscillators,
                    emotions,
                ) {
                    Err(fault) => Err(ReaderError::InvalidFormat(fault)),
                    Ok(values) => Ok(
                        FrameView {
                            timestamp_ms: replay_time(start_timestamp_ms, index),
                            frame_index: index,
                            phases: values.phases,
                            amplitudes: values.amplitudes,
                            emotions: values.emotions,
                            is_keyframe: false,
                            band: BAND_MICRO,
                            processed: false,
                        },
                    ),
                },
            },
        },
    }
}

/// The position of the keyframe that `frame_at` decodes for `index`, if any.
pub open spec fn keyframe_used(chunks: Seq<ChunkDescriptor>, index: u64) -> Option<usize> {
    let keyframes = keyframe_positions(chunks, chunks.len() as int);
    match first_keyframe_at(chunks, keyframes, index, 0) {
        Some(p) => Some(p),
        None => last_keyframe_before(chunks, keyframes, index, keyframes.len() as int),
    }
}

/// The cached frame indices after the keyframe with frame index `key` was
/// decoded: unchanged if it was cached, else `key` is added at the back and,
/// beyond `max` entries, the oldest entry leaves.
pub open spec fn cache_after(cached: Seq<u64>, key: u64, max: nat) -> Seq<u64> {
    if cached.contains(key) {
        cached
    } else if cached.len() + 1 > max {
        cached.push(key).drop_first()
    } else {
        cached.push(key)
    }
}

/// Damage to a chunk's stored checksum is noticed.
///
/// For every chunk that lies within the data and passes its check, changing
/// any one byte of the four checksum bytes behind the payload makes the check
/// fail. (For the bytes of the payload the same rests on the strength of the
/// checksum, which is not stated here.)
pub proof fn theorem_checksum_damage_noticed(
    data: Seq<u8>,
    c: ChunkDescriptor,
    at: int,
    byte: u8,
)
    requires
        c.offset + c.data_size + 4 <= data.len(),
        checked_payload(data, c) is Ok,
        c.offset + c.data_size <= at < c.offset + c.data_size + 4,
        byte != data[at],
    ensures
        checked_payload(data.update(at, byte), c) == Err::<Seq<u8>, FormatFault>(
            FormatFault::ChunkCrcMismatch,
        ),
{
    let damaged = data.update(at, byte);
    let end = c.offset + c.data_size;
    assert(chunk_payload(damaged, c) =~= chunk_payload(data, c));
    let before = data.subrange(end, end + 4);
    let after = damaged.subrange(end, end + 4);
    assert(after[at - end] != before[at - end]);
    if le_value(after) == le_value(before) {
        crate::bytes::lemma_le_value_injective(after, before);
    }
}

/// Every position in a keyframe list is that of a keyframe chunk among the
/// first `upto`, and the positions go up.
pub proof fn lemma_keyframe_positions_valid(chunks: Seq<ChunkDescriptor>, upto: int)
    requires
        upto <= chunks.len() <= usize::MAX,
    ensures
        forall|k: int|
            0 <= k < keyframe_positions(chunks, upto).len() ==> {
                &&& 0 <= (#[trigger] keyframe_positions(chunks, upto)[k]) < upto
                &&& is_keyframe_chunk(chunks[keyframe_positions(chunks, upto)[k] as int])
            },
        forall|a: int, b: int|
            0 <= a < b < keyframe_positions(chunks, upto).len() ==> keyframe_positions(
                chunks,
                upto,
            )[a] < keyframe_positions(chunks, upto)[b],
        keyframe_positions(chunks, upto).len() <= if upto < 0 {
            0
        } else {
            upto
        },
    decreases upto,
{
    if upto > 0 {
        lemma_keyframe_positions_valid(chunks, upto - 1);
        let before = keyframe_positions(chunks, upto - 1);
        let now = keyframe_positions(chunks, upto);
        assert forall|k: int| 0 <= k < now.len() implies 0 <= (#[trigger] now[k]) < upto
            && is_keyframe_chunk(chunks[now[k] as int]) by {
            if k < before.len() {
                assert(now[k] == before[k]);
            }
        }
        assert forall|a: int, b: int| 0 <= a < b < now.len() implies now[a] < now[b] by {
            assert(now[a] == before[a]);
            if b < before.len() {
                assert(now[b] == before[b]);
            }
        }
    }
}

/// A decoded keyframe kept for the next time it is asked for.
pub struct CachedKeyframe {
    /// The frame index of the keyframe.
    pub frame_index: u64,
    /// The decoded frame.
    pub frame: FrameData,
}

/// Reads frames from the bytes of an archive.
pub struct ArchiveReader {
    data: Vec<u8>,
    header: Option<StreamHeader>,
    all_chunks: Vec<ChunkDescriptor>,
    keyframes: Vec<usize>,
    keyframe_cache: Vec<CachedKeyframe>,
    delta_decoder: DeltaDecoder,
    oscillator_count: usize,
    emotion_dimensions: usize,
    max_keyframe_cache: usize,
    duration_ms: u64,
}

impl ArchiveReader {
    /// The bytes of the archive; none before `open`.
    pub closed spec fn data(&self) -> Seq<u8> {
        self.data@
    }

    /// The chunks found by `open`, in the order of the data.
    pub closed spec fn chunks(&self) -> Seq<ChunkDescriptor> {
        self.all_chunks@
    }

    /// The header read by `open`.
    pub closed spec fn header(&self) -> Option<StreamHeader> {
        self.header
    }

    /// Oscillators per frame.
    pub closed spec fn oscillators(&self) -> nat {
        self.oscillator_count as nat
    }

    /// Emotion dimensions per frame.
    pub closed spec fn emotions(&self) -> nat {
        self.emotion_dimensions as nat
    }

    /// How many decoded keyframes are kept at most.
    pub closed spec fn cache_limit(&self) -> nat {
        self.max_keyframe_cache as nat
    }

    /// The frame indices of the keyframes kept decoded, oldest first.
    pub closed spec fn cached(&self) -> Seq<u64> {
        Seq::new(self.keyframe_cache@.len(), |k: int| self.keyframe_cache@[k].frame_index)
    }

    /// The start time in the header; zero before `open`.
    pub open spec fn start_time(&self) -> u64 {
        match self.header() {
            Some(h) => h.start_timestamp_ms,
            None => 0,
        }
    }

    /// The frame at `index`, or why there is none.
    pub open spec fn frame(&self, index: u64) -> Result<FrameView, ReaderError> {
        frame_at(
            self.data(),
            self.chunks(),
            self.start_time(),
            self.oscillators(),
            self.emotions(),
            index,
        )
    }

    /// The reader's invariant: its index is the scan of its data, and every
    /// cached keyframe is what decoding it again would give.
    pub closed spec fn wf(&self) -> bool {
        &&& match self.header {
            Some(h) => parse_header_spec(self.data@) == Ok::<StreamHeader, ReaderError>(h)
                && scan_from(self.data@, h.start_timestamp_ms, HEADER_LEN as int, 0) == Ok::<
                Seq<ChunkDescriptor>,
                FormatFault,
            >(self.all_chunks@),
            None => self.all_chunks@.len() == 0 && self.data@.len() == 0,
        }
        &&& self.keyframes@ == keyframe_positions(self.all_chunks@, self.all_chunks@.len() as int)
        &&& chunks_within(self.all_chunks@, self.data@.len())
        &&& indices_ascend(self.all_chunks@)
        &&& self.all_chunks@.len() <= usize::MAX
        &&& self.delta_decoder@.phases.len() == self.oscillator_count
        &&& self.delta_decoder@.amplitudes.len() == self.oscillator_count
        &&& self.delta_decoder@.emotions.len() == self.emotion_dimensions
        &&& self.keyframe_cache@.len() <= self.max_keyframe_cache
        &&& self.duration_ms == (if self.all_chunks@.len() == 0 {
            0
        } else {
            self.all_chunks@.last().timestamp_ms
        })
        &&& forall|k: int|
            0 <= k < self.keyframe_cache@.len() ==> self.cache_entry_ok(
                #[trigger] self.keyframe_cache@[k],
            )
    }

    /// Whether a cached keyframe is what decoding it again would give.
    pub closed spec fn cache_entry_ok(&self, entry: CachedKeyframe) -> bool {
        match first_keyframe_at(self.all_chunks@, self.keyframes@, entry.frame_index, 0) {
            Some(p) => keyframe_frame(
                self.data@,
                self.all_chunks@[p as int],
                self.oscillator_count as nat,
                self.emotion_dimensions as nat,
            ) == Ok::<FrameView, ReaderError>(entry.frame@),
            None => false,
        }
    }

    /// A reader for frames of the given sizes, with no archive yet.
    pub fn new(oscillator_count: usize, emotion_dimensions: usize) -> (r: Self)
        ensures
            r.wf(),
            r.header() is None,
            r.data() == Seq::<u8>::empty(),
            r.chunks() == Seq::<ChunkDescriptor>::empty(),
            r.oscillators() == oscillator_count,
            r.emotions() == emotion_dimensions,
            r.cache_limit() == DEFAULT_KEYFRAME_CACHE,
            r.cached() == Seq::<u64>::empty(),
    {
        let r = ArchiveReader {
            data: Vec::new(),
            header: None,
            all_chunks: Vec::new(),
            keyframes: Vec::new(),
            keyframe_cache: Vec::new(),
            delta_decoder: DeltaDecoder::new(oscillator_count, emotion_dimensions),
            oscillator_count,
            emotion_dimensions,
            max_keyframe_cache: DEFAULT_KEYFRAME_CACHE,
            duration_ms: 0,
        };
        assert(r.cached() =~= Seq::<u64>::empty());
        assert(r.data@ =~= Seq::<u8>::empty());
        assert(r.all_chunks@ =~= Seq::<ChunkDescriptor>::empty());
        r
    }

    /// Sets how many decoded keyframes are kept, and forgets those kept so far.
    pub fn set_max_keyframe_cache(&mut self, max: usize)
        requires
            old(self).wf(),
        ensures
            final(self).wf(),
            final(self).cache_limit() == max,
            final(self).cached() == Seq::<u64>::empty(),
            final(self).data() == old(self).data(),
            final(self).chunks() == old(self).chunks(),
            final(self).header() == old(self).header(),
            final(self).oscillators() == old(self).oscillators(),
            final(self).emotions() == old(self).emotions(),
    {
        self.max_keyframe_cache = max;
        self.keyframe_cache = Vec::new();
        assert(self.cached() =~= Seq::<u64>::empty());
    }

    /// Takes the bytes of an archive, checks the header and indexes the chunks.
    ///
    /// Fails with what `parse_header_spec` or `scan_from` say of the bytes;
    /// the reader is then left without an archive.
    pub fn open(&mut self, data: Vec<u8>) -> (r: Result<(), ReaderError>)
        requires
            old(self).wf(),
        ensures
            final(self).wf(),
            final(self).oscillators() == old(self).oscillators(),
            final(self).emotions() == old(self).emotions(),
            final(self).cache_limit() == old(self).cache_limit(),
            final(self).cached() == Seq::<u64>::empty(),
            match parse_header_spec(data@) {
                Err(e) => r == Err::<(), ReaderError>(e),
                Ok(h) => match scan_from(data@, h.start_timestamp_ms, HEADER_LEN as int, 0) {
                    Err(fault) => r == Err::<(), ReaderError>(ReaderError::InvalidFormat(fault)),
                    Ok(chunks) => r is Ok && final(self).header() == Some(h)
                        && final(self).chunks() == chunks && final(self).data() == data@,
                },
            },
            r is Err ==> final(self).header() is None && final(self).chunks() == Seq::<
                ChunkDescriptor,
            >::empty() && final(self).data() == Seq::<u8>::empty(),
    {
        self.data = Vec::new();
        self.header = None;
        self.all_chunks = Vec::new();
        self.keyframes = Vec::new();
        self.keyframe_cache = Vec::new();
        self.duration_ms = 0;
        assert(self.cached() =~= Seq::<u64>::empty());
        assert(self.data@ =~= Seq::<u8>::empty());
        assert(self.all_chunks@ =~= Seq::<ChunkDescriptor>::empty());
        let header: StreamHeader = match parse_header(data.as_slice()) {
            Ok(h) => h,
            Err(e) => {
                return Err(e);
            },
        };
        let index = match scan_chunks(data.as_slice(), header.start_timestamp_ms) {
            Ok(index) => index,
            Err(fault) => {
                return Err(ReaderError::InvalidFormat(fault));
            },
        };
        let len: usize = data.len();
        proof {
            assert(len <= u64::MAX);
            lemma_scan_within(data@, header.start_timestamp_ms, HEADER_LEN as int, 0);
            lemma_scan_indices(data@, header.start_timestamp_ms, HEADER_LEN as int, 0);
        }
        self.duration_ms = if index.all_chunks.len() == 0 {
            0
        } else {
            index.all_chunks[index.all_chunks.len() - 1].timestamp_ms
        };
        self.data = data;
        self.header = Some(header);
        self.all_chunks = index.all_chunks;
        self.keyframes = index.keyframes;
        Ok(())
    }

    /// The replay time of the last chunk; zero for an archive without chunks.
    pub fn duration_ms(&self) -> (d: u64)
        requires
            self.wf(),
        ensures
            d == (if self.chunks().len() == 0 {
                0
            } else {
                self.chunks().last().timestamp_ms
            }),
    {
        self.duration_ms
    }

    /// The number of frames: one more than the frame index of the last chunk,
    /// zero for an archive without chunks.
    pub open spec fn frame_total(&self) -> u64 {
        if self.chunks().len() == 0 {
            0
        } else if self.chunks().last().frame_index == u64::MAX {
            u64::MAX
        } else {
            (self.chunks().last().frame_index + 1) as u64
        }
    }

    /// One more than the frame index of the last chunk; zero for an archive
    /// without chunks.
    pub fn frame_count(&self) -> (n: u64)
        requires
            self.wf(),
        ensures
            n == self.frame_total(),
    {
        let n: usize = self.all_chunks.len();
        if n == 0 {
            0
        } else {
            let last: u64 = self.all_chunks[n - 1].frame_index;
            if last == u64::MAX {
                u64::MAX
            } else {
                last + 1
            }
        }
    }

    /// Oscillators per frame.
    pub fn oscillator_count(&self) -> (n: usize)
        ensures
            n == self.oscillators(),
    {
        self.oscillator_count
    }

    /// Emotion dimensions per frame.
    pub fn emotion_dimensions(&self) -> (n: usize)
        ensures
            n == self.emotions(),
    {
        self.emotion_dimensions
    }

    /// Whether the keyframe with this frame index is kept decoded.
    pub fn is_cached(&self, frame_index: u64) -> (b: bool)
        ensures
            b == self.cached().contains(frame_index),
    {
        let mut k: usize = 0;
        while k < self.keyframe_cache.len()
            invariant
                k <= self.keyframe_cache@.len(),
                forall|j: int| 0 <= j < k ==> self.cached()[j] != frame_index,
            decreases self.keyframe_cache@.len() - k,
        {
            if self.keyframe_cache[k].frame_index == frame_index {
                assert(self.cached()[k as int] == frame_index);
                return true;
            }
            k = k + 1;
        }
        false
    }

    fn find_keyframe_at(&self, frame_index: u64) -> (r: Option<usize>)
        requires
            self.wf(),
        ensures
            r == first_keyframe_at(self.all_chunks@, self.keyframes@, frame_index, 0),
            r is Some ==> r->Some_0 < self.all_chunks@.len() && is_keyframe_chunk(
                self.all_chunks@[r->Some_0 as int],
            ) && self.all_chunks@[r->Some_0 as int].frame_index == frame_index,
    {
        proof {
            lemma_keyframe_positions_valid(self.all_chunks@, self.all_chunks@.len() as int);
        }
        let mut k: usize = 0;
        while k < self.keyframes.len()
            invariant
                self.wf(),
                k <= self.keyframes@.len(),
                first_keyframe_at(self.all_chunks@, self.keyframes@, frame_index, 0)
                    == first_keyframe_at(self.all_chunks@, self.keyframes@, frame_index, k as int),
                forall|j: int|
                    0 <= j < self.keyframes@.len() ==> 0 <= (#[trigger] self.keyframes@[j])
                        < self.all_chunks@.len() && is_keyframe_chunk(
                        self.all_chunks@[self.keyframes@[j] as int],
                    ),
            decreases self.keyframes@.len() - k,
        {
            let p: usize = self.keyframes[k];
            if self.all_chunks[p].frame_index == frame_index {
                return Some(p);
            }
            k = k + 1;
        }
        None
    }

    fn find_keyframe_before(&self, frame_index: u64) -> (r: Option<usize>)
        requires
            self.wf(),
        ensures
            r == last_keyframe_before(
                self.all_chunks@,
                self.keyframes@,
                frame_index,
                self.keyframes@.len() as int,
            ),
            r is Some ==> r->Some_0 < self.all_chunks@.len() && is_keyframe_chunk(
                self.all_chunks@[r->Some_0 as int],
            ) && self.keyframes@.contains(r->Some_0),
    {
        proof {
            lemma_keyframe_positions_valid(self.all_chunks@, self.all_chunks@.len() as int);
        }
        let mut k: usize = self.keyframes.len();
        while k > 0
            invariant
                self.wf(),
                k <= self.keyframes@.len(),
                last_keyframe_before(
                    self.all_chunks@,
                    self.keyframes@,
                    frame_index,
                    self.keyframes@.len() as int,
                ) == last_keyframe_before(
                    self.all_chunks@,
                    self.keyframes@,
                    frame_index,
                    k as int,
                ),
                forall|j: int|
                    0 <= j < self.keyframes@.len() ==> 0 <= (#[trigger] self.keyframes@[j])
                        < self.all_chunks@.len() && is_keyframe_chunk(
                        self.all_chunks@[self.keyframes@[j] as int],
                    ),
            decreases k,
        {
            let p: usize = self.keyframes[k - 1];
            if self.all_chunks[p].frame_index <= frame_index {
                return Some(p);
            }
            k = k - 1;
        }
        None
    }

    /// The payload of the chunk at `position`, once its checksum matches.
    fn decompress_chunk(&self, position: usize) -> (r: Result<&[u8], ReaderError>)
        requires
            self.wf(),
            position < self.all_chunks@.len(),
        ensures
            match checked_payload(self.data@, self.all_chunks@[position as int]) {
                Ok(payload) => r is Ok && r->Ok_0@ == payload,
                Err(fault) => r == Err::<&[u8], ReaderError>(ReaderError::InvalidFormat(fault)),
            },
    {
        let chunk: ChunkDescriptor = self.all_chunks[position];
        let len: usize = self.data.len();
        assert(chunk == self.all_chunks@[position as int]);
        assert(chunk.offset + chunk.data_size + 4 <= len);
        let at: usize = chunk.offset as usize;
        let end: usize = at + chunk.data_size;
        let payload: &[u8] = slice_range(self.data.as_slice(), at, end);
        let stored: u32 = read_u32_le(self.data.as_slice(), end);
        let computed: u32 = crc32(payload);
        if stored != computed {
            return Err(ReaderError::InvalidFormat(FormatFault::ChunkCrcMismatch));
        }
        Ok(payload)
    }

    /// The three vectors stored in the chunk at `position`.
    fn decode_chunk(&self, position: usize) -> (r: Result<
        (Vec<i16>, Vec<i16>, Vec<i16>),
        ReaderError,
    >)
        requires
            self.wf(),
            position < self.all_chunks@.len(),
        ensures
            match chunk_values(
                self.data@,
                self.all_chunks@[position as int],
                self.oscillator_count as nat,
                self.emotion_dimensions as nat,
            ) {
                Ok(values) => r is Ok && r->Ok_0.0@ == values.phases && r->Ok_0.1@
                    == values.amplitudes && r->Ok_0.2@ == values.emotions && values.phases.len()
                    == self.oscillator_count && values.amplitudes.len() == self.oscillator_count
                    && values.emotions.len() == self.emotion_dimensions,
                Err(fault) => r == Err::<(Vec<i16>, Vec<i16>, Vec<i16>), ReaderError>(
                    ReaderError::InvalidFormat(fault),
                ),
            },
    {
        let payload: &[u8] = match self.decompress_chunk(position) {
            Ok(p) => p,
            Err(e) => {
                return Err(e);
            },
        };
        let d: usize = self.oscillator_count;
        let e: usize = self.emotion_dimensions;
        let needed: u128 = 2 * (2 * (d as u128) + (e as u128));
        if (payload.len() as u128) < needed {
            return Err(ReaderError::InvalidFormat(FormatFault::PayloadTooShort));
        }
        let phases: Vec<i16> = read_i16s_le(payload, 0, d);
        let amplitudes: Vec<i16> = read_i16s_le(payload, 2 * d, d);
        let emotions: Vec<i16> = read_i16s_le(payload, 4 * d, e);
        Ok((phases, amplitudes, emotions))
    }

    /// Decodes the keyframe at `position`, from the cache where it is kept.
    fn read_keyframe(&mut self, position: usize) -> (r: Result<FrameData, ReaderError>)
        requires
            old(self).wf(),
            position < old(self).all_chunks@.len(),
            first_keyframe_at(
                old(self).all_chunks@,
                old(self).keyframes@,
                old(self).all_chunks@[position as int].frame_index,
                0,
            ) == Some(position),
        ensures
            final(self).wf(),
            final(self).same_archive(old(self)),
            match keyframe_frame(
                old(self).data@,
                old(self).all_chunks@[position as int],
                old(self).oscillator_count as nat,
                old(self).emotion_dimensions as nat,
            ) {
                Ok(f) => r is Ok && r->Ok_0@ == f && final(self).cached() == cache_after(
                    old(self).cached(),
                    old(self).all_chunks@[position as int].frame_index,
                    old(self).max_keyframe_cache as nat,
                ),
                Err(e) => r == Err::<FrameData, ReaderError>(e)
                    && final(self).cached() == old(self).cached(),
            },
    {
        let chunk: ChunkDescriptor = self.all_chunks[position];
        let mut k: usize = 0;
        while k < self.keyframe_cache.len()
            invariant
                self.wf(),
                *self == *old(self),
                k <= self.keyframe_cache@.len(),
                chunk == self.all_chunks@[position as int],
                first_keyframe_at(self.all_chunks@, self.keyframes@, chunk.frame_index, 0) == Some(
                    position,
                ),
                forall|j: int| 0 <= j < k ==> self.cached()[j] != chunk.frame_index,
            decreases self.keyframe_cache@.len() - k,
        {
            if self.keyframe_cache[k].frame_index == chunk.frame_index {
                assert(self.cache_entry_ok(self.keyframe_cache@[k as int]));
                assert(self.cached()[k as int] == chunk.frame_index);
                return Ok(self.keyframe_cache[k].frame.duplicate());
            }
            k = k + 1;
        }
        assert(!self.cached().contains(chunk.frame_index));
        let (phases, amplitudes, emotions) = match self.decode_chunk(position) {
            Ok(v) => v,
            Err(e) => {
                return Err(e);
            },
        };
        let frame = FrameData {
            timestamp_ms: chunk.timestamp_ms,
            frame_index: chunk.frame_index,
            phases,
            amplitudes,
            emotions,
            is_keyframe: true,
            band: chunk.chunk_type,
            processed: false,
        };
        let kept: FrameData = frame.duplicate();
        let ghost before = self.keyframe_cache@;
        self.keyframe_cache.push(CachedKeyframe { frame_index: chunk.frame_index, frame: kept });
        assert(self.cache_entry_ok(self.keyframe_cache@[before.len() as int]));
        assert(self.cached() =~= old(self).cached().push(chunk.frame_index));
        if self.keyframe_cache.len() > self.max_keyframe_cache {
            let ghost full = self.keyframe_cache@;
            self.keyframe_cache.remove(0);
            assert(forall|j: int|
                0 <= j < self.keyframe_cache@.len() ==> self.keyframe_cache@[j] == full[j + 1]);
            assert(self.cached() =~= old(self).cached().push(chunk.frame_index).drop_first());
        }
        Ok(frame)
    }

    /// Whether two readers hold the same archive with the same settings.
    closed spec fn same_archive(&self, other: &Self) -> bool {
        &&& self.data@ == other.data@
        &&& self.header == other.header
        &&& self.all_chunks@ == other.all_chunks@
        &&& self.keyframes@ == other.keyframes@
        &&& self.oscillator_count == other.oscillator_count
        &&& self.emotion_dimensions == other.emotion_dimensions
        &&& self.max_keyframe_cache == other.max_keyframe_cache
        &&& self.duration_ms == other.duration_ms
    }

    /// Reads the frame at `frame_index`.
    ///
    /// The result is `self.frame(frame_index)`: the frame, or why there is
    /// none. The keyframe that was decoded on the way is kept in the cache.
    #[verifier::loop_isolation(false)]
    pub fn read_frame(&mut self, frame_index: u64) -> (r: Result<FrameData, ReaderError>)
        requires
            old(self).wf(),
        ensures
            final(self).wf(),
            final(self).data() == old(self).data(),
            final(self).chunks() == old(self).chunks(),
            final(self).header() == old(self).header(),
            final(self).oscillators() == old(self).oscillators(),
            final(self).emotions() == old(self).emotions(),
            final(self).cache_limit() == old(self).cache_limit(),
            match old(self).frame(frame_index) {
                Ok(f) => r is Ok && r->Ok_0@ == f,
                Err(e) => r == Err::<FrameData, ReaderError>(e),
            },
            final(self).cached() == (match keyframe_used(old(self).chunks(), frame_index) {
                Some(p) => if keyframe_frame(
                    old(self).data(),
                    old(self).chunks()[p as int],
                    old(self).oscillators(),
                    old(self).emotions(),
                ) is Ok {
                    cache_after(
                        old(self).cached(),
                        old(self).chunks()[p as int].frame_index,
                        old(self).cache_limit(),
                    )
                } else {
                    old(self).cached()
                },
                None => old(self).cached(),
            }),
    {
        proof {
            lemma_keyframe_positions_valid(self.all_chunks@, self.all_chunks@.len() as int);
        }
        match self.find_keyframe_at(frame_index) {
            Some(p) => {
                return self.read_keyframe(p);
            },
            None => {},
        }
        let q: usize = match self.find_keyframe_before(frame_index) {
            Some(q) => q,
            None => {
                return Err(ReaderError::SeekError);
            },
        };
        proof {
            self.lemma_keyframe_is_first(q);
        }
        let keyframe: FrameData = match self.read_keyframe(q) {
            Ok(f) => f,
            Err(e) => {
                return Err(e);
            },
        };
        let mut int_phases: Vec<i16> = copy_values(keyframe.phases.as_slice());
        let mut int_amplitudes: Vec<i16> = copy_values(keyframe.amplitudes.as_slice());
        let mut int_emotions: Vec<i16> = copy_values(keyframe.emotions.as_slice());
        self.delta_decoder.reset();
        self.delta_decoder.set_state_from_data(
            int_phases.as_slice(),
            int_amplitudes.as_slice(),
            int_emotions.as_slice(),
        );
        let ghost start = keyframe@.values();
        let ghost after_keyframe = self.cached();
        let count: usize = self.all_chunks.len();
        let mut chunk_index: usize = q + 1;
        let mut done: bool = false;
        while chunk_index < self.all_chunks.len() && !done
            invariant
                self.wf(),
                self.same_archive(old(self)),
                self.cached() == after_keyframe,
                q < chunk_index <= self.all_chunks@.len(),
                self.delta_decoder@.phases == int_phases@,
                self.delta_decoder@.amplitudes == int_amplitudes@,
                self.delta_decoder@.emotions == int_emotions@,
                int_phases@.len() == self.oscillator_count,
                int_amplitudes@.len() == self.oscillator_count,
                int_emotions@.len() == self.emotion_dimensions,
                replay(
                    self.data@,
                    self.all_chunks@,
                    q + 1,
                    frame_index,
                    start,
                    self.oscillator_count as nat,
                    self.emotion_dimensions as nat,
                ) == (if done {
                    Ok::<CodecState, FormatFault>(self.delta_decoder@)
                } else {
                    replay(
                        self.data@,
                        self.all_chunks@,
                        chunk_index as int,
                        frame_index,
                        self.delta_decoder@,
                        self.oscillator_count as nat,
                        self.emotion_dimensions as nat,
                    )
                }),
            decreases self.all_chunks@.len() - chunk_index + (if done { 0int } else { 1int }),
        {
            let chunk: ChunkDescriptor = self.all_chunks[chunk_index];
            if chunk.chunk_type != BAND_MICRO {
                chunk_index = chunk_index + 1;
            } else if chunk.frame_index > frame_index {
                done = true;
            } else {
                let (phase_deltas, amplitude_deltas, emotion_deltas) = match self.decode_chunk(
                    chunk_index,
                ) {
                    Ok(v) => v,
                    Err(e) => {
                        return Err(e);
                    },
                };
                let ghost before = self.delta_decoder@;
                self.delta_decoder.apply_phase_deltas(
                    phase_deltas.as_slice(),
                    int_phases.as_mut_slice(),
                );
                self.delta_decoder.apply_amplitude_deltas(
                    amplitude_deltas.as_slice(),
                    int_amplitudes.as_mut_slice(),
                );
                self.delta_decoder.apply_emotion_deltas(
                    emotion_deltas.as_slice(),
                    int_emotions.as_mut_slice(),
                );
                proof {
                    assert(int_phases@ =~= self.delta_decoder@.phases);
                    assert(int_amplitudes@ =~= self.delta_decoder@.amplitudes);
                    assert(int_emotions@ =~= self.delta_decoder@.emotions);
                    assert(self.delta_decoder@ == apply_deltas(
                        before,
                        CodecState {
                            phases: phase_deltas@,
                            amplitudes: amplitude_deltas@,
                            emotions: emotion_deltas@,
                        },
                    ));
                }
                chunk_index = chunk_index + 1;
            }
        }
        let start_timestamp_ms: u64 = match self.header {
            Some(h) => h.start_timestamp_ms,
            None => 0,
        };
        let stamp: u128 = start_timestamp_ms as u128 + (FRAME_PERIOD_MS as u128) * (
        frame_index as u128);
        let timestamp_ms: u64 = if stamp > u64::MAX as u128 {
            u64::MAX
        } else {
            stamp as u64
        };
        Ok(
            FrameData {
                timestamp_ms,
                frame_index,
                phases: int_phases,
                amplitudes: int_amplitudes,
                emotions: int_emotions,
                is_keyframe: false,
                band: BAND_MICRO,
                processed: false,
            },
        )
    }

    /// Among the keyframes, the one at a position is the first with its frame index.
    proof fn lemma_keyframe_is_first(&self, position: usize)
        requires
            self.wf(),
            self.keyframes@.contains(position),
        ensures
            first_keyframe_at(
                self.all_chunks@,
                self.keyframes@,
                self.all_chunks@[position as int].frame_index,
                0,
            ) == Some(position),
    {
        lemma_keyframe_positions_valid(self.all_chunks@, self.all_chunks@.len() as int);
        let k = choose|k: int| 0 <= k < self.keyframes@.len() && self.keyframes@[k] == position;
        self.lemma_first_from(k, 0);
    }

    proof fn lemma_first_from(&self, k: int, from: int)
        requires
            self.wf(),
            0 <= from <= k < self.keyframes@.len(),
        ensures
            first_keyframe_at(
                self.all_chunks@,
                self.keyframes@,
                self.all_chunks@[self.keyframes@[k] as int].frame_index,
                from,
            ) == Some(self.keyframes@[k]),
        decreases k - from,
    {
        lemma_keyframe_positions_valid(self.all_chunks@, self.all_chunks@.len() as int);
        if from < k {
            let a = self.keyframes@[from] as int;
            let b = self.keyframes@[k] as int;
            assert(a < b);
            assert(is_keyframe_chunk(self.all_chunks@[a]));
            assert(self.all_chunks@[a].frame_index < self.all_chunks@[b].frame_index);
            self.lemma_first_from(k, from + 1);
        }
    }
}

} // verus!

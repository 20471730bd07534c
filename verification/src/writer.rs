//! The writing side of an archive: a byte stream that grows chunk by chunk.
//!
//! The writer stages bytes; whoever owns the file takes them with
//! `take_pending` and writes them out. `stream` is everything staged since
//! `start`, taken or not.

use vstd::prelude::*;
use crate::codec::{level_deltas, level_deltas_fit, phase_deltas, CodecState, DeltaEncoder, zeroed};
use crate::format::{
    chunk_bytes, chunk_tag, end_marker, header_bytes, write_chunk_bytes, write_end_marker,
    write_header, FORMAT_VERSION,
};
use crate::frame::{
    i16s_le, payload_bytes, push_i16s_le, FrameData, FrameView, BAND_MACRO, BAND_MESO, BAND_MICRO,
};

verus! {

/// Why a writer refuses.
#[derive(Clone, Copy, Debug, PartialEq, Eq, Structural)]
pub enum WriterError {
    /// No header has been written yet.
    NotStarted,
    /// The payload's length does not fit in 32 bits.
    PayloadTooLarge,
}

/// Stages the bytes of one archive.
pub struct ArchiveWriter {
    pending: Vec<u8>,
    taken: Ghost<Seq<u8>>,
    started: bool,
}

impl ArchiveWriter {
    /// Everything staged since `start`.
    pub closed spec fn stream(&self) -> Seq<u8> {
        self.taken@ + self.pending@
    }

    /// The staged bytes that nobody has taken yet.
    pub closed spec fn pending(&self) -> Seq<u8> {
        self.pending@
    }

    /// Whether a header has been written.
    pub closed spec fn is_started(&self) -> bool {
        self.started
    }

    /// A writer that has staged nothing.
    pub fn new() -> (w: Self)
        ensures
            !w.is_started(),
            w.stream() == Seq::<u8>::empty(),
            w.pending() == Seq::<u8>::empty(),
    {
        ArchiveWriter { pending: Vec::new(), taken: Ghost(Seq::empty()), started: false }
    }

    /// Whether a header has been written.
    pub fn started(&self) -> (b: bool)
        ensures
            b == self.is_started(),
    {
        self.started
    }

    /// Begins a new stream with a header that carries `start_time_ms`.
    pub fn start(&mut self, start_time_ms: u64)
        ensures
            final(self).is_started(),
            final(self).stream() == header_bytes(FORMAT_VERSION, start_time_ms),
            final(self).pending() == final(self).stream(),
    {
        self.pending = Vec::new();
        self.taken = Ghost(Seq::empty());
        write_header(&mut self.pending, start_time_ms);
        self.started = true;
        assert(self.taken@ + self.pending@ =~= self.pending@);
    }

    /// Appends one chunk.
    ///
    /// Refuses, and changes nothing, before `start` and when the payload is
    /// longer than a 32-bit length can say.
    pub fn write_chunk(&mut self, band_type: u8, is_keyframe: bool, data: &[u8]) -> (r: Result<
        (),
        WriterError,
    >)
        ensures
            r == Err::<(), WriterError>(WriterError::NotStarted) <==> !old(self).is_started(),
            r == Err::<(), WriterError>(WriterError::PayloadTooLarge) <==> old(self).is_started()
                && data@.len() > u32::MAX,
            r is Err ==> *final(self) == *old(self),
            r is Ok ==> final(self).is_started() && final(self).stream() == old(self).stream()
                + chunk_bytes(chunk_tag(band_type, is_keyframe), data@) && final(self).pending()
                == old(self).pending() + chunk_bytes(chunk_tag(band_type, is_keyframe), data@),
    {
        if !self.started {
            return Err(WriterError::NotStarted);
        }
        if data.len() > u32::MAX as usize {
            return Err(WriterError::PayloadTooLarge);
        }
        write_chunk_bytes(&mut self.pending, band_type, is_keyframe, data);
        assert(self.taken@ + self.pending@ =~= old(self).taken@ + old(self).pending@ + chunk_bytes(
            chunk_tag(band_type, is_keyframe),
            data@,
        ));
        Ok(())
    }

    /// Hands over the staged bytes, to be written out in this order.
    pub fn take_pending(&mut self) -> (bytes: Vec<u8>)
        ensures
            bytes@ == old(self).pending(),
            final(self).pending() == Seq::<u8>::empty(),
            final(self).stream() == old(self).stream(),
            final(self).is_started() == old(self).is_started(),
    {
        let mut bytes: Vec<u8> = Vec::new();
        std::mem::swap(&mut bytes, &mut self.pending);
        self.taken = Ghost(self.taken@ + bytes@);
        assert(self.taken@ + self.pending@ =~= old(self).taken@ + old(self).pending@);
        bytes
    }

    /// Ends the stream and hands over what is still staged, the end marker
    /// last. Refuses before `start`.
    pub fn finish(self) -> (r: Result<Vec<u8>, WriterError>)
        ensures
            r is Err <==> !self.is_started(),
            r is Err ==> r == Err::<Vec<u8>, WriterError>(WriterError::NotStarted),
            r is Ok ==> r->Ok_0@ == self.pending() + end_marker(),
    {
        if !self.started {
            return Err(WriterError::NotStarted);
        }
        let mut bytes: Vec<u8> = self.pending;
        write_end_marker(&mut bytes);
        Ok(bytes)
    }
}

/// The differences that stand in a delta chunk for `values`, after `state`.
pub open spec fn delta_values(state: CodecState, values: CodecState) -> CodecState {
    CodecState {
        phases: phase_deltas(state.phases, values.phases),
        amplitudes: level_deltas(state.amplitudes, values.amplitudes),
        emotions: level_deltas(state.emotions, values.emotions),
    }
}

/// Whether a frame of the micro band has the encoder's sizes.
pub open spec fn same_shape(state: CodecState, values: CodecState) -> bool {
    &&& values.phases.len() == state.phases.len()
    &&& values.amplitudes.len() == state.amplitudes.len()
    &&& values.emotions.len() == state.emotions.len()
}

/// Whether the encoder can take the frame: a frame of the micro band has the
/// encoder's sizes, and where it is stored as differences, every amplitude
/// and emotion difference fits in 16 bits.
pub open spec fn frame_fits(state: CodecState, f: FrameView) -> bool {
    f.band == BAND_MICRO ==> {
        &&& same_shape(state, f.values())
        &&& !f.is_keyframe ==> level_deltas_fit(state.amplitudes, f.amplitudes)
            && level_deltas_fit(state.emotions, f.emotions)
    }
}

/// Whether a frame's payload is longer than a 32-bit length can say.
pub open spec fn frame_too_large(f: FrameView) -> bool {
    2 * (f.phases.len() + f.amplitudes.len() + f.emotions.len()) > u32::MAX
}

/// Whether a frame is written at all: only the three visual bands are.
pub open spec fn frame_is_written(f: FrameView) -> bool {
    f.band == BAND_MICRO || f.band == BAND_MESO || f.band == BAND_MACRO
}

/// The chunk that a frame becomes, given what the encoder remembers.
///
/// A micro keyframe is stored whole; any other micro frame as differences from
/// the remembered frame; meso and macro frames whole, as keyframes. A frame of
/// another band leaves no bytes.
pub open spec fn frame_chunk(state: CodecState, f: FrameView) -> Seq<u8> {
    if f.band == BAND_MICRO {
        if f.is_keyframe {
            chunk_bytes(chunk_tag(BAND_MICRO, true), payload_bytes(f.values()))
        } else {
            chunk_bytes(
                chunk_tag(BAND_MICRO, false),
                payload_bytes(delta_values(state, f.values())),
            )
        }
    } else if f.band == BAND_MESO {
        chunk_bytes(chunk_tag(BAND_MESO, true), payload_bytes(f.values()))
    } else if f.band == BAND_MACRO {
        chunk_bytes(chunk_tag(BAND_MACRO, true), payload_bytes(f.values()))
    } else {
        Seq::empty()
    }
}

/// What the encoder remembers after a frame: a micro frame replaces it.
pub open spec fn state_after(state: CodecState, f: FrameView) -> CodecState {
    if f.band == BAND_MICRO {
        f.values()
    } else {
        state
    }
}

/// What the encoder remembers before frame `j` of a recording.
pub open spec fn state_before(start: CodecState, frames: Seq<FrameView>, j: int) -> CodecState
    decreases j,
{
    if j <= 0 {
        start
    } else {
        state_after(state_before(start, frames, j - 1), frames[j - 1])
    }
}

/// The chunks that the first `j` frames of a recording become.
pub open spec fn chunks_upto(start: CodecState, frames: Seq<FrameView>, j: int) -> Seq<u8>
    decreases j,
{
    if j <= 0 {
        Seq::empty()
    } else {
        chunks_upto(start, frames, j - 1) + frame_chunk(
            state_before(start, frames, j - 1),
            frames[j - 1],
        )
    }
}

/// What the first frames of a recording become does not depend on the
/// frames behind them.
pub proof fn lemma_recording_prefix(
    start: CodecState,
    first: Seq<FrameView>,
    rest: Seq<FrameView>,
    j: int,
)
    requires
        0 <= j <= first.len(),
    ensures
        state_before(start, first + rest, j) == state_before(start, first, j),
        chunks_upto(start, first + rest, j) == chunks_upto(start, first, j),
    decreases j,
{
    if j > 0 {
        lemma_recording_prefix(start, first, rest, j - 1);
        assert((first + rest)[j - 1] == first[j - 1]);
    }
}

/// Recording in two runs gives the bytes of recording at once.
///
/// For every start state and all frames `first` and `rest`, the chunks of
/// `first` followed by the chunks of `rest`, the encoder carrying on from
/// where `first` left it, are the chunks of `first + rest`; and the encoder
/// ends up remembering the same.
pub proof fn theorem_recording_composes(
    start: CodecState,
    first: Seq<FrameView>,
    rest: Seq<FrameView>,
    k: int,
)
    requires
        0 <= k <= rest.len(),
    ensures
        state_before(start, first + rest, first.len() + k) == state_before(
            state_before(start, first, first.len() as int),
            rest,
            k,
        ),
        chunks_upto(start, first + rest, first.len() + k) == chunks_upto(
            start,
            first,
            first.len() as int,
        ) + chunks_upto(state_before(start, first, first.len() as int), rest, k),
    decreases k,
{
    let n = first.len() as int;
    let middle = state_before(start, first, n);
    if k == 0 {
        lemma_recording_prefix(start, first, rest, n);
        assert(chunks_upto(start, first, n) + Seq::<u8>::empty() =~= chunks_upto(start, first, n));
    } else {
        theorem_recording_composes(start, first, rest, k - 1);
        assert((first + rest)[n + k - 1] == rest[k - 1]);
        let a = chunks_upto(start, first, n);
        let b = chunks_upto(middle, rest, k - 1);
        let c = frame_chunk(state_before(middle, rest, k - 1), rest[k - 1]);
        assert((a + b) + c =~= a + (b + c));
    }
}

/// Bytes of a run of values are the bytes of its parts, one after the other.
pub proof fn lemma_i16s_le_concat(a: Seq<i16>, b: Seq<i16>)
    ensures
        i16s_le(a + b) == i16s_le(a) + i16s_le(b),
{
    let l = i16s_le(a + b);
    let r = i16s_le(a) + i16s_le(b);
    assert forall|k: int| 0 <= k < l.len() implies l[k] == r[k] by {
        if k < 2 * a.len() {
            assert(k / 2 < a.len());
        } else {
            let j = k - 2 * a.len();
            assert(k / 2 == a.len() + j / 2);
            assert(k % 2 == j % 2);
        }
    }
    assert(l =~= r);
}

/// The payload that stores the three vectors in order.
pub fn build_payload(phases: &[i16], amplitudes: &[i16], emotions: &[i16]) -> (data: Vec<u8>)
    ensures
        data@ == payload_bytes(
            CodecState { phases: phases@, amplitudes: amplitudes@, emotions: emotions@ },
        ),
        data@.len() == 2 * (phases@.len() + amplitudes@.len() + emotions@.len()),
{
    let mut data: Vec<u8> = Vec::new();
    push_i16s_le(&mut data, phases);
    push_i16s_le(&mut data, amplitudes);
    push_i16s_le(&mut data, emotions);
    proof {
        lemma_i16s_le_concat(phases@, amplitudes@);
        lemma_i16s_le_concat(phases@ + amplitudes@, emotions@);
        assert(data@ =~= i16s_le(phases@ + amplitudes@ + emotions@));
    }
    data
}

/// Writes one frame as a chunk and says whether a flush is due.
///
/// The frame counter goes up by one whatever the band. The chunk is
/// `frame_chunk` of what the encoder remembers; afterwards the encoder
/// remembers `state_after`. A flush is due once `flush_interval` frames have
/// gone by since the last one, and the counter is then noted as flushed.
///
/// A refusal of the writer comes back as it is and nothing is staged; the
/// encoder has then seen a micro frame only if that frame was to be stored as
/// differences.
pub fn process_frame(
    writer: &mut ArchiveWriter,
    frame: &FrameData,
    encoder: &mut DeltaEncoder,
    flush_interval: u64,
    frame_index: &mut u64,
    last_flush_frame: &mut u64,
) -> (r: Result<bool, WriterError>)
    requires
        *old(frame_index) < u64::MAX,
        *old(last_flush_frame) <= *old(frame_index),
        frame_fits(old(encoder)@, frame@),
    ensures
        *final(frame_index) == *old(frame_index) + 1,
        r is Err <==> frame_is_written(frame@) && (!old(writer).is_started() || frame_too_large(
            frame@,
        )),
        r == Err::<bool, WriterError>(WriterError::NotStarted) <==> frame_is_written(frame@)
            && !old(writer).is_started(),
        r is Err ==> {
            &&& *final(writer) == *old(writer)
            &&& *final(last_flush_frame) == *old(last_flush_frame)
            &&& final(encoder)@ == (if frame@.band == BAND_MICRO && !frame@.is_keyframe {
                frame@.values()
            } else {
                old(encoder)@
            })
        },
        r is Ok ==> {
            &&& final(writer).is_started() == old(writer).is_started()
            &&& final(writer).stream() == old(writer).stream() + frame_chunk(
                old(encoder)@,
                frame@,
            )
            &&& final(writer).pending() == old(writer).pending() + frame_chunk(
                old(encoder)@,
                frame@,
            )
            &&& final(encoder)@ == state_after(old(encoder)@, frame@)
            &&& r->Ok_0 == (*final(frame_index) - *old(last_flush_frame) >= flush_interval)
            &&& *final(last_flush_frame) == (if r->Ok_0 {
                *final(frame_index)
            } else {
                *old(last_flush_frame)
            })
        },
{
    *frame_index = *frame_index + 1;
    let band: u8 = frame.band;
    if band == BAND_MICRO {
        if frame.is_keyframe {
            let data: Vec<u8> = build_payload(
                frame.phases.as_slice(),
                frame.amplitudes.as_slice(),
                frame.emotions.as_slice(),
            );
            match writer.write_chunk(BAND_MICRO, true, data.as_slice()) {
                Ok(()) => {},
                Err(e) => {
                    return Err(e);
                },
            }
            encoder.set_state(
                frame.phases.as_slice(),
                frame.amplitudes.as_slice(),
                frame.emotions.as_slice(),
            );
        } else {
            let mut phase_deltas: Vec<i16> = zeroed(frame.phases.len());
            let mut amplitude_deltas: Vec<i16> = zeroed(frame.amplitudes.len());
            let mut emotion_deltas: Vec<i16> = zeroed(frame.emotions.len());
            encoder.encode_phases(frame.phases.as_slice(), phase_deltas.as_mut_slice());
            encoder.encode_amplitudes(frame.amplitudes.as_slice(), amplitude_deltas.as_mut_slice());
            encoder.encode_emotions(frame.emotions.as_slice(), emotion_deltas.as_mut_slice());
            proof {
                let before = old(encoder)@;
                assert(phase_deltas@ =~= crate::codec::phase_deltas(before.phases, frame@.phases));
                assert(amplitude_deltas@ =~= level_deltas(before.amplitudes, frame@.amplitudes));
                assert(emotion_deltas@ =~= level_deltas(before.emotions, frame@.emotions));
                assert(encoder@.phases =~= frame@.phases);
                assert(encoder@.amplitudes =~= frame@.amplitudes);
                assert(encoder@.emotions =~= frame@.emotions);
            }
            let data: Vec<u8> = build_payload(
                phase_deltas.as_slice(),
                amplitude_deltas.as_slice(),
                emotion_deltas.as_slice(),
            );
            match writer.write_chunk(BAND_MICRO, false, data.as_slice()) {
                Ok(()) => {},
                Err(e) => {
                    return Err(e);
                },
            }
        }
    } else if band == BAND_MESO || band == BAND_MACRO {
        let data: Vec<u8> = build_payload(
            frame.phases.as_slice(),
            frame.amplitudes.as_slice(),
            frame.emotions.as_slice(),
        );
        match writer.write_chunk(band, true, data.as_slice()) {
            Ok(()) => {},
            Err(e) => {
                return Err(e);
            },
        }
    } else {
        assert(writer.stream() + Seq::<u8>::empty() =~= writer.stream());
        assert(writer.pending() + Seq::<u8>::empty() =~= writer.pending());
    }
    if *frame_index - *last_flush_frame >= flush_interval {
        *last_flush_frame = *frame_index;
        Ok(true)
    } else {
        Ok(false)
    }
}

} // verus!

//! One captured frame of quantized oscillator state.

use vstd::prelude::*;
use crate::bytes::{i16_from_le, i16_le, lemma_i16_le_roundtrip, push_i16_le, read_i16_le};
use crate::codec::{clear_values, zeroed, zeros, CodecState};

verus! {

/// Band of full-rate frames.
pub const BAND_MICRO: u8 = 0x01;

/// Band of decimated frames.
pub const BAND_MESO: u8 = 0x02;

/// Band of event frames.
pub const BAND_MACRO: u8 = 0x03;

/// Band of audio samples.
pub const BAND_AUDIO_PCM: u8 = 0xFE;

/// Tag that ends the chunk stream.
pub const BAND_END: u8 = 0xFF;

/// Bit of a chunk tag that marks a keyframe.
pub const KEYFRAME_MARKER: u8 = 0x80;

/// Milliseconds between two frames on replay.
pub const FRAME_PERIOD_MS: u64 = 16;

/// Whether `band` carries oscillator frames.
pub open spec fn is_visual_band(band: u8) -> bool {
    band == BAND_MICRO || band == BAND_MESO || band == BAND_MACRO
}

/// Whether `band` carries oscillator frames.
pub fn band_is_visual(band: u8) -> (v: bool)
    ensures
        v == is_visual_band(band),
{
    band == BAND_MICRO || band == BAND_MESO || band == BAND_MACRO
}

/// The values of a frame as mathematical sequences.
pub struct FrameView {
    pub timestamp_ms: u64,
    pub frame_index: u64,
    pub phases: Seq<i16>,
    pub amplitudes: Seq<i16>,
    pub emotions: Seq<i16>,
    pub is_keyframe: bool,
    pub band: u8,
    pub processed: bool,
}

impl FrameView {
    /// The three value vectors.
    pub open spec fn values(self) -> CodecState {
        CodecState { phases: self.phases, amplitudes: self.amplitudes, emotions: self.emotions }
    }

    /// Whether the frame has `oscillators` phases and amplitudes and
    /// `emotions` emotions.
    pub open spec fn has_shape(self, oscillators: nat, emotions: nat) -> bool {
        &&& self.phases.len() == oscillators
        &&& self.amplitudes.len() == oscillators
        &&& self.emotions.len() == emotions
    }
}

/// A frame: when it was taken, where it stands in the sequence, and the
/// quantized phases, amplitudes and emotions.
#[derive(Debug)]
pub struct FrameData {
    /// Capture time in milliseconds.
    pub timestamp_ms: u64,
    /// Position in the sequence of captured frames.
    pub frame_index: u64,
    /// One phase per oscillator.
    pub phases: Vec<i16>,
    /// One amplitude per oscillator.
    pub amplitudes: Vec<i16>,
    /// The emotion vector.
    pub emotions: Vec<i16>,
    /// Whether the frame is stored whole.
    pub is_keyframe: bool,
    /// The band the frame belongs to.
    pub band: u8,
    /// Whether the writer has dealt with the frame.
    pub processed: bool,
}

impl View for FrameData {
    type V = FrameView;

    open spec fn view(&self) -> FrameView {
        FrameView {
            timestamp_ms: self.timestamp_ms,
            frame_index: self.frame_index,
            phases: self.phases@,
            amplitudes: self.amplitudes@,
            emotions: self.emotions@,
            is_keyframe: self.is_keyframe,
            band: self.band,
            processed: self.processed,
        }
    }
}

/// The frame that `FrameData::new` makes and `reset` restores.
pub open spec fn blank_frame(oscillators: nat, emotions: nat) -> FrameView {
    FrameView {
        timestamp_ms: 0,
        frame_index: 0,
        phases: zeros(oscillators),
        amplitudes: zeros(oscillators),
        emotions: zeros(emotions),
        is_keyframe: false,
        band: BAND_MICRO,
        processed: false,
    }
}

/// A copy of `src`.
pub fn copy_values(src: &[i16]) -> (v: Vec<i16>)
    ensures
        v@ == src@,
{
    let mut v: Vec<i16> = Vec::new();
    let mut i: usize = 0;
    while i < src.len()
        invariant
            i <= src@.len(),
            v@ == src@.take(i as int),
        decreases src@.len() - i,
    {
        v.push(src[i]);
        i = i + 1;
        assert(v@ =~= src@.take(i as int));
    }
    assert(src@.take(src@.len() as int) =~= src@);
    v
}

impl FrameData {
    /// A micro-band frame of zeros with buffers of the given sizes.
    pub fn new(oscillator_count: usize, emotion_dimensions: usize) -> (f: Self)
        ensures
            f@ == blank_frame(oscillator_count as nat, emotion_dimensions as nat),
    {
        FrameData {
            timestamp_ms: 0,
            frame_index: 0,
            phases: zeroed(oscillator_count),
            amplitudes: zeroed(oscillator_count),
            emotions: zeroed(emotion_dimensions),
            is_keyframe: false,
            band: BAND_MICRO,
            processed: false,
        }
    }

    /// Makes the frame blank again, keeping its buffers.
    pub fn reset(&mut self)
        ensures
            final(self)@ == (FrameView {
                phases: zeros(old(self)@.phases.len()),
                amplitudes: zeros(old(self)@.amplitudes.len()),
                emotions: zeros(old(self)@.emotions.len()),
                ..blank_frame(0, 0)
            }),
    {
        self.timestamp_ms = 0;
        self.frame_index = 0;
        clear_values(&mut self.phases);
        clear_values(&mut self.amplitudes);
        clear_values(&mut self.emotions);
        self.is_keyframe = false;
        self.band = BAND_MICRO;
        self.processed = false;
    }

    /// A frame with the same values.
    pub fn duplicate(&self) -> (f: Self)
        ensures
            f@ == self@,
    {
        FrameData {
            timestamp_ms: self.timestamp_ms,
            frame_index: self.frame_index,
            phases: copy_values(self.phases.as_slice()),
            amplitudes: copy_values(self.amplitudes.as_slice()),
            emotions: copy_values(self.emotions.as_slice()),
            is_keyframe: self.is_keyframe,
            band: self.band,
            processed: self.processed,
        }
    }
}

/// The bytes of a run of 16-bit values, two per value, little-endian.
pub open spec fn i16s_le(v: Seq<i16>) -> Seq<u8> {
    Seq::new(2 * v.len(), |i: int| i16_le(v[i / 2])[i % 2])
}

/// The `count` 16-bit values stored little-endian in `bytes` from byte `at` on.
pub open spec fn i16s_from_le(bytes: Seq<u8>, at: int, count: nat) -> Seq<i16> {
    Seq::new(count, |i: int| i16_from_le(bytes.subrange(at + 2 * i, at + 2 * i + 2)))
}

/// The payload of a chunk that stores the three vectors in order.
pub open spec fn payload_bytes(values: CodecState) -> Seq<u8> {
    i16s_le(values.phases + values.amplitudes + values.emotions)
}

/// The three vectors stored in a payload for `oscillators` oscillators and
/// `emotions` emotion dimensions.
pub open spec fn payload_values(payload: Seq<u8>, oscillators: nat, emotions: nat) -> CodecState {
    CodecState {
        phases: i16s_from_le(payload, 0, oscillators),
        amplitudes: i16s_from_le(payload, 2 * (oscillators as int), oscillators),
        emotions: i16s_from_le(payload, 4 * (oscillators as int), emotions),
    }
}

/// The bytes that a payload must have for the given sizes.
pub open spec fn payload_len(oscillators: nat, emotions: nat) -> nat {
    2 * (2 * oscillators + emotions)
}

/// Values written little-endian read back unchanged, from any part of the run.
pub proof fn lemma_i16s_roundtrip(v: Seq<i16>, first: int, count: nat)
    requires
        0 <= first,
        first + count <= v.len(),
    ensures
        i16s_le(v).len() == 2 * v.len(),
        i16s_from_le(i16s_le(v), 2 * first, count) == v.subrange(first, first + count),
{
    let b = i16s_le(v);
    let r = i16s_from_le(b, 2 * first, count);
    assert forall|i: int| 0 <= i < count implies r[i] == v[first + i] by {
        let k = first + i;
        let part = b.subrange(2 * k, 2 * k + 2);
        lemma_i16_le_roundtrip(v[k]);
        assert(part =~= i16_le(v[k])) by {
            assert(part.len() == 2);
            assert(part[0] == b[2 * k]);
            assert(part[1] == b[2 * k + 1]);
            assert((2 * k) / 2 == k && (2 * k) % 2 == 0);
            assert((2 * k + 1) / 2 == k && (2 * k + 1) % 2 == 1);
        }
    }
    assert(r =~= v.subrange(first, first + count));
}

/// A payload written from three vectors reads back as those vectors.
pub proof fn lemma_payload_roundtrip(values: CodecState)
    requires
        values.amplitudes.len() == values.phases.len(),
    ensures
        payload_bytes(values).len() == payload_len(values.phases.len(), values.emotions.len()),
        payload_values(payload_bytes(values), values.phases.len(), values.emotions.len())
            == values,
{
    let d = values.phases.len() as int;
    let e = values.emotions.len() as int;
    let all = values.phases + values.amplitudes + values.emotions;
    lemma_i16s_roundtrip(all, 0, d as nat);
    lemma_i16s_roundtrip(all, d, d as nat);
    lemma_i16s_roundtrip(all, 2 * d, e as nat);
    assert(all.subrange(0, d) =~= values.phases);
    assert(all.subrange(d, 2 * d) =~= values.amplitudes);
    assert(all.subrange(2 * d, 2 * d + e) =~= values.emotions);
}

/// Appends the values of `values`, two bytes each, little-endian.
pub fn push_i16s_le(out: &mut Vec<u8>, values: &[i16])
    ensures
        final(out)@ == old(out)@ + i16s_le(values@),
{
    let n: usize = values.len();
    let mut i: usize = 0;
    while i < n
        invariant
            i <= n,
            n == values@.len(),
            out@ == old(out)@ + i16s_le(values@.take(i as int)),
        decreases n - i,
    {
        let ghost before = out@;
        push_i16_le(out, values[i]);
        proof {
            let a = values@.take(i as int);
            let b = values@.take(i + 1);
            crate::bytes::lemma_le_bytes_len(crate::bytes::i16_bits(values@[i as int]) as nat, 2);
            assert(i16s_le(b) =~= i16s_le(a) + i16_le(values@[i as int])) by {
                assert forall|k: int| 0 <= k < 2 * (i + 1) implies i16s_le(b)[k] == (i16s_le(a)
                    + i16_le(values@[i as int]))[k] by {
                    if k < 2 * i {
                        assert(k / 2 < i);
                        assert(b[k / 2] == a[k / 2]);
                    } else {
                        assert(k / 2 == i);
                        assert(k % 2 == k - 2 * i);
                    }
                }
            }
            assert(out@ =~= old(out)@ + i16s_le(b));
        }
        i = i + 1;
    }
    assert(values@.take(n as int) =~= values@);
}

/// Reads `count` values stored little-endian from byte `at` on.
pub fn read_i16s_le(data: &[u8], at: usize, count: usize) -> (v: Vec<i16>)
    requires
        at + 2 * count <= data@.len(),
    ensures
        v@ == i16s_from_le(data@, at as int, count as nat),
{
    let mut v: Vec<i16> = Vec::new();
    let len: usize = data.len();
    let mut i: usize = 0;
    while i < count
        invariant
            i <= count,
            len == data@.len(),
            at + 2 * count <= data@.len(),
            v@ == i16s_from_le(data@, at as int, i as nat),
        decreases count - i,
    {
        let x: i16 = read_i16_le(data, at + 2 * i);
        v.push(x);
        i = i + 1;
        assert(v@ =~= i16s_from_le(data@, at as int, i as nat));
    }
    v
}

} // verus!

//! Capture with backpressure.
//!
//! Capture takes a frame buffer from the pool, fills it and puts it on the
//! queue; when the pool is empty the frame is dropped and counted. The
//! writing side takes frames off the queue in the order they were put on,
//! turns them into chunks and hands the buffers back to the pool. Both rings
//! are bounded, so neither side ever waits for the other.

use vstd::prelude::*;
use crate::codec::{is_keyframe, zeros, CodecState, DeltaEncoder};
use crate::format::{end_marker, header_bytes, FORMAT_VERSION};
use crate::frame::{payload_len, FrameData, FrameView, BAND_MICRO};
use crate::queue::{
    queue_capacity, queue_frames, queue_len, queue_new, queue_pop, queue_push, MAX_QUEUE_CAPACITY,
};
use crate::writer::{
    chunks_upto, frame_fits, process_frame, state_before, ArchiveWriter, WriterError,
};

verus! {

/// The most frames the writing side takes off the queue at a time.
pub const BATCH_LIMIT: usize = 10;

/// The largest quantized amplitude or emotion.
pub const LEVEL_MAX: i16 = 32767;

/// How a recorder is set up.
#[derive(Clone, Copy, Debug, PartialEq, Eq, Structural)]
pub struct RecorderConfig {
    /// Oscillators per frame.
    pub oscillator_count: usize,
    /// Emotion dimensions per frame.
    pub emotion_dimensions: usize,
    /// Frames that the queue, and the pool, can hold.
    pub queue_capacity: usize,
    /// Every how many frames a keyframe is stored.
    pub keyframe_interval: u64,
    /// Compression level for whoever compresses the archive.
    pub compression_level: i32,
    /// Every how many frames the staged bytes are to be flushed.
    pub flush_interval: u64,
    /// Every how many micro frames a meso frame is taken; zero for never.
    pub meso_decimation: u64,
    /// Whether macro frames are stored on events only.
    pub macro_event_only: bool,
}

impl RecorderConfig {
    /// Whether a recorder can be made from the configuration: the queue holds
    /// at least one frame and no more than `MAX_QUEUE_CAPACITY`, keyframes
    /// come at a positive interval, and a frame's payload has a length that
    /// fits in 32 bits.
    pub open spec fn valid(&self) -> bool {
        &&& 0 < self.queue_capacity <= MAX_QUEUE_CAPACITY
        &&& self.keyframe_interval > 0
        &&& payload_len(self.oscillator_count as nat, self.emotion_dimensions as nat) <= u32::MAX
    }

    /// Whether a recorder can be made from the configuration.
    pub fn is_valid(&self) -> (ok: bool)
        ensures
            ok == self.valid(),
    {
        let needed: u128 = 2 * (2 * (self.oscillator_count as u128) + (
        self.emotion_dimensions as u128));
        0 < self.queue_capacity && self.queue_capacity <= MAX_QUEUE_CAPACITY
            && self.keyframe_interval > 0 && needed <= u32::MAX as u128
    }
}

impl Default for RecorderConfig {
    /// Fifteen oscillators, eight emotion dimensions, a queue of 256 frames,
    /// a keyframe and a flush every 300 frames.
    fn default() -> (c: Self)
        ensures
            c == (RecorderConfig {
                oscillator_count: 15,
                emotion_dimensions: 8,
                queue_capacity: 256,
                keyframe_interval: 300,
                compression_level: 22,
                flush_interval: 300,
                meso_decimation: 6,
                macro_event_only: true,
            }),
            c.valid(),
    {
        RecorderConfig {
            oscillator_count: 15,
            emotion_dimensions: 8,
            queue_capacity: 256,
            keyframe_interval: 300,
            compression_level: 22,
            flush_interval: 300,
            meso_decimation: 6,
            macro_event_only: true,
        }
    }
}

/// Counters of a recording.
#[derive(Clone, Copy, Debug, PartialEq, Eq, Structural)]
pub struct RecorderStats {
    /// Frames put on the queue.
    pub frames_captured: u64,
    /// Frames written as chunks.
    pub frames_processed: u64,
    /// Frames dropped for want of a buffer.
    pub frames_dropped: u64,
    /// The longest capture, in microseconds.
    pub max_capture_time_us: u64,
    /// The longest processing of a frame, in microseconds.
    pub max_processing_time_us: u64,
    /// Bytes before compression.
    pub raw_bytes: u64,
    /// Bytes after compression.
    pub compressed_bytes: u64,
    /// Keyframes captured.
    pub keyframes: u64,
}

impl RecorderStats {
    /// All counters at zero.
    pub open spec fn zero() -> RecorderStats {
        RecorderStats {
            frames_captured: 0,
            frames_processed: 0,
            frames_dropped: 0,
            max_capture_time_us: 0,
            max_processing_time_us: 0,
            raw_bytes: 0,
            compressed_bytes: 0,
            keyframes: 0,
        }
    }
}

impl Default for RecorderStats {
    fn default() -> (s: Self)
        ensures
            s == RecorderStats::zero(),
    {
        RecorderStats {
            frames_captured: 0,
            frames_processed: 0,
            frames_dropped: 0,
            max_capture_time_us: 0,
            max_processing_time_us: 0,
            raw_bytes: 0,
            compressed_bytes: 0,
            keyframes: 0,
        }
    }
}

/// Why a recorder refuses.
#[derive(Clone, Copy, Debug, PartialEq, Eq, Structural)]
pub enum RecorderError {
    /// A recording is already under way.
    AlreadyRecording,
}

/// What one batch of the writing side did.
#[derive(Clone, Copy, Debug, PartialEq, Eq, Structural)]
pub struct BatchOutcome {
    /// Frames taken off the queue and written.
    pub processed: usize,
    /// Whether the staged bytes are due to be flushed.
    pub flush_due: bool,
}

/// `x + 1`, held at the largest 64-bit number.
pub open spec fn bump(x: u64) -> u64 {
    if x == u64::MAX {
        x
    } else {
        (x + 1) as u64
    }
}

/// `x + n`, held at the largest 64-bit number.
pub open spec fn bump_by(x: u64, n: nat) -> u64 {
    if x + n > u64::MAX {
        u64::MAX
    } else {
        (x + n) as u64
    }
}

/// A quantized level brought into `0 ..= LEVEL_MAX`.
pub open spec fn clamp_level(x: i16) -> i16 {
    if x < 0 {
        0
    } else {
        x
    }
}

/// Whether every level lies in `0 ..= LEVEL_MAX`.
pub open spec fn levels_in_range(s: Seq<i16>) -> bool {
    forall|i: int| 0 <= i < s.len() ==> 0 <= #[trigger] s[i] <= LEVEL_MAX
}

/// The first `n` of `values`, zeros where there are fewer.
pub open spec fn fitted(values: Seq<i16>, n: nat) -> Seq<i16> {
    Seq::new(
        n,
        |i: int|
            if i < values.len() {
                values[i]
            } else {
                0i16
            },
    )
}

/// The first `n` of `values`, each brought into the range of levels, zeros
/// where there are fewer.
pub open spec fn fitted_levels(values: Seq<i16>, n: nat) -> Seq<i16> {
    Seq::new(
        n,
        |i: int|
            if i < values.len() {
                clamp_level(values[i])
            } else {
                0i16
            },
    )
}

/// The frame that a capture puts on the queue.
pub open spec fn captured_frame(
    config: RecorderConfig,
    timestamp_ms: u64,
    frame_index: u64,
    phases: Seq<i16>,
    amplitudes: Seq<i16>,
    emotions: Seq<i16>,
) -> FrameView {
    FrameView {
        timestamp_ms,
        frame_index,
        phases: fitted(phases, config.oscillator_count as nat),
        amplitudes: fitted_levels(amplitudes, config.oscillator_count as nat),
        emotions: fitted_levels(emotions, config.emotion_dimensions as nat),
        is_keyframe: frame_index % config.keyframe_interval == 0,
        band: BAND_MICRO,
        processed: false,
    }
}

/// The frames counted since the last flush, after `n` more frames.
pub open spec fn since_flush_after(since: nat, interval: nat, n: nat) -> nat
    decreases n,
{
    if n == 0 {
        since
    } else if since_flush_after(since, interval, (n - 1) as nat) + 1 >= interval {
        0
    } else {
        since_flush_after(since, interval, (n - 1) as nat) + 1
    }
}

/// Whether one of `n` more frames makes a flush due.
pub open spec fn flush_within(since: nat, interval: nat, n: nat) -> bool
    decreases n,
{
    if n == 0 {
        false
    } else {
        flush_within(since, interval, (n - 1) as nat) || since_flush_after(
            since,
            interval,
            (n - 1) as nat,
        ) + 1 >= interval
    }
}

/// Whether a frame may stand on the queue: a micro frame of the configured
/// sizes whose levels are in range.
pub open spec fn queue_frame_ok(f: FrameView, config: RecorderConfig) -> bool {
    &&& f.has_shape(config.oscillator_count as nat, config.emotion_dimensions as nat)
    &&& f.band == BAND_MICRO
    &&& levels_in_range(f.amplitudes)
    &&& levels_in_range(f.emotions)
}

fn fill_phases(dst: &mut Vec<i16>, src: &[i16])
    requires
        old(dst)@ == zeros(old(dst)@.len()),
    ensures
        final(dst)@ == fitted(src@, old(dst)@.len()),
{
    let n: usize = if src.len() < dst.len() {
        src.len()
    } else {
        dst.len()
    };
    let mut i: usize = 0;
    while i < n
        invariant
            i <= n,
            n <= src@.len(),
            n <= dst@.len(),
            n == src@.len() || n == dst@.len(),
            dst@.len() == old(dst)@.len(),
            forall|j: int| 0 <= j < i ==> dst@[j] == src@[j],
            forall|j: int| i <= j < dst@.len() ==> dst@[j] == 0,
        decreases n - i,
    {
        dst[i] = src[i];
        i = i + 1;
    }
    assert(dst@ =~= fitted(src@, old(dst)@.len()));
}

fn fill_levels(dst: &mut Vec<i16>, src: &[i16])
    requires
        old(dst)@ == zeros(old(dst)@.len()),
    ensures
        final(dst)@ == fitted_levels(src@, old(dst)@.len()),
        levels_in_range(final(dst)@),
{
    let n: usize = if src.len() < dst.len() {
        src.len()
    } else {
        dst.len()
    };
    let mut i: usize = 0;
    while i < n
        invariant
            i <= n,
            n <= src@.len(),
            n <= dst@.len(),
            n == src@.len() || n == dst@.len(),
            dst@.len() == old(dst)@.len(),
            forall|j: int| 0 <= j < i ==> dst@[j] == clamp_level(src@[j]),
            forall|j: int| i <= j < dst@.len() ==> dst@[j] == 0,
        decreases n - i,
    {
        let x: i16 = src[i];
        dst[i] = if x < 0 {
            0
        } else {
            x
        };
        i = i + 1;
    }
    assert(dst@ =~= fitted_levels(src@, old(dst)@.len()));
}

/// Captures frames and turns them into the bytes of an archive.
pub struct PsiRecorder {
    config: RecorderConfig,
    frame_queue: crossbeam_queue::ArrayQueue<FrameData>,
    frame_pool: crossbeam_queue::ArrayQueue<FrameData>,
    is_recording: bool,
    current_frame: u64,
    stats: RecorderStats,
    delta_encoder: DeltaEncoder,
    writer: ArchiveWriter,
    frames_since_flush: u64,
}

impl PsiRecorder {
    /// The configuration the recorder was made with.
    pub closed spec fn config(&self) -> RecorderConfig {
        self.config
    }

    /// The frames on the queue, the next to be written first.
    pub closed spec fn queued(&self) -> Seq<FrameView> {
        queue_frames(self.frame_queue)
    }

    /// The number of free frame buffers.
    pub closed spec fn pooled(&self) -> nat {
        queue_frames(self.frame_pool).len()
    }

    /// Whether a recording is under way.
    pub closed spec fn recording(&self) -> bool {
        self.is_recording
    }

    /// The index that the next captured frame gets.
    pub closed spec fn next_index(&self) -> u64 {
        self.current_frame
    }

    /// The counters.
    pub closed spec fn counters(&self) -> RecorderStats {
        self.stats
    }

    /// What the encoder remembers.
    pub closed spec fn encoder_state(&self) -> CodecState {
        self.delta_encoder@
    }

    /// Every byte staged since the recording started.
    pub closed spec fn stream(&self) -> Seq<u8> {
        self.writer.stream()
    }

    /// The staged bytes that nobody has taken yet.
    pub closed spec fn pending(&self) -> Seq<u8> {
        self.writer.pending()
    }

    /// Whether the archive has been begun and not yet finished.
    pub closed spec fn archive_open(&self) -> bool {
        self.writer.is_started()
    }

    /// Frames written since the last flush was due.
    pub closed spec fn since_flush(&self) -> nat {
        self.frames_since_flush as nat
    }

    /// The recorder's invariant: queue and pool share the buffers made at the
    /// start, every queued frame can be written, and the encoder can take it.
    pub closed spec fn wf(&self) -> bool {
        &&& self.config.valid()
        &&& queue_capacity(self.frame_queue) == self.config.queue_capacity
        &&& queue_capacity(self.frame_pool) == self.config.queue_capacity
        &&& queue_frames(self.frame_queue).len() + queue_frames(self.frame_pool).len()
            == self.config.queue_capacity
        &&& forall|i: int|
            0 <= i < queue_frames(self.frame_queue).len() ==> queue_frame_ok(
                #[trigger] queue_frames(self.frame_queue)[i],
                self.config,
            )
        &&& forall|i: int|
            0 <= i < queue_frames(self.frame_pool).len() ==> (#[trigger] queue_frames(
                self.frame_pool,
            )[i]).has_shape(
                self.config.oscillator_count as nat,
                self.config.emotion_dimensions as nat,
            )
        &&& self.delta_encoder@.phases.len() == self.config.oscillator_count
        &&& self.delta_encoder@.amplitudes.len() == self.config.oscillator_count
        &&& self.delta_encoder@.emotions.len() == self.config.emotion_dimensions
        &&& levels_in_range(self.delta_encoder@.amplitudes)
        &&& levels_in_range(self.delta_encoder@.emotions)
        &&& self.frames_since_flush < u64::MAX
        &&& !self.writer.is_started() ==> queue_frames(self.frame_queue).len() == 0
        &&& self.is_recording ==> self.writer.is_started()
    }

    /// A recorder with an empty queue and a full pool, not recording.
    pub fn new(config: RecorderConfig) -> (r: Self)
        requires
            config.valid(),
        ensures
            r.wf(),
            r.config() == config,
            r.queued() == Seq::<FrameView>::empty(),
            r.pooled() == config.queue_capacity,
            !r.recording(),
            !r.archive_open(),
            r.next_index() == 0,
            r.counters() == RecorderStats::zero(),
            r.encoder_state() == CodecState::blank(
                config.oscillator_count as nat,
                config.emotion_dimensions as nat,
            ),
            r.since_flush() == 0,
    {
        let frame_queue = queue_new(config.queue_capacity);
        let mut frame_pool = queue_new(config.queue_capacity);
        let mut made: usize = 0;
        while made < config.queue_capacity
            invariant
                made <= config.queue_capacity,
                queue_capacity(frame_pool) == config.queue_capacity,
                queue_frames(frame_pool).len() == made,
                forall|i: int|
                    0 <= i < queue_frames(frame_pool).len() ==> (#[trigger] queue_frames(
                        frame_pool,
                    )[i]).has_shape(
                        config.oscillator_count as nat,
                        config.emotion_dimensions as nat,
                    ),
            decreases config.queue_capacity - made,
        {
            let frame = FrameData::new(config.oscillator_count, config.emotion_dimensions);
            let ghost before = queue_frames(frame_pool);
            let pushed = queue_push(&mut frame_pool, frame);
            assert(pushed is Ok);
            assert forall|i: int| 0 <= i < queue_frames(frame_pool).len() implies (
            #[trigger] queue_frames(frame_pool)[i]).has_shape(
                config.oscillator_count as nat,
                config.emotion_dimensions as nat,
            ) by {
                if i < before.len() {
                    assert(queue_frames(frame_pool)[i] == before[i]);
                }
            }
            made = made + 1;
        }
        let delta_encoder = DeltaEncoder::new(config.oscillator_count, config.emotion_dimensions);
        PsiRecorder {
            config,
            frame_queue,
            frame_pool,
            is_recording: false,
            current_frame: 0,
            stats: RecorderStats::default(),
            delta_encoder,
            writer: ArchiveWriter::new(),
            frames_since_flush: 0,
        }
    }

    /// Whether a recording is under way.
    pub fn is_recording(&self) -> (b: bool)
        ensures
            b == self.recording(),
    {
        self.is_recording
    }

    /// The counters.
    pub fn stats(&self) -> (s: RecorderStats)
        ensures
            s == self.counters(),
    {
        self.stats
    }

    /// The number of frames on the queue.
    pub fn queue_len(&self) -> (n: usize)
        ensures
            n == self.queued().len(),
    {
        queue_len(&self.frame_queue)
    }

    /// Whether the writing side has anything left to do: a recording is under
    /// way, or frames are still on the queue.
    pub fn has_work(&self) -> (b: bool)
        ensures
            b == (self.recording() || self.queued().len() > 0),
    {
        self.is_recording || queue_len(&self.frame_queue) > 0
    }

    /// Begins a recording whose archive starts at `start_time_ms`.
    ///
    /// Refuses, and changes nothing, while a recording is under way. Else the
    /// counters, the frame index and the encoder start afresh, frames left on
    /// the queue go back to the pool, and the archive begins with its header.
    pub fn start_recording(&mut self, start_time_ms: u64) -> (r: Result<(), RecorderError>)
        requires
            old(self).wf(),
        ensures
            final(self).wf(),
            final(self).config() == old(self).config(),
            r is Err <==> old(self).recording(),
            r is Err ==> *final(self) == *old(self),
            r is Ok ==> {
                &&& final(self).recording()
                &&& final(self).archive_open()
                &&& final(self).queued() == Seq::<FrameView>::empty()
                &&& final(self).pooled() == old(self).config().queue_capacity
                &&& final(self).next_index() == 0
                &&& final(self).counters() == RecorderStats::zero()
                &&& final(self).encoder_state() == CodecState::blank(
                    old(self).config().oscillator_count as nat,
                    old(self).config().emotion_dimensions as nat,
                )
                &&& final(self).stream() == header_bytes(FORMAT_VERSION, start_time_ms)
                &&& final(self).pending() == final(self).stream()
                &&& final(self).since_flush() == 0
            },
    {
        if self.is_recording {
            return Err(RecorderError::AlreadyRecording);
        }
        self.current_frame = 0;
        self.stats = RecorderStats::default();
        self.delta_encoder.reset();
        self.frames_since_flush = 0;
        loop
            invariant
                self.config == old(self).config,
                self.config.valid(),
                queue_capacity(self.frame_queue) == self.config.queue_capacity,
                queue_capacity(self.frame_pool) == self.config.queue_capacity,
                queue_frames(self.frame_queue).len() + queue_frames(self.frame_pool).len()
                    == self.config.queue_capacity,
                forall|i: int|
                    0 <= i < queue_frames(self.frame_queue).len() ==> queue_frame_ok(
                        #[trigger] queue_frames(self.frame_queue)[i],
                        self.config,
                    ),
                forall|i: int|
                    0 <= i < queue_frames(self.frame_pool).len() ==> (#[trigger] queue_frames(
                        self.frame_pool,
                    )[i]).has_shape(
                        self.config.oscillator_count as nat,
                        self.config.emotion_dimensions as nat,
                    ),
                self.delta_encoder@.phases == zeros(self.config.oscillator_count as nat),
                self.delta_encoder@.amplitudes == zeros(self.config.oscillator_count as nat),
                self.delta_encoder@.emotions == zeros(self.config.emotion_dimensions as nat),
                self.frames_since_flush == 0,
                self.current_frame == 0,
                self.stats == RecorderStats::zero(),
                !self.is_recording,
            ensures
                queue_frames(self.frame_queue).len() == 0,
            decreases queue_frames(self.frame_queue).len(),
        {
            let ghost queue_before = queue_frames(self.frame_queue);
            let ghost pool_before = queue_frames(self.frame_pool);
            match queue_pop(&mut self.frame_queue) {
                Some(frame) => {
                    assert(queue_frame_ok(queue_before[0], self.config));
                    let _ = queue_push(&mut self.frame_pool, frame);
                    assert forall|i: int|
                        0 <= i < queue_frames(self.frame_queue).len() implies queue_frame_ok(
                        #[trigger] queue_frames(self.frame_queue)[i],
                        self.config,
                    ) by {
                        assert(queue_frames(self.frame_queue)[i] == queue_before[i + 1]);
                    }
                    assert forall|i: int| 0 <= i < queue_frames(self.frame_pool).len() implies (
                    #[trigger] queue_frames(self.frame_pool)[i]).has_shape(
                        self.config.oscillator_count as nat,
                        self.config.emotion_dimensions as nat,
                    ) by {
                        if i < pool_before.len() {
                            assert(queue_frames(self.frame_pool)[i] == pool_before[i]);
                        }
                    }
                },
                None => {
                    break;
                },
            }
        }
        self.is_recording = true;
        self.writer.start(start_time_ms);
        assert(queue_frames(self.frame_queue) =~= Seq::<FrameView>::empty());
        assert(self.delta_encoder@ == CodecState::blank(
            self.config.oscillator_count as nat,
            self.config.emotion_dimensions as nat,
        ));
        Ok(())
    }

    /// Ends capture: frames offered from now on are refused. What is on the
    /// queue stays there for the writing side.
    pub fn stop_recording(&mut self)
        requires
            old(self).wf(),
        ensures
            final(self).wf(),
            !final(self).recording(),
            final(self).config() == old(self).config(),
            final(self).queued() == old(self).queued(),
            final(self).pooled() == old(self).pooled(),
            final(self).next_index() == old(self).next_index(),
            final(self).counters() == old(self).counters(),
            final(self).encoder_state() == old(self).encoder_state(),
            final(self).stream() == old(self).stream(),
            final(self).pending() == old(self).pending(),
            final(self).archive_open() == old(self).archive_open(),
            final(self).since_flush() == old(self).since_flush(),
    {
        self.is_recording = false;
    }

    /// Offers one frame of quantized state, taken at `timestamp_ms`.
    ///
    /// Outside a recording the frame is refused and nothing changes. In a
    /// recording the frame takes the next index, whether or not it is
    /// accepted. It is accepted, and goes to the back of the queue as
    /// `captured_frame`, exactly when the pool has a free buffer; else it is
    /// dropped and counted as dropped.
    pub fn capture_frame(
        &mut self,
        timestamp_ms: u64,
        phases: &[i16],
        amplitudes: &[i16],
        emotions: &[i16],
    ) -> (accepted: bool)
        requires
            old(self).wf(),
        ensures
            final(self).wf(),
            final(self).config() == old(self).config(),
            final(self).recording() == old(self).recording(),
            final(self).encoder_state() == old(self).encoder_state(),
            final(self).stream() == old(self).stream(),
            final(self).pending() == old(self).pending(),
            final(self).archive_open() == old(self).archive_open(),
            final(self).since_flush() == old(self).since_flush(),
            accepted == (old(self).recording() && old(self).pooled() > 0),
            !old(self).recording() ==> *final(self) == *old(self),
            old(self).recording() ==> final(self).next_index() == bump(old(self).next_index()),
            old(self).recording() && !accepted ==> {
                &&& final(self).queued() == old(self).queued()
                &&& final(self).pooled() == old(self).pooled()
                &&& final(self).counters() == (RecorderStats {
                    frames_dropped: bump(old(self).counters().frames_dropped),
                    ..old(self).counters()
                })
            },
            accepted ==> {
                let frame = captured_frame(
                    old(self).config(),
                    timestamp_ms,
                    old(self).next_index(),
                    phases@,
                    amplitudes@,
                    emotions@,
                );
                &&& final(self).queued() == old(self).queued().push(frame)
                &&& final(self).pooled() == old(self).pooled() - 1
                &&& final(self).counters() == (RecorderStats {
                    frames_captured: bump(old(self).counters().frames_captured),
                    keyframes: if frame.is_keyframe {
                        bump(old(self).counters().keyframes)
                    } else {
                        old(self).counters().keyframes
                    },
                    ..old(self).counters()
                })
            },
    {
        if !self.is_recording {
            return false;
        }
        let frame_index: u64 = self.current_frame;
        if self.current_frame < u64::MAX {
            self.current_frame = self.current_frame + 1;
        }
        let keyframe: bool = is_keyframe(frame_index, self.config.keyframe_interval);
        let ghost queue_before = queue_frames(self.frame_queue);
        let ghost pool_before = queue_frames(self.frame_pool);
        match queue_pop(&mut self.frame_pool) {
            Some(mut frame) => {
                assert(pool_before[0].has_shape(
                    self.config.oscillator_count as nat,
                    self.config.emotion_dimensions as nat,
                ));
                frame.reset();
                frame.timestamp_ms = timestamp_ms;
                frame.frame_index = frame_index;
                frame.is_keyframe = keyframe;
                frame.band = BAND_MICRO;
                fill_phases(&mut frame.phases, phases);
                fill_levels(&mut frame.amplitudes, amplitudes);
                fill_levels(&mut frame.emotions, emotions);
                assert(frame@ == captured_frame(
                    self.config,
                    timestamp_ms,
                    frame_index,
                    phases@,
                    amplitudes@,
                    emotions@,
                ));
                let pushed = queue_push(&mut self.frame_queue, frame);
                assert(pushed is Ok);
                assert forall|i: int|
                    0 <= i < queue_frames(self.frame_queue).len() implies queue_frame_ok(
                    #[trigger] queue_frames(self.frame_queue)[i],
                    self.config,
                ) by {
                    if i < queue_before.len() {
                        assert(queue_frames(self.frame_queue)[i] == queue_before[i]);
                    }
                }
                assert forall|i: int| 0 <= i < queue_frames(self.frame_pool).len() implies (
                #[trigger] queue_frames(self.frame_pool)[i]).has_shape(
                    self.config.oscillator_count as nat,
                    self.config.emotion_dimensions as nat,
                ) by {
                    assert(queue_frames(self.frame_pool)[i] == pool_before[i + 1]);
                }
                if self.stats.frames_captured < u64::MAX {
                    self.stats.frames_captured = self.stats.frames_captured + 1;
                }
                if keyframe && self.stats.keyframes < u64::MAX {
                    self.stats.keyframes = self.stats.keyframes + 1;
                }
                true
            },
            None => {
                if self.stats.frames_dropped < u64::MAX {
                    self.stats.frames_dropped = self.stats.frames_dropped + 1;
                }
                false
            },
        }
    }

    /// Notes how long a capture took.
    pub fn record_capture_time(&mut self, micros: u64)
        requires
            old(self).wf(),
        ensures
            final(self).wf(),
            final(self).counters() == (RecorderStats {
                max_capture_time_us: if micros > old(self).counters().max_capture_time_us {
                    micros
                } else {
                    old(self).counters().max_capture_time_us
                },
                ..old(self).counters()
            }),
            final(self).config() == old(self).config(),
            final(self).queued() == old(self).queued(),
            final(self).pooled() == old(self).pooled(),
            final(self).recording() == old(self).recording(),
            final(self).next_index() == old(self).next_index(),
            final(self).encoder_state() == old(self).encoder_state(),
            final(self).stream() == old(self).stream(),
            final(self).pending() == old(self).pending(),
            final(self).archive_open() == old(self).archive_open(),
            final(self).since_flush() == old(self).since_flush(),
    {
        if micros > self.stats.max_capture_time_us {
            self.stats.max_capture_time_us = micros;
        }
    }

    /// Notes how long the processing of a frame took.
    pub fn record_processing_time(&mut self, micros: u64)
        requires
            old(self).wf(),
        ensures
            final(self).wf(),
            final(self).counters() == (RecorderStats {
                max_processing_time_us: if micros > old(self).counters().max_processing_time_us {
                    micros
                } else {
                    old(self).counters().max_processing_time_us
                },
                ..old(self).counters()
            }),
            final(self).config() == old(self).config(),
            final(self).queued() == old(self).queued(),
            final(self).pooled() == old(self).pooled(),
            final(self).recording() == old(self).recording(),
            final(self).next_index() == old(self).next_index(),
            final(self).encoder_state() == old(self).encoder_state(),
            final(self).stream() == old(self).stream(),
            final(self).pending() == old(self).pending(),
            final(self).archive_open() == old(self).archive_open(),
            final(self).since_flush() == old(self).since_flush(),
    {
        if micros > self.stats.max_processing_time_us {
            self.stats.max_processing_time_us = micros;
        }
    }

    /// Writes up to `limit` frames from the front of the queue.
    fn process_some(&mut self, limit: usize) -> (outcome: BatchOutcome)
        requires
            old(self).wf(),
        ensures
            final(self).wf(),
            final(self).config() == old(self).config(),
            final(self).recording() == old(self).recording(),
            final(self).next_index() == old(self).next_index(),
            final(self).archive_open() == old(self).archive_open(),
            outcome.processed == (if old(self).queued().len() < limit {
                old(self).queued().len()
            } else {
                limit as nat
            }),
            final(self).queued() == old(self).queued().skip(outcome.processed as int),
            final(self).pooled() == old(self).pooled() + outcome.processed,
            final(self).stream() == old(self).stream() + chunks_upto(
                old(self).encoder_state(),
                old(self).queued(),
                outcome.processed as int,
            ),
            final(self).pending() == old(self).pending() + chunks_upto(
                old(self).encoder_state(),
                old(self).queued(),
                outcome.processed as int,
            ),
            final(self).encoder_state() == state_before(
                old(self).encoder_state(),
                old(self).queued(),
                outcome.processed as int,
            ),
            outcome.flush_due == flush_within(
                old(self).since_flush(),
                old(self).config().flush_interval as nat,
                outcome.processed as nat,
            ),
            final(self).since_flush() == since_flush_after(
                old(self).since_flush(),
                old(self).config().flush_interval as nat,
                outcome.processed as nat,
            ),
            final(self).counters() == (RecorderStats {
                frames_processed: bump_by(
                    old(self).counters().frames_processed,
                    outcome.processed as nat,
                ),
                ..old(self).counters()
            }),
    {
        let mut processed: usize = 0;
        let mut flush_due: bool = false;
        let ghost frames = queue_frames(self.frame_queue);
        let ghost start = self.delta_encoder@;
        proof {
            assert(frames.skip(0) =~= frames);
            assert(self.writer.stream() + Seq::<u8>::empty() =~= self.writer.stream());
            assert(self.writer.pending() + Seq::<u8>::empty() =~= self.writer.pending());
        }
        while processed < limit
            invariant
                self.wf(),
                processed <= limit,
                processed <= frames.len(),
                self.config == old(self).config,
                self.is_recording == old(self).is_recording,
                self.current_frame == old(self).current_frame,
                self.writer.is_started() == old(self).writer.is_started(),
                frames == queue_frames(old(self).frame_queue),
                start == old(self).delta_encoder@,
                queue_frames(self.frame_queue) == frames.skip(processed as int),
                queue_frames(self.frame_pool).len() == queue_frames(old(self).frame_pool).len()
                    + processed,
                self.writer.stream() == old(self).writer.stream() + chunks_upto(
                    start,
                    frames,
                    processed as int,
                ),
                self.writer.pending() == old(self).writer.pending() + chunks_upto(
                    start,
                    frames,
                    processed as int,
                ),
                self.delta_encoder@ == state_before(start, frames, processed as int),
                flush_due == flush_within(
                    old(self).frames_since_flush as nat,
                    self.config.flush_interval as nat,
                    processed as nat,
                ),
                self.frames_since_flush == since_flush_after(
                    old(self).frames_since_flush as nat,
                    self.config.flush_interval as nat,
                    processed as nat,
                ),
                self.stats == (RecorderStats {
                    frames_processed: bump_by(old(self).stats.frames_processed, processed as nat),
                    ..old(self).stats
                }),
            ensures
                processed == (if frames.len() < limit {
                    frames.len()
                } else {
                    limit as nat
                }),
            decreases limit - processed,
        {
            let ghost queue_before = queue_frames(self.frame_queue);
            let ghost pool_before = queue_frames(self.frame_pool);
            let ghost stream_before = self.writer.stream();
            let ghost pending_before = self.writer.pending();
            let frame: FrameData = match queue_pop(&mut self.frame_queue) {
                Some(frame) => frame,
                None => {
                    break;
                },
            };
            proof {
                assert(queue_before[0] == frames[processed as int]);
                assert(queue_frame_ok(queue_before[0], self.config));
                assert(frame@ == frames[processed as int]);
                assert(frame_fits(self.delta_encoder@, frame@));
            }
            let mut index: u64 = self.frames_since_flush;
            let mut last: u64 = 0;
            let flushed: bool = match process_frame(
                &mut self.writer,
                &frame,
                &mut self.delta_encoder,
                self.config.flush_interval,
                &mut index,
                &mut last,
            ) {
                Ok(flushed) => flushed,
                Err(_) => false,
            };
            self.frames_since_flush = index - last;
            if flushed {
                flush_due = true;
            }
            if self.stats.frames_processed < u64::MAX {
                self.stats.frames_processed = self.stats.frames_processed + 1;
            }
            let _ = queue_push(&mut self.frame_pool, frame);
            proof {
                assert(queue_frames(self.frame_queue) =~= frames.skip(processed + 1));
                assert forall|i: int|
                    0 <= i < queue_frames(self.frame_queue).len() implies queue_frame_ok(
                    #[trigger] queue_frames(self.frame_queue)[i],
                    self.config,
                ) by {
                    assert(queue_frames(self.frame_queue)[i] == queue_before[i + 1]);
                }
                assert forall|i: int| 0 <= i < queue_frames(self.frame_pool).len() implies (
                #[trigger] queue_frames(self.frame_pool)[i]).has_shape(
                    self.config.oscillator_count as nat,
                    self.config.emotion_dimensions as nat,
                ) by {
                    if i < pool_before.len() {
                        assert(queue_frames(self.frame_pool)[i] == pool_before[i]);
                    }
                }
                assert(self.writer.stream() =~= old(self).writer.stream() + chunks_upto(
                    start,
                    frames,
                    processed + 1,
                ));
                assert(self.writer.pending() =~= old(self).writer.pending() + chunks_upto(
                    start,
                    frames,
                    processed + 1,
                ));
            }
            processed = processed + 1;
        }
        BatchOutcome { processed, flush_due }
    }

    /// Writes a batch: up to `BATCH_LIMIT` frames from the front of the queue,
    /// in order, each as `frame_chunk` says, and hands their buffers back to
    /// the pool.
    pub fn process_batch(&mut self) -> (outcome: BatchOutcome)
        requires
            old(self).wf(),
        ensures
            final(self).wf(),
            final(self).config() == old(self).config(),
            final(self).recording() == old(self).recording(),
            final(self).next_index() == old(self).next_index(),
            final(self).archive_open() == old(self).archive_open(),
            outcome.processed == (if old(self).queued().len() < BATCH_LIMIT {
                old(self).queued().len()
            } else {
                BATCH_LIMIT as nat
            }),
            final(self).queued() == old(self).queued().skip(outcome.processed as int),
            final(self).pooled() == old(self).pooled() + outcome.processed,
            final(self).stream() == old(self).stream() + chunks_upto(
                old(self).encoder_state(),
                old(self).queued(),
                outcome.processed as int,
            ),
            final(self).pending() == old(self).pending() + chunks_upto(
                old(self).encoder_state(),
                old(self).queued(),
                outcome.processed as int,
            ),
            final(self).encoder_state() == state_before(
                old(self).encoder_state(),
                old(self).queued(),
                outcome.processed as int,
            ),
            outcome.flush_due == flush_within(
                old(self).since_flush(),
                old(self).config().flush_interval as nat,
                outcome.processed as nat,
            ),
            final(self).since_flush() == since_flush_after(
                old(self).since_flush(),
                old(self).config().flush_interval as nat,
                outcome.processed as nat,
            ),
            final(self).counters() == (RecorderStats {
                frames_processed: bump_by(
                    old(self).counters().frames_processed,
                    outcome.processed as nat,
                ),
                ..old(self).counters()
            }),
    {
        self.process_some(BATCH_LIMIT)
    }

    /// Hands over the staged bytes, to be written out in this order.
    pub fn take_pending(&mut self) -> (bytes: Vec<u8>)
        requires
            old(self).wf(),
        ensures
            final(self).wf(),
            bytes@ == old(self).pending(),
            final(self).pending() == Seq::<u8>::empty(),
            final(self).stream() == old(self).stream(),
            final(self).config() == old(self).config(),
            final(self).queued() == old(self).queued(),
            final(self).pooled() == old(self).pooled(),
            final(self).recording() == old(self).recording(),
            final(self).next_index() == old(self).next_index(),
            final(self).counters() == old(self).counters(),
            final(self).encoder_state() == old(self).encoder_state(),
            final(self).archive_open() == old(self).archive_open(),
            final(self).since_flush() == old(self).since_flush(),
    {
        self.writer.take_pending()
    }

    /// Ends the recording and the archive.
    ///
    /// Capture stops, every frame still on the queue is written, and the
    /// staged bytes come back with the end marker last. Refuses when no
    /// archive has been begun; capture stops all the same.
    pub fn finish(&mut self) -> (r: Result<Vec<u8>, WriterError>)
        requires
            old(self).wf(),
        ensures
            final(self).wf(),
            final(self).config() == old(self).config(),
            !final(self).recording(),
            !final(self).archive_open(),
            final(self).queued() == Seq::<FrameView>::empty(),
            final(self).pooled() == old(self).config().queue_capacity,
            r is Err <==> !old(self).archive_open(),
            r is Err ==> r == Err::<Vec<u8>, WriterError>(WriterError::NotStarted),
            r is Ok ==> r->Ok_0@ == old(self).pending() + chunks_upto(
                old(self).encoder_state(),
                old(self).queued(),
                old(self).queued().len() as int,
            ) + end_marker(),
    {
        self.is_recording = false;
        let waiting: usize = queue_len(&self.frame_queue);
        let outcome = self.process_some(waiting);
        assert(self.queued() =~= Seq::<FrameView>::empty());
        let mut writer = ArchiveWriter::new();
        std::mem::swap(&mut writer, &mut self.writer);
        writer.finish()
    }
}

} // verus!

//! Playback: a cursor over an archive with a buffer of frames read ahead.
//!
//! The player keeps no clock. Whoever drives it measures the time, works out
//! how many frames are due, and hands the frames that `update` delivers to
//! its callback.

use std::collections::VecDeque;
use vstd::prelude::*;
use crate::format::ReaderError;
use crate::frame::{FrameData, FrameView};
use crate::reader::ArchiveReader;

verus! {

/// Frames read ahead unless configured otherwise: one second at 60 frames
/// per second.
pub const DEFAULT_BUFFER_SIZE: usize = 60;

/// Where playback stands.
#[derive(Clone, Copy, Debug, PartialEq, Eq, Structural)]
pub struct PlaybackStats {
    /// The frame to be delivered next.
    pub position: u64,
    /// Whether playback is running.
    pub playing: bool,
    /// Frames read ahead.
    pub buffer_size: usize,
}

/// Plays the frames of an archive in order.
pub struct PsiPlayer {
    reader: ArchiveReader,
    position: u64,
    playing: bool,
    frame_buffer: VecDeque<FrameData>,
    max_buffer_size: usize,
}

impl PsiPlayer {
    /// The frame that the archive holds at `index`, or why it holds none.
    pub closed spec fn frame(&self, index: u64) -> Result<FrameView, ReaderError> {
        self.reader.frame(index)
    }

    /// The number of frames in the archive.
    pub closed spec fn frame_total(&self) -> u64 {
        self.reader.frame_total()
    }

    /// The frame to be delivered next.
    pub closed spec fn position(&self) -> u64 {
        self.position
    }

    /// Whether playback is running.
    pub closed spec fn playing(&self) -> bool {
        self.playing
    }

    /// The frames read ahead, the next to be delivered first.
    pub closed spec fn buffered(&self) -> Seq<FrameView> {
        Seq::new(self.frame_buffer@.len(), |k: int| self.frame_buffer@[k]@)
    }

    /// The most frames read ahead.
    pub closed spec fn buffer_limit(&self) -> usize {
        self.max_buffer_size
    }

    /// The player's invariant: the buffer holds, in order, the frames that
    /// the archive has from the cursor on, and no more than its limit.
    pub closed spec fn wf(&self) -> bool {
        &&& self.reader.wf()
        &&& self.max_buffer_size > 0
        &&& self.frame_buffer@.len() <= self.max_buffer_size
        &&& self.position + self.frame_buffer@.len() <= self.reader.frame_total()
        &&& forall|k: int|
            0 <= k < self.frame_buffer@.len() ==> self.reader.frame((self.position + k) as u64)
                == Ok::<FrameView, ReaderError>(#[trigger] self.frame_buffer@[k]@)
    }

    /// Whether two players play the same archive.
    pub closed spec fn same_archive(&self, other: &Self) -> bool {
        &&& self.reader.data() == other.reader.data()
        &&& self.reader.chunks() == other.reader.chunks()
        &&& self.reader.header() == other.reader.header()
        &&& self.reader.oscillators() == other.reader.oscillators()
        &&& self.reader.emotions() == other.reader.emotions()
        &&& self.max_buffer_size == other.max_buffer_size
    }

    /// Players of the same archive agree on its frames.
    pub proof fn lemma_same_archive(&self, other: &Self)
        requires
            self.same_archive(other),
        ensures
            self.frame_total() == other.frame_total(),
            self.buffer_limit() == other.buffer_limit(),
            forall|i: u64| self.frame(i) == other.frame(i),
    {
    }

    /// A player at the start of the archive, paused, with nothing read ahead.
    pub fn new(reader: ArchiveReader) -> (p: Self)
        requires
            reader.wf(),
        ensures
            p.wf(),
            p.position() == 0,
            !p.playing(),
            p.buffered() == Seq::<FrameView>::empty(),
            p.buffer_limit() == DEFAULT_BUFFER_SIZE,
            p.frame_total() == reader.frame_total(),
            forall|i: u64| p.frame(i) == reader.frame(i),
    {
        let p = PsiPlayer {
            reader,
            position: 0,
            playing: false,
            frame_buffer: VecDeque::new(),
            max_buffer_size: DEFAULT_BUFFER_SIZE,
        };
        assert(p.buffered() =~= Seq::<FrameView>::empty());
        p
    }

    /// Starts or resumes playback.
    pub fn play(&mut self)
        requires
            old(self).wf(),
        ensures
            final(self).wf(),
            final(self).same_archive(old(self)),
            final(self).playing(),
            final(self).position() == old(self).position(),
            final(self).buffered() == old(self).buffered(),
    {
        self.playing = true;
    }

    /// Pauses playback; the cursor and the buffer stay.
    pub fn pause(&mut self)
        requires
            old(self).wf(),
        ensures
            final(self).wf(),
            final(self).same_archive(old(self)),
            !final(self).playing(),
            final(self).position() == old(self).position(),
            final(self).buffered() == old(self).buffered(),
    {
        self.playing = false;
    }

    /// Stops playback: the cursor goes back to the start and the buffer is
    /// emptied.
    pub fn stop(&mut self)
        requires
            old(self).wf(),
        ensures
            final(self).wf(),
            final(self).same_archive(old(self)),
            !final(self).playing(),
            final(self).position() == 0,
            final(self).buffered() == Seq::<FrameView>::empty(),
    {
        self.playing = false;
        self.position = 0;
        self.frame_buffer.clear();
        assert(self.buffered() =~= Seq::<FrameView>::empty());
    }

    /// Fills the buffer: reads frames behind those buffered until the buffer
    /// is full or the archive ends.
    ///
    /// The first frame that cannot be read ends the filling with its error;
    /// the frames read before it stay buffered.
    pub fn preload_buffer(&mut self) -> (r: Result<(), ReaderError>)
        requires
            old(self).wf(),
        ensures
            final(self).wf(),
            final(self).same_archive(old(self)),
            final(self).position() == old(self).position(),
            final(self).playing() == old(self).playing(),
            old(self).buffered().len() <= final(self).buffered().len(),
            final(self).buffered().take(old(self).buffered().len() as int) == old(self).buffered(),
            r is Ok
                ==> final(self).buffered().len()
                == (if old(self).frame_total() - old(self).position() < old(self).buffer_limit() {
                old(self).frame_total() - old(self).position()
            } else {
                old(self).buffer_limit() as int
            }),
            r is Err ==> old(self).frame(
                (old(self).position() + final(self).buffered().len()) as u64,
            ) == Err::<FrameView, ReaderError>(r->Err_0),
    {
        let frame_count: u64 = self.reader.frame_count();
        proof {
            assert(self.buffered().take(self.buffered().len() as int) =~= self.buffered());
        }
        loop
            invariant
                self.wf(),
                self.same_archive(old(self)),
                self.position == old(self).position,
                self.playing == old(self).playing,
                frame_count == self.reader.frame_total(),
                old(self).buffered().len() <= self.buffered().len(),
                self.buffered().take(old(self).buffered().len() as int) == old(self).buffered(),
            ensures
                self.buffered().len() == (if frame_count - self.position < self.max_buffer_size {
                    frame_count - self.position
                } else {
                    self.max_buffer_size as int
                }),
            decreases self.max_buffer_size - self.frame_buffer@.len(),
        {
            let held: usize = self.frame_buffer.len();
            if held >= self.max_buffer_size {
                break;
            }
            let next: u64 = self.position + held as u64;
            if next >= frame_count {
                break;
            }
            let ghost before = self.buffered();
            let ghost queue = self.frame_buffer@;
            let frame: FrameData = match self.reader.read_frame(next) {
                Ok(frame) => frame,
                Err(e) => {
                    return Err(e);
                },
            };
            self.frame_buffer.push_back(frame);
            proof {
                assert forall|k: int| 0 <= k < self.frame_buffer@.len() implies self.reader.frame(
                    (self.position + k) as u64,
                ) == Ok::<FrameView, ReaderError>(#[trigger] self.frame_buffer@[k]@) by {
                    if k < queue.len() {
                        assert(self.frame_buffer@[k] == queue[k]);
                    }
                }
                assert(self.buffered().take(before.len() as int) =~= before);
                assert(self.buffered().take(old(self).buffered().len() as int) =~= before.take(
                    old(self).buffered().len() as int,
                ));
            }
        }
        Ok(())
    }

    /// Moves the cursor to `frame` and fills the buffer from there.
    ///
    /// A frame beyond the last is refused as an invalid parameter, and
    /// nothing changes. An error of the filling comes back as it is, with
    /// the cursor moved.
    pub fn seek(&mut self, frame: u64) -> (r: Result<(), ReaderError>)
        requires
            old(self).wf(),
        ensures
            final(self).wf(),
            final(self).same_archive(old(self)),
            final(self).playing() == old(self).playing(),
            frame >= old(self).frame_total() ==> r == Err::<(), ReaderError>(
                ReaderError::InvalidParameter,
            ) && final(self).position() == old(self).position()
                && final(self).buffered() == old(self).buffered(),
            frame < old(self).frame_total() ==> final(self).position() == frame,
            frame < old(self).frame_total() && r is Ok
                ==> final(self).buffered().len()
                == (if old(self).frame_total() - frame < old(self).buffer_limit() {
                old(self).frame_total() - frame
            } else {
                old(self).buffer_limit() as int
            }),
            frame < old(self).frame_total() && r is Err ==> old(self).frame(
                (frame + final(self).buffered().len()) as u64,
            ) == Err::<FrameView, ReaderError>(r->Err_0),
    {
        let frame_count: u64 = self.reader.frame_count();
        if frame >= frame_count {
            return Err(ReaderError::InvalidParameter);
        }
        self.position = frame;
        self.frame_buffer.clear();
        self.preload_buffer()
    }

    /// Delivers up to `frames_due` frames, in order, at the back of
    /// `delivered`, and moves the cursor past them.
    ///
    /// A paused player delivers nothing. At the end of the archive playback
    /// stops. A frame that cannot be read ends the delivery with its error;
    /// the frames before it have been delivered.
    pub fn update(&mut self, frames_due: usize, delivered: &mut Vec<FrameData>) -> (r: Result<
        (),
        ReaderError,
    >)
        requires
            old(self).wf(),
        ensures
            final(self).wf(),
            final(self).same_archive(old(self)),
            old(self).position() <= final(self).position() <= old(self).position() + frames_due,
            final(delivered)@.len()
                == old(delivered)@.len() + (final(self).position() - old(self).position()),
            forall|k: int|
                0 <= k < old(delivered)@.len() ==> final(delivered)@[k] == old(delivered)@[k],
            forall|k: int|
                0 <= k < final(self).position() - old(self).position() ==> old(self).frame(
                    (old(self).position() + k) as u64,
                ) == Ok::<FrameView, ReaderError>(
                    #[trigger] final(delivered)@[old(delivered)@.len() + k]@,
                ),
            !old(self).playing() ==> r is Ok && !final(self).playing() && final(self).position()
                == old(self).position(),
            r is Ok && final(self).playing() ==> final(self).position() == old(self).position()
                + frames_due,
            r is Ok && old(self).playing() && !final(self).playing() ==> final(self).position()
                == old(self).frame_total(),
            r is Err ==> final(self).playing() == old(self).playing() && old(self).frame(
                (final(self).position() + final(self).buffered().len()) as u64,
            ) == Err::<FrameView, ReaderError>(r->Err_0),
    {
        if !self.playing {
            return Ok(());
        }
        let mut sent: usize = 0;
        while sent < frames_due
            invariant
                self.wf(),
                self.same_archive(old(self)),
                self.playing,
                old(self).playing,
                sent <= frames_due,
                self.position == old(self).position + sent,
                delivered@.len() == old(delivered)@.len() + sent,
                forall|k: int| 0 <= k < old(delivered)@.len()
                    ==> delivered@[k] == old(delivered)@[k],
                forall|k: int|
                    0 <= k < sent ==> old(self).frame((old(self).position() + k) as u64) == Ok::<
                        FrameView,
                        ReaderError,
                    >(#[trigger] delivered@[old(delivered)@.len() + k]@),
            decreases frames_due - sent,
        {
            if self.frame_buffer.len() == 0 {
                match self.preload_buffer() {
                    Ok(()) => {},
                    Err(e) => {
                        return Err(e);
                    },
                }
                if self.frame_buffer.len() == 0 {
                    self.playing = false;
                    return Ok(());
                }
            }
            let ghost queue = self.frame_buffer@;
            let ghost sofar = delivered@;
            match self.frame_buffer.pop_front() {
                Some(frame) => {
                    proof {
                        assert(frame == queue[0]);
                        assert(self.reader.frame((self.position + 0) as u64) == Ok::<
                            FrameView,
                            ReaderError,
                        >(queue[0]@));
                    }
                    delivered.push(frame);
                    self.position = self.position + 1;
                    proof {
                        assert forall|k: int|
                            0 <= k < self.frame_buffer@.len() implies self.reader.frame(
                            (self.position + k) as u64,
                        ) == Ok::<FrameView, ReaderError>(#[trigger] self.frame_buffer@[k]@) by {
                            assert(self.frame_buffer@[k] == queue[k + 1]);
                        }
                        assert forall|k: int| 0 <= k < sent + 1 implies old(self).frame(
                            (old(self).position() + k) as u64,
                        ) == Ok::<FrameView, ReaderError>(
                            #[trigger] delivered@[old(delivered)@.len() + k]@,
                        ) by {
                            if k < sent {
                                assert(delivered@[old(delivered)@.len() + k]
                                    == sofar[old(delivered)@.len() + k]);
                            }
                        }
                    }
                    sent = sent + 1;
                },
                None => {},
            }
        }
        Ok(())
    }

    /// The frame to be delivered next.
    pub fn get_position(&self) -> (p: u64)
        ensures
            p == self.position(),
    {
        self.position
    }

    /// Whether playback is running.
    pub fn is_playing(&self) -> (b: bool)
        ensures
            b == self.playing(),
    {
        self.playing
    }

    /// Where playback stands.
    pub fn get_stats(&self) -> (s: PlaybackStats)
        ensures
            s == (PlaybackStats {
                position: self.position(),
                playing: self.playing(),
                buffer_size: self.buffered().len() as usize,
            }),
    {
        PlaybackStats {
            position: self.position,
            playing: self.playing,
            buffer_size: self.frame_buffer.len(),
        }
    }
}

} // verus!

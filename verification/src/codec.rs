//! Delta coding of quantized oscillator state.
//!
//! Phases live on a circle: the difference of two samples is taken modulo
//! `2^16` and applied by wrapping addition, so every pair of samples survives
//! a round trip. Amplitudes and emotions are levels: the plain difference is
//! stored and applied by saturating addition.

use vstd::prelude::*;

verus! {

/// Frames between keyframes unless configured otherwise.
pub const DEFAULT_KEYFRAME_INTERVAL: u64 = 300;

/// The signed 16-bit number congruent to `x` modulo `2^16`.
pub open spec fn wrap16(x: int) -> i16 {
    let m = x % 65536;
    if m >= 32768 {
        (m - 65536) as i16
    } else {
        m as i16
    }
}

/// The signed 16-bit number nearest to `x`.
pub open spec fn clamp16(x: int) -> i16 {
    if x > 32767 {
        32767i16
    } else if x < -32768 {
        (-32768) as i16
    } else {
        x as i16
    }
}

/// The stored difference from phase `prev` to phase `curr`.
pub open spec fn phase_delta(prev: i16, curr: i16) -> i16 {
    wrap16(curr - prev)
}

/// Phase `prev` advanced by the stored difference `delta`.
pub open spec fn phase_apply(prev: i16, delta: i16) -> i16 {
    wrap16(prev + delta)
}

/// Whether the difference from level `prev` to level `curr` fits in 16 bits.
pub open spec fn level_delta_fits(prev: i16, curr: i16) -> bool {
    -32768 <= curr - prev <= 32767
}

/// Level `prev` moved by the stored difference `delta`, saturating.
pub open spec fn level_apply(prev: i16, delta: i16) -> i16 {
    clamp16(prev + delta)
}

/// `base` with its first items replaced by those of `top`.
pub open spec fn overlay(base: Seq<i16>, top: Seq<i16>) -> Seq<i16> {
    Seq::new(
        base.len(),
        |i: int|
            if i < top.len() {
                top[i]
            } else {
                base[i]
            },
    )
}

/// The phase differences from `last` to `cur`, item by item.
pub open spec fn phase_deltas(last: Seq<i16>, cur: Seq<i16>) -> Seq<i16> {
    Seq::new(cur.len(), |i: int| phase_delta(last[i], cur[i]))
}

/// The level differences from `last` to `cur`, item by item.
pub open spec fn level_deltas(last: Seq<i16>, cur: Seq<i16>) -> Seq<i16> {
    Seq::new(cur.len(), |i: int| (cur[i] - last[i]) as i16)
}

/// Whether every level difference from `last` to `cur` fits in 16 bits.
pub open spec fn level_deltas_fit(last: Seq<i16>, cur: Seq<i16>) -> bool {
    forall|i: int| 0 <= i < cur.len() && i < last.len() ==> level_delta_fits(last[i], cur[i])
}

/// `last` with the phase differences `deltas` applied to its first items.
pub open spec fn phases_applied(last: Seq<i16>, deltas: Seq<i16>) -> Seq<i16> {
    Seq::new(
        last.len(),
        |i: int|
            if i < deltas.len() {
                phase_apply(last[i], deltas[i])
            } else {
                last[i]
            },
    )
}

/// `last` with the level differences `deltas` applied to its first items.
pub open spec fn levels_applied(last: Seq<i16>, deltas: Seq<i16>) -> Seq<i16> {
    Seq::new(
        last.len(),
        |i: int|
            if i < deltas.len() {
                level_apply(last[i], deltas[i])
            } else {
                last[i]
            },
    )
}

/// `n` zeros.
pub open spec fn zeros(n: nat) -> Seq<i16> {
    Seq::new(n, |i: int| 0i16)
}

/// Decoding an encoded phase step gives the second sample, for every pair of
/// samples.
pub proof fn lemma_phase_roundtrip(a: i16, b: i16)
    ensures
        phase_apply(a, phase_delta(a, b)) == b,
{
}

/// Decoding an encoded level step gives the second sample, whenever the
/// difference fits in 16 bits.
pub proof fn lemma_level_roundtrip(a: i16, b: i16)
    requires
        level_delta_fits(a, b),
    ensures
        level_apply(a, (b - a) as i16) == b,
{
}

/// Applying the phase differences from `last` to `cur` onto `last` gives `cur`.
pub proof fn lemma_phases_replay(last: Seq<i16>, cur: Seq<i16>)
    requires
        last.len() == cur.len(),
    ensures
        phases_applied(last, phase_deltas(last, cur)) == cur,
{
    assert(phases_applied(last, phase_deltas(last, cur)) =~= cur);
}

/// Applying the level differences from `last` to `cur` onto `last` gives
/// `cur`, whenever every difference fits in 16 bits.
pub proof fn lemma_levels_replay(last: Seq<i16>, cur: Seq<i16>)
    requires
        last.len() == cur.len(),
        level_deltas_fit(last, cur),
    ensures
        levels_applied(last, level_deltas(last, cur)) == cur,
{
    assert(levels_applied(last, level_deltas(last, cur)) =~= cur);
}

/// The stored difference between two phase samples, taken around the circle.
pub fn encode_phase_delta(prev: i16, curr: i16) -> (d: i16)
    ensures
        d == phase_delta(prev, curr),
{
    let raw: i32 = curr as i32 - prev as i32;
    let wrapped: i32 = if raw > 32767 {
        raw - 65536
    } else if raw <= -32768 {
        raw + 65536
    } else {
        raw
    };
    if wrapped == 32768 {
        -32768
    } else {
        wrapped as i16
    }
}

/// A phase sample advanced by a stored difference, wrapping around the circle.
pub fn apply_phase_delta(value: i16, delta: i16) -> (r: i16)
    ensures
        r == phase_apply(value, delta),
{
    let sum: i32 = value as i32 + delta as i32;
    if sum > 32767 {
        (sum - 65536) as i16
    } else if sum < -32768 {
        (sum + 65536) as i16
    } else {
        sum as i16
    }
}

/// The difference between two level samples.
pub fn encode_level_delta(prev: i16, curr: i16) -> (d: i16)
    requires
        level_delta_fits(prev, curr),
    ensures
        d == curr - prev,
{
    curr - prev
}

/// A level sample moved by a stored difference, saturating at the ends of
/// the 16-bit range.
pub fn apply_level_delta(value: i16, delta: i16) -> (r: i16)
    ensures
        r == level_apply(value, delta),
{
    let sum: i32 = value as i32 + delta as i32;
    if sum > 32767 {
        32767
    } else if sum < -32768 {
        -32768
    } else {
        sum as i16
    }
}

/// Whether the frame with this index is stored whole: the first frame, and
/// every `interval`-th after it.
pub fn is_keyframe(frame_index: u64, interval: u64) -> (k: bool)
    requires
        interval > 0,
    ensures
        k == (frame_index % interval == 0),
        frame_index == 0 ==> k,
{
    frame_index == 0 || frame_index % interval == 0
}

/// What a coder remembers of the last frame it saw.
pub struct CodecState {
    pub phases: Seq<i16>,
    pub amplitudes: Seq<i16>,
    pub emotions: Seq<i16>,
}

impl CodecState {
    /// The state before any frame: all zeros.
    pub open spec fn blank(oscillators: nat, emotions: nat) -> CodecState {
        CodecState {
            phases: zeros(oscillators),
            amplitudes: zeros(oscillators),
            emotions: zeros(emotions),
        }
    }
}

/// A vector of `n` zeros.
pub fn zeroed(n: usize) -> (v: Vec<i16>)
    ensures
        v@ == zeros(n as nat),
{
    let mut v: Vec<i16> = Vec::new();
    let mut i: usize = 0;
    while i < n
        invariant
            i <= n,
            v@ == zeros(i as nat),
        decreases n - i,
    {
        v.push(0);
        i = i + 1;
        assert(v@ =~= zeros(i as nat));
    }
    v
}

/// Sets every value to zero.
pub fn clear_values(v: &mut Vec<i16>)
    ensures
        final(v)@ == zeros(old(v)@.len()),
{
    let n: usize = v.len();
    let mut i: usize = 0;
    while i < n
        invariant
            i <= n,
            v@.len() == n,
            forall|j: int| 0 <= j < i ==> v@[j] == 0,
        decreases n - i,
    {
        v[i] = 0;
        i = i + 1;
    }
    assert(v@ =~= zeros(n as nat));
}

fn copy_levels(dst: &mut Vec<i16>, src: &[i16])
    requires
        old(dst)@.len() == src@.len(),
    ensures
        final(dst)@ == src@,
{
    let n: usize = src.len();
    let mut i: usize = 0;
    while i < n
        invariant
            i <= n,
            n == src@.len(),
            dst@.len() == n,
            forall|j: int| 0 <= j < i ==> dst@[j] == src@[j],
        decreases n - i,
    {
        dst[i] = src[i];
        i = i + 1;
    }
    assert(dst@ =~= src@);
}

fn encode_phase_run(last: &mut Vec<i16>, cur: &[i16], deltas: &mut [i16])
    requires
        cur@.len() <= old(last)@.len(),
        cur@.len() <= old(deltas)@.len(),
    ensures
        final(deltas)@ == overlay(old(deltas)@, phase_deltas(old(last)@, cur@)),
        final(last)@ == overlay(old(last)@, cur@),
{
    let n: usize = cur.len();
    let mut i: usize = 0;
    while i < n
        invariant
            i <= n,
            n == cur@.len(),
            last@.len() == old(last)@.len(),
            deltas@.len() == old(deltas)@.len(),
            n <= last@.len(),
            n <= deltas@.len(),
            forall|j: int| 0 <= j < i ==> deltas@[j] == phase_delta(old(last)@[j], cur@[j]),
            forall|j: int| i <= j < deltas@.len() ==> deltas@[j] == old(deltas)@[j],
            forall|j: int| 0 <= j < i ==> last@[j] == cur@[j],
            forall|j: int| i <= j < last@.len() ==> last@[j] == old(last)@[j],
        decreases n - i,
    {
        let d: i16 = encode_phase_delta(last[i], cur[i]);
        deltas[i] = d;
        last[i] = cur[i];
        i = i + 1;
    }
    assert(deltas@ =~= overlay(old(deltas)@, phase_deltas(old(last)@, cur@)));
    assert(last@ =~= overlay(old(last)@, cur@));
}

fn encode_level_run(last: &mut Vec<i16>, cur: &[i16], deltas: &mut [i16])
    requires
        cur@.len() <= old(last)@.len(),
        cur@.len() <= old(deltas)@.len(),
        level_deltas_fit(old(last)@, cur@),
    ensures
        final(deltas)@ == overlay(old(deltas)@, level_deltas(old(last)@, cur@)),
        final(last)@ == overlay(old(last)@, cur@),
{
    let n: usize = cur.len();
    let mut i: usize = 0;
    while i < n
        invariant
            i <= n,
            n == cur@.len(),
            last@.len() == old(last)@.len(),
            deltas@.len() == old(deltas)@.len(),
            n <= last@.len(),
            n <= deltas@.len(),
            level_deltas_fit(old(last)@, cur@),
            forall|j: int| 0 <= j < i ==> deltas@[j] == (cur@[j] - old(last)@[j]) as i16,
            forall|j: int| i <= j < deltas@.len() ==> deltas@[j] == old(deltas)@[j],
            forall|j: int| 0 <= j < i ==> last@[j] == cur@[j],
            forall|j: int| i <= j < last@.len() ==> last@[j] == old(last)@[j],
        decreases n - i,
    {
        let d: i16 = encode_level_delta(last[i], cur[i]);
        deltas[i] = d;
        last[i] = cur[i];
        i = i + 1;
    }
    assert(deltas@ =~= overlay(old(deltas)@, level_deltas(old(last)@, cur@)));
    assert(last@ =~= overlay(old(last)@, cur@));
}

/// Turns frames into differences from the frame before.
pub struct DeltaEncoder {
    last_phases: Vec<i16>,
    last_amplitudes: Vec<i16>,
    last_emotions: Vec<i16>,
}

impl View for DeltaEncoder {
    type V = CodecState;

    closed spec fn view(&self) -> CodecState {
        CodecState {
            phases: self.last_phases@,
            amplitudes: self.last_amplitudes@,
            emotions: self.last_emotions@,
        }
    }
}

impl DeltaEncoder {
    /// An encoder that has seen no frame.
    pub fn new(oscillator_count: usize, emotion_dimensions: usize) -> (e: Self)
        ensures
            e@ == CodecState::blank(oscillator_count as nat, emotion_dimensions as nat),
    {
        DeltaEncoder {
            last_phases: zeroed(oscillator_count),
            last_amplitudes: zeroed(oscillator_count),
            last_emotions: zeroed(emotion_dimensions),
        }
    }

    /// Forgets the last frame: every remembered value becomes zero.
    pub fn reset(&mut self)
        ensures
            final(self)@.phases == zeros(old(self)@.phases.len()),
            final(self)@.amplitudes == zeros(old(self)@.amplitudes.len()),
            final(self)@.emotions == zeros(old(self)@.emotions.len()),
    {
        clear_values(&mut self.last_phases);
        clear_values(&mut self.last_amplitudes);
        clear_values(&mut self.last_emotions);
    }

    /// Writes the phase differences from the remembered frame to `phases`
    /// into the front of `deltas`, and remembers `phases`.
    pub fn encode_phases(&mut self, phases: &[i16], deltas: &mut [i16])
        requires
            phases@.len() <= old(self)@.phases.len(),
            phases@.len() <= old(deltas)@.len(),
        ensures
            final(deltas)@ == overlay(old(deltas)@, phase_deltas(old(self)@.phases, phases@)),
            final(self)@ == (CodecState {
                phases: overlay(old(self)@.phases, phases@),
                ..old(self)@
            }),
    {
        encode_phase_run(&mut self.last_phases, phases, deltas);
    }

    /// Writes the amplitude differences from the remembered frame to
    /// `amplitudes` into the front of `deltas`, and remembers `amplitudes`.
    pub fn encode_amplitudes(&mut self, amplitudes: &[i16], deltas: &mut [i16])
        requires
            amplitudes@.len() <= old(self)@.amplitudes.len(),
            amplitudes@.len() <= old(deltas)@.len(),
            level_deltas_fit(old(self)@.amplitudes, amplitudes@),
        ensures
            final(deltas)@ == overlay(
                old(deltas)@,
                level_deltas(old(self)@.amplitudes, amplitudes@),
            ),
            final(self)@ == (CodecState {
                amplitudes: overlay(old(self)@.amplitudes, amplitudes@),
                ..old(self)@
            }),
    {
        encode_level_run(&mut self.last_amplitudes, amplitudes, deltas);
    }

    /// Writes the emotion differences from the remembered frame to
    /// `emotions` into the front of `deltas`, and remembers `emotions`.
    pub fn encode_emotions(&mut self, emotions: &[i16], deltas: &mut [i16])
        requires
            emotions@.len() <= old(self)@.emotions.len(),
            emotions@.len() <= old(deltas)@.len(),
            level_deltas_fit(old(self)@.emotions, emotions@),
        ensures
            final(deltas)@ == overlay(old(deltas)@, level_deltas(old(self)@.emotions, emotions@)),
            final(self)@ == (CodecState {
                emotions: overlay(old(self)@.emotions, emotions@),
                ..old(self)@
            }),
    {
        encode_level_run(&mut self.last_emotions, emotions, deltas);
    }

    /// Remembers the given frame, as after a keyframe.
    pub fn set_state(&mut self, phases: &[i16], amplitudes: &[i16], emotions: &[i16])
        requires
            phases@.len() == old(self)@.phases.len(),
            amplitudes@.len() == old(self)@.amplitudes.len(),
            emotions@.len() == old(self)@.emotions.len(),
        ensures
            final(self)@ == (CodecState {
                phases: phases@,
                amplitudes: amplitudes@,
                emotions: emotions@,
            }),
    {
        copy_levels(&mut self.last_phases, phases);
        copy_levels(&mut self.last_amplitudes, amplitudes);
        copy_levels(&mut self.last_emotions, emotions);
    }

    /// Whether every amplitude and emotion difference from the remembered
    /// frame to the given one fits in 16 bits.
    pub fn can_encode(&self, amplitudes: &[i16], emotions: &[i16]) -> (ok: bool)
        ensures
            ok == (level_deltas_fit(self@.amplitudes, amplitudes@) && level_deltas_fit(
                self@.emotions,
                emotions@,
            )),
    {
        levels_fit(&self.last_amplitudes, amplitudes) && levels_fit(&self.last_emotions, emotions)
    }
}

fn levels_fit(last: &Vec<i16>, cur: &[i16]) -> (ok: bool)
    ensures
        ok == level_deltas_fit(last@, cur@),
{
    let n: usize = if cur.len() < last.len() {
        cur.len()
    } else {
        last.len()
    };
    let mut i: usize = 0;
    while i < n
        invariant
            i <= n,
            n <= cur@.len(),
            n <= last@.len(),
            n == cur@.len() || n == last@.len(),
            forall|j: int| 0 <= j < i ==> level_delta_fits(last@[j], cur@[j]),
        decreases n - i,
    {
        let diff: i32 = cur[i] as i32 - last[i] as i32;
        if diff < -32768 || diff > 32767 {
            return false;
        }
        i = i + 1;
    }
    true
}

fn apply_phase_run(last: &mut Vec<i16>, deltas: &[i16], output: &mut [i16])
    requires
        deltas@.len() <= old(output)@.len() || old(last)@.len() <= old(output)@.len(),
    ensures
        final(last)@ == phases_applied(old(last)@, deltas@),
        final(output)@ == overlay(
            old(output)@,
            final(last)@.take(
                if deltas@.len() < old(last)@.len() {
                    deltas@.len() as int
                } else {
                    old(last)@.len() as int
                },
            ),
        ),
{
    let n: usize = if deltas.len() < last.len() {
        deltas.len()
    } else {
        last.len()
    };
    let mut i: usize = 0;
    while i < n
        invariant
            i <= n,
            n <= deltas@.len(),
            n <= last@.len(),
            n <= output@.len(),
            n == deltas@.len() || n == last@.len(),
            last@.len() == old(last)@.len(),
            output@.len() == old(output)@.len(),
            forall|j: int| 0 <= j < i ==> last@[j] == phase_apply(old(last)@[j], deltas@[j]),
            forall|j: int| i <= j < last@.len() ==> last@[j] == old(last)@[j],
            forall|j: int| 0 <= j < i ==> output@[j] == last@[j],
            forall|j: int| i <= j < output@.len() ==> output@[j] == old(output)@[j],
        decreases n - i,
    {
        let v: i16 = apply_phase_delta(last[i], deltas[i]);
        last[i] = v;
        output[i] = v;
        i = i + 1;
    }
    assert(last@ =~= phases_applied(old(last)@, deltas@));
    assert(output@ =~= overlay(old(output)@, last@.take(n as int)));
}

fn apply_level_run(last: &mut Vec<i16>, deltas: &[i16], output: &mut [i16])
    requires
        deltas@.len() <= old(output)@.len() || old(last)@.len() <= old(output)@.len(),
    ensures
        final(last)@ == levels_applied(old(last)@, deltas@),
        final(output)@ == overlay(
            old(output)@,
            final(last)@.take(
                if deltas@.len() < old(last)@.len() {
                    deltas@.len() as int
                } else {
                    old(last)@.len() as int
                },
            ),
        ),
{
    let n: usize = if deltas.len() < last.len() {
        deltas.len()
    } else {
        last.len()
    };
    let mut i: usize = 0;
    while i < n
        invariant
            i <= n,
            n <= deltas@.len(),
            n <= last@.len(),
            n <= output@.len(),
            n == deltas@.len() || n == last@.len(),
            last@.len() == old(last)@.len(),
            output@.len() == old(output)@.len(),
            forall|j: int| 0 <= j < i ==> last@[j] == level_apply(old(last)@[j], deltas@[j]),
            forall|j: int| i <= j < last@.len() ==> last@[j] == old(last)@[j],
            forall|j: int| 0 <= j < i ==> output@[j] == last@[j],
            forall|j: int| i <= j < output@.len() ==> output@[j] == old(output)@[j],
        decreases n - i,
    {
        let v: i16 = apply_level_delta(last[i], deltas[i]);
        last[i] = v;
        output[i] = v;
        i = i + 1;
    }
    assert(last@ =~= levels_applied(old(last)@, deltas@));
    assert(output@ =~= overlay(old(output)@, last@.take(n as int)));
}

/// Turns differences back into frames.
pub struct DeltaDecoder {
    last_phases: Vec<i16>,
    last_amplitudes: Vec<i16>,
    last_emotions: Vec<i16>,
}

impl View for DeltaDecoder {
    type V = CodecState;

    closed spec fn view(&self) -> CodecState {
        CodecState {
            phases: self.last_phases@,
            amplitudes: self.last_amplitudes@,
            emotions: self.last_emotions@,
        }
    }
}

/// How many items a decoder step touches: the shorter of the two lengths.
pub open spec fn touched(deltas: Seq<i16>, last: Seq<i16>) -> int {
    if deltas.len() < last.len() {
        deltas.len() as int
    } else {
        last.len() as int
    }
}

impl DeltaDecoder {
    /// A decoder that has seen no frame.
    pub fn new(oscillator_count: usize, emotion_dimensions: usize) -> (d: Self)
        ensures
            d@ == CodecState::blank(oscillator_count as nat, emotion_dimensions as nat),
    {
        DeltaDecoder {
            last_phases: zeroed(oscillator_count),
            last_amplitudes: zeroed(oscillator_count),
            last_emotions: zeroed(emotion_dimensions),
        }
    }

    /// Forgets the last frame: every remembered value becomes zero.
    pub fn reset(&mut self)
        ensures
            final(self)@.phases == zeros(old(self)@.phases.len()),
            final(self)@.amplitudes == zeros(old(self)@.amplitudes.len()),
            final(self)@.emotions == zeros(old(self)@.emotions.len()),
    {
        clear_values(&mut self.last_phases);
        clear_values(&mut self.last_amplitudes);
        clear_values(&mut self.last_emotions);
    }

    /// Remembers the given frame, as after a keyframe.
    pub fn set_state_from_data(&mut self, phases: &[i16], amplitudes: &[i16], emotions: &[i16])
        requires
            phases@.len() == old(self)@.phases.len(),
            amplitudes@.len() == old(self)@.amplitudes.len(),
            emotions@.len() == old(self)@.emotions.len(),
        ensures
            final(self)@ == (CodecState {
                phases: phases@,
                amplitudes: amplitudes@,
                emotions: emotions@,
            }),
    {
        copy_levels(&mut self.last_phases, phases);
        copy_levels(&mut self.last_amplitudes, amplitudes);
        copy_levels(&mut self.last_emotions, emotions);
    }

    /// Advances the remembered phases by `deltas` and copies what changed
    /// into the front of `output`.
    pub fn apply_phase_deltas(&mut self, deltas: &[i16], output: &mut [i16])
        requires
            touched(deltas@, old(self)@.phases) <= old(output)@.len(),
        ensures
            final(self)@ == (CodecState {
                phases: phases_applied(old(self)@.phases, deltas@),
                ..old(self)@
            }),
            final(output)@ == overlay(
                old(output)@,
                final(self)@.phases.take(touched(deltas@, old(self)@.phases)),
            ),
    {
        apply_phase_run(&mut self.last_phases, deltas, output);
    }

    /// Moves the remembered amplitudes by `deltas` and copies what changed
    /// into the front of `output`.
    pub fn apply_amplitude_deltas(&mut self, deltas: &[i16], output: &mut [i16])
        requires
            touched(deltas@, old(self)@.amplitudes) <= old(output)@.len(),
        ensures
            final(self)@ == (CodecState {
                amplitudes: levels_applied(old(self)@.amplitudes, deltas@),
                ..old(self)@
            }),
            final(output)@ == overlay(
                old(output)@,
                final(self)@.amplitudes.take(touched(deltas@, old(self)@.amplitudes)),
            ),
    {
        apply_level_run(&mut self.last_amplitudes, deltas, output);
    }

    /// Moves the remembered emotions by `deltas` and copies what changed
    /// into the front of `output`.
    pub fn apply_emotion_deltas(&mut self, deltas: &[i16], output: &mut [i16])
        requires
            touched(deltas@, old(self)@.emotions) <= old(output)@.len(),
        ensures
            final(self)@ == (CodecState {
                emotions: levels_applied(old(self)@.emotions, deltas@),
                ..old(self)@
            }),
            final(output)@ == overlay(
                old(output)@,
                final(self)@.emotions.take(touched(deltas@, old(self)@.emotions)),
            ),
    {
        apply_level_run(&mut self.last_emotions, deltas, output);
    }
}

} // verus!

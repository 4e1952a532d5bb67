//! Splits a stream of capture frames into utterances and lifecycle events.

use vstd::prelude::*;
use crate::gate::{gate_next, peak, GateState, NoiseGate, INFINITY_BITS};
use crate::wav::{encode_wav_float32, wav_float32_bytes, wav_layout_ok, MAX_UTTERANCE_SAMPLES};

verus! {

/// What the segmenter hands to the dispatcher.
#[derive(Debug)]
pub enum AudioEvent {
    StartRecording,
    StopRecording,
    /// One finished utterance, encoded as a WAV file.
    AudioData(Vec<u8>),
}

/// The state of a segmenter, as plain values.
pub struct SegmenterState {
    pub gate: GateState,
    /// Between a `StartRecording` and the matching `StopRecording`.
    pub recording: bool,
    /// Consecutive frames the noise gate has reported closed during this utterance.
    pub silent_frames: u32,
    /// Closed frames that end an utterance.
    pub silence_threshold: u32,
    /// Samples of the utterance so far.
    pub buffer: Seq<u32>,
    pub channels: u16,
    pub sample_rate: u32,
}

/// Whether a frame opens an utterance.
pub open spec fn frame_starts(s: SegmenterState, frame: Seq<u32>, now: u64) -> bool {
    gate_next(s.gate, peak(frame), now).active && !s.recording
}

/// Whether a frame ends the current utterance.
pub open spec fn frame_stops(s: SegmenterState, frame: Seq<u32>, now: u64) -> bool {
    !gate_next(s.gate, peak(frame), now).active && s.recording && s.silent_frames + 1
        >= s.silence_threshold
}

/// The segmenter state after one frame at time `now`.
///
/// An open gate appends the frame to the utterance and clears the silence
/// count. During an utterance, a closed gate counts one more silent frame: on
/// reaching the silence threshold the utterance ends and its buffer is emptied;
/// before that the frame is kept, so short pauses stay inside the utterance.
pub open spec fn segment_next(s: SegmenterState, frame: Seq<u32>, now: u64) -> SegmenterState {
    let g = gate_next(s.gate, peak(frame), now);
    if g.active {
        SegmenterState { gate: g, recording: true, silent_frames: 0, buffer: s.buffer + frame, ..s }
    } else if s.recording {
        if s.silent_frames + 1 >= s.silence_threshold {
            SegmenterState {
                gate: g,
                recording: false,
                silent_frames: 0,
                buffer: Seq::empty(),
                ..s
            }
        } else {
            SegmenterState {
                gate: g,
                silent_frames: (s.silent_frames + 1) as u32,
                buffer: s.buffer + frame,
                ..s
            }
        }
    } else {
        SegmenterState { gate: g, ..s }
    }
}

/// Whether an utterance can be encoded: it fills whole frames and fits the container.
pub open spec fn encodable(buffer: Seq<u32>, channels: u16) -> bool {
    buffer.len() <= MAX_UTTERANCE_SAMPLES && buffer.len() % (channels as nat) == 0
}

/// The events that one frame produces.
///
/// Opening an utterance gives `StartRecording`. Ending one gives
/// `StopRecording`, then `AudioData` with the encoded buffer when the buffer
/// is not empty; an utterance that cannot be encoded is skipped. Other frames
/// give nothing.
pub open spec fn frame_events_ok(
    s: SegmenterState,
    frame: Seq<u32>,
    now: u64,
    events: Seq<AudioEvent>,
) -> bool {
    if frame_starts(s, frame, now) {
        events.len() == 1 && events[0] is StartRecording
    } else if frame_stops(s, frame, now) {
        &&& 1 <= events.len() <= 2
        &&& events[0] is StopRecording
        &&& events.len() == 2 ==> {
            &&& s.buffer.len() > 0
            &&& s.buffer.len() <= MAX_UTTERANCE_SAMPLES
            &&& events[1] matches AudioEvent::AudioData(b)
            &&& b@ == wav_float32_bytes(s.buffer, s.channels, s.sample_rate)
        }
        &&& s.buffer.len() > 0 && encodable(s.buffer, s.channels) ==> events.len() == 2
    } else {
        events.len() == 0
    }
}

/// Real-time segmentation of capture frames into utterances.
pub struct Segmenter {
    gate: NoiseGate,
    recording: bool,
    silent_frames: u32,
    silence_threshold: u32,
    buffer: Vec<u32>,
    channels: u16,
    sample_rate: u32,
}

impl View for Segmenter {
    type V = SegmenterState;

    closed spec fn view(&self) -> SegmenterState {
        SegmenterState {
            gate: self.gate@,
            recording: self.recording,
            silent_frames: self.silent_frames,
            silence_threshold: self.silence_threshold,
            buffer: self.buffer@,
            channels: self.channels,
            sample_rate: self.sample_rate,
        }
    }
}

impl Segmenter {
    /// Well-formed: a valid threshold, a layout the WAV container can hold,
    /// a silence count below its threshold, and an empty buffer outside an
    /// utterance.
    pub open spec fn wf(&self) -> bool {
        &&& self@.gate.threshold <= INFINITY_BITS
        &&& wav_layout_ok(self@.channels, self@.sample_rate)
        &&& self@.silent_frames == 0 || self@.silent_frames < self@.silence_threshold
        &&& !self@.recording ==> self@.buffer.len() == 0
    }

    /// An idle segmenter for a capture stream with the given layout.
    ///
    /// `threshold` is the bit pattern of the non-negative gate threshold.
    pub fn new(
        threshold: u32,
        hold_ms: u64,
        silence_threshold: u32,
        channels: u16,
        sample_rate: u32,
        now_ms: u64,
    ) -> (r: Segmenter)
        requires
            threshold <= INFINITY_BITS,
            wav_layout_ok(channels, sample_rate),
        ensures
            r.wf(),
            r@ == (SegmenterState {
                gate: GateState { threshold, hold_ms, last_active_ms: now_ms, active: false },
                recording: false,
                silent_frames: 0,
                silence_threshold,
                buffer: Seq::empty(),
                channels,
                sample_rate,
            }),
    {
        Segmenter {
            gate: NoiseGate::new(threshold, hold_ms, now_ms),
            recording: false,
            silent_frames: 0,
            silence_threshold,
            buffer: Vec::new(),
            channels,
            sample_rate,
        }
    }

    /// Whether an utterance is in progress.
    pub fn is_recording(&self) -> (r: bool)
        ensures
            r == self@.recording,
    {
        self.recording
    }

    /// Number of samples held for the current utterance.
    pub fn buffered_samples(&self) -> (r: usize)
        ensures
            r == self@.buffer.len(),
    {
        self.buffer.len()
    }

    /// Takes one capture frame, arrived at time `now_ms`, and returns the
    /// events it produces, in order.
    ///
    /// Runs in one linear scan of the frame and never blocks.
    pub fn on_frame(&mut self, samples: &[u32], now_ms: u64) -> (events: Vec<AudioEvent>)
        requires
            old(self).wf(),
        ensures
            final(self).wf(),
            final(self)@ == segment_next(old(self)@, samples@, now_ms),
            frame_events_ok(old(self)@, samples@, now_ms, events@),
    {
        let ghost s0 = self@;
        let mut events: Vec<AudioEvent> = Vec::new();
        let open = self.gate.process(samples, now_ms);
        if open {
            if !self.recording {
                self.recording = true;
                events.push(AudioEvent::StartRecording);
            }
            self.buffer.extend_from_slice(samples);
            self.silent_frames = 0;
            assert(self.buffer@ =~= s0.buffer + samples@);
        } else if self.recording {
            let silent = self.silent_frames + 1;
            if silent >= self.silence_threshold {
                self.recording = false;
                self.silent_frames = 0;
                events.push(AudioEvent::StopRecording);
                if self.buffer.len() > 0 && self.buffer.len() <= MAX_UTTERANCE_SAMPLES {
                    match encode_wav_float32(&self.buffer, self.channels, self.sample_rate) {
                        Some(bytes) => events.push(AudioEvent::AudioData(bytes)),
                        None => {},
                    }
                }
                self.buffer.clear();
            } else {
                self.silent_frames = silent;
                self.buffer.extend_from_slice(samples);
                assert(self.buffer@ =~= s0.buffer + samples@);
            }
        }
        events
    }
}

/// No frame emits `AudioData` for an utterance whose buffer is empty when it ends.
pub proof fn lemma_no_audio_for_empty_utterance(
    s: SegmenterState,
    frame: Seq<u32>,
    now: u64,
    events: Seq<AudioEvent>,
)
    requires
        frame_events_ok(s, frame, now, events),
        s.buffer.len() == 0,
    ensures
        forall|i: int| 0 <= i < events.len() ==> !(#[trigger] events[i] is AudioData),
{
}

} // verus!

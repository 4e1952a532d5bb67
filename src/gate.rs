//! The noise gate: a per-frame activity classifier with hysteresis.

use vstd::prelude::*;

verus! {

/// Bit pattern of positive infinity; larger magnitudes are NaN payloads.
pub const INFINITY_BITS: u32 = 0x7f80_0000;

/// The sign bit of a single-precision bit pattern.
pub const SIGN_BIT: u32 = 0x8000_0000;

/// Magnitude of a sample given by its bit pattern: the pattern of its absolute value.
pub open spec fn magnitude(sample: u32) -> u32 {
    if sample >= SIGN_BIT {
        (sample - SIGN_BIT) as u32
    } else {
        sample
    }
}

/// Whether a bit pattern encodes a NaN.
pub open spec fn is_nan(sample: u32) -> bool {
    magnitude(sample) > INFINITY_BITS
}

/// The peak absolute amplitude of a frame, as a bit pattern.
///
/// Non-negative floats order as their bit patterns do, so the largest magnitude
/// pattern is the pattern of the largest absolute value. NaN samples are
/// ignored, and an empty or all-NaN frame has peak `+0.0`.
pub open spec fn peak(samples: Seq<u32>) -> u32
    decreases samples.len(),
{
    if samples.len() == 0 {
        0
    } else {
        let rest = peak(samples.drop_last());
        let m = magnitude(samples.last());
        if !is_nan(samples.last()) && m > rest {
            m
        } else {
            rest
        }
    }
}

/// Milliseconds from `earlier` to `now`, zero when the clock reads earlier.
pub open spec fn elapsed_ms(earlier: u64, now: u64) -> u64 {
    if now >= earlier {
        (now - earlier) as u64
    } else {
        0
    }
}

/// Computes the peak absolute amplitude of a frame in one linear scan.
pub fn peak_amplitude(samples: &[u32]) -> (r: u32)
    ensures
        r == peak(samples@),
{
    let mut best: u32 = 0;
    let mut i: usize = 0;
    while i < samples.len()
        invariant
            i <= samples@.len(),
            best == peak(samples@.subrange(0, i as int)),
        decreases samples@.len() - i,
    {
        let s = samples[i];
        let m: u32 = if s >= SIGN_BIT {
            s - SIGN_BIT
        } else {
            s
        };
        if m <= INFINITY_BITS && m > best {
            best = m;
        }
        proof {
            let next = samples@.subrange(0, i + 1);
            assert(next.drop_last() =~= samples@.subrange(0, i as int));
            assert(next.last() == s);
        }
        i = i + 1;
    }
    assert(samples@.subrange(0, samples@.len() as int) =~= samples@);
    best
}

/// The state of the noise gate, as plain values.
pub struct GateState {
    /// Bit pattern of the non-negative activation threshold.
    pub threshold: u32,
    /// Grace period after the last loud frame, in milliseconds.
    pub hold_ms: u64,
    /// Time of the last frame whose peak exceeded the threshold.
    pub last_active_ms: u64,
    pub active: bool,
}

/// The noise gate state that follows `s` after a frame with the given peak at time `now`.
///
/// A frame louder than the threshold makes the noise gate active and restarts the
/// hold period; a quiet frame keeps an active gate open until more than
/// `hold_ms` has passed since the last loud frame.
pub open spec fn gate_next(s: GateState, frame_peak: u32, now: u64) -> GateState {
    if frame_peak > s.threshold {
        GateState { last_active_ms: now, active: true, ..s }
    } else {
        GateState { active: s.active && elapsed_ms(s.last_active_ms, now) <= s.hold_ms, ..s }
    }
}

/// Amplitude-threshold activity classifier with a hold period.
pub struct NoiseGate {
    threshold: u32,
    hold_ms: u64,
    last_active_ms: u64,
    active: bool,
}

impl View for NoiseGate {
    type V = GateState;

    closed spec fn view(&self) -> GateState {
        GateState {
            threshold: self.threshold,
            hold_ms: self.hold_ms,
            last_active_ms: self.last_active_ms,
            active: self.active,
        }
    }
}

impl NoiseGate {
    /// Well-formed when the threshold is the pattern of a non-negative, non-NaN value.
    pub open spec fn wf(&self) -> bool {
        self@.threshold <= INFINITY_BITS
    }

    /// A closed gate with the given threshold and hold period, created at time `now_ms`.
    pub fn new(threshold: u32, hold_ms: u64, now_ms: u64) -> (g: NoiseGate)
        requires
            threshold <= INFINITY_BITS,
        ensures
            g.wf(),
            g@ == (GateState { threshold, hold_ms, last_active_ms: now_ms, active: false }),
    {
        NoiseGate { threshold, hold_ms, last_active_ms: now_ms, active: false }
    }

    /// Classifies one frame that arrived at time `now_ms` and reports whether
    /// the noise gate is open after it.
    pub fn process(&mut self, samples: &[u32], now_ms: u64) -> (active: bool)
        requires
            old(self).wf(),
        ensures
            final(self).wf(),
            final(self)@ == gate_next(old(self)@, peak(samples@), now_ms),
            active == final(self)@.active,
    {
        let p = peak_amplitude(samples);
        if p > self.threshold {
            self.last_active_ms = now_ms;
            self.active = true;
        } else if self.active && now_ms.saturating_sub(self.last_active_ms) > self.hold_ms {
            self.active = false;
        }
        self.active
    }

    pub fn is_active(&self) -> (r: bool)
        ensures
            r == self@.active,
    {
        self.active
    }
}

/// The noise gate state after a run of frames, each given by its peak and its
/// arrival time in milliseconds.
pub open spec fn gate_run(s: GateState, frames: Seq<(u32, u64)>) -> GateState
    decreases frames.len(),
{
    if frames.len() == 0 {
        s
    } else {
        gate_next(gate_run(s, frames.drop_last()), frames.last().0, frames.last().1)
    }
}

/// Whether frame `i` of a run is the last loud one, and every quiet frame after
/// it came within the hold period of it.
pub open spec fn held_since(frames: Seq<(u32, u64)>, threshold: u32, hold_ms: u64, i: int) -> bool {
    &&& 0 <= i < frames.len()
    &&& frames[i].0 > threshold
    &&& forall|j: int|
        #![trigger frames[j]]
        i < j < frames.len() ==> frames[j].0 <= threshold && elapsed_ms(frames[i].1, frames[j].1)
            <= hold_ms
}

/// Whether frame `i` is the last frame of a run whose peak exceeds the threshold.
pub open spec fn last_loud(frames: Seq<(u32, u64)>, threshold: u32, i: int) -> bool {
    &&& 0 <= i < frames.len()
    &&& frames[i].0 > threshold
    &&& forall|j: int| #![trigger frames[j]] i < j < frames.len() ==> frames[j].0 <= threshold
}

/// For any sequence of frame peaks fed to a closed noise gate, it is open
/// after the run exactly when some frame exceeded the threshold and every
/// quiet frame since the last such frame came no more than the hold period
/// after it: it opens on the first loud frame and stays open until the hold
/// period of quiet frames has elapsed.
pub proof fn lemma_gate_run(s: GateState, frames: Seq<(u32, u64)>)
    requires
        !s.active,
    ensures
        gate_run(s, frames).active <==> exists|i: int| held_since(frames, s.threshold, s.hold_ms, i),
        forall|i: int|
            last_loud(frames, s.threshold, i) ==> gate_run(s, frames).last_active_ms == frames[i].1,
        gate_run(s, frames).threshold == s.threshold,
        gate_run(s, frames).hold_ms == s.hold_ms,
    decreases frames.len(),
{
    if frames.len() > 0 {
        let prefix = frames.drop_last();
        let n = frames.len() - 1;
        lemma_gate_run(s, prefix);
        let prev = gate_run(s, prefix);
        let (p, t) = frames.last();
        if p > s.threshold {
            assert(held_since(frames, s.threshold, s.hold_ms, n));
            assert forall|i: int| last_loud(frames, s.threshold, i) implies gate_run(
                s,
                frames,
            ).last_active_ms == frames[i].1 by {
                if i < n {
                    assert(frames[n].0 <= s.threshold);
                }
            }
        } else {
            assert forall|i: int| last_loud(frames, s.threshold, i) implies gate_run(
                s,
                frames,
            ).last_active_ms == frames[i].1 by {
                assert(i < n);
                assert(last_loud(prefix, s.threshold, i)) by {
                    assert forall|j: int| #![trigger prefix[j]] i < j < prefix.len() implies prefix[j].0
                        <= s.threshold by {
                        assert(frames[j].0 <= s.threshold);
                    }
                }
            }
            if gate_run(s, frames).active {
                let i = choose|i: int| held_since(prefix, s.threshold, s.hold_ms, i);
                assert(last_loud(prefix, s.threshold, i));
                assert(held_since(frames, s.threshold, s.hold_ms, i)) by {
                    assert forall|j: int| #![trigger frames[j]] i < j < frames.len() implies frames[j].0
                        <= s.threshold && elapsed_ms(frames[i].1, frames[j].1) <= s.hold_ms by {
                        if j < n {
                            assert(prefix[j] == frames[j]);
                        }
                    }
                }
            }
            if exists|i: int| held_since(frames, s.threshold, s.hold_ms, i) {
                let i = choose|i: int| held_since(frames, s.threshold, s.hold_ms, i);
                assert(i < n);
                assert(held_since(prefix, s.threshold, s.hold_ms, i)) by {
                    assert forall|j: int| #![trigger prefix[j]] i < j < prefix.len() implies prefix[j].0
                        <= s.threshold && elapsed_ms(prefix[i].1, prefix[j].1) <= s.hold_ms by {
                        assert(frames[j] == prefix[j]);
                    }
                }
                assert(last_loud(prefix, s.threshold, i));
                assert(frames[n] == frames.last());
            }
        }
    }
}

} // verus!

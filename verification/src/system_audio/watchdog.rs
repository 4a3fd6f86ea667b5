//! Telling a dead recording from a silent one.
//!
//! After some changes of the output device the system goes on delivering
//! frames that hold nothing but zeros. A recording that had a signal and then
//! only zeros for long enough has to be set up anew.

use vstd::prelude::*;

verus! {

/// Counts how long a recording has held nothing but zeros.
pub struct SilenceWatchdog {
    pub dead_ms_threshold: u64,
    pub accumulated_silent_ms: u64,
    pub has_seen_signal: bool,
}

/// The watchdog after a frame of `frame_ms` milliseconds.
pub open spec fn observed(w: SilenceWatchdog, all_zero: bool, frame_ms: nat) -> SilenceWatchdog {
    SilenceWatchdog {
        accumulated_silent_ms: if all_zero {
            (w.accumulated_silent_ms + frame_ms) as u64
        } else {
            0
        },
        has_seen_signal: w.has_seen_signal || !all_zero,
        ..w
    }
}

/// The recording has to be set up anew.
pub open spec fn is_dead(w: SilenceWatchdog) -> bool {
    w.has_seen_signal && w.accumulated_silent_ms >= w.dead_ms_threshold
}

impl SilenceWatchdog {
    /// A watchdog for a recording that starts now.
    pub fn new(dead_ms_threshold: u64) -> (r: SilenceWatchdog)
        ensures
            r == (SilenceWatchdog {
                dead_ms_threshold,
                accumulated_silent_ms: 0,
                has_seen_signal: false,
            }),
    {
        SilenceWatchdog { dead_ms_threshold, accumulated_silent_ms: 0, has_seen_signal: false }
    }

    /// Takes a frame; tells whether the recording has to be set up anew.
    pub fn observe(&mut self, all_zero: bool, frame_ms: u64) -> (r: bool)
        requires
            all_zero ==> old(self).accumulated_silent_ms + frame_ms <= u64::MAX,
        ensures
            *final(self) == observed(*old(self), all_zero, frame_ms as nat),
            r == is_dead(*final(self)),
    {
        if all_zero {
            self.accumulated_silent_ms = self.accumulated_silent_ms + frame_ms;
        } else {
            self.has_seen_signal = true;
            self.accumulated_silent_ms = 0;
        }
        self.has_seen_signal && self.accumulated_silent_ms >= self.dead_ms_threshold
    }

    /// Whether a frame of `frame_ms` milliseconds can be counted.
    pub fn has_room(&self, frame_ms: u64) -> (r: bool)
        ensures
            r == (self.accumulated_silent_ms + frame_ms <= u64::MAX),
    {
        self.accumulated_silent_ms <= u64::MAX - frame_ms
    }
}

/// A sample of this bit pattern is zero, of either sign.
pub open spec fn is_zero_bits(bits: u32) -> bool {
    bits == 0 || bits == 0x8000_0000
}

/// Whether every sample is zero; samples come as the bit patterns of their
/// single-precision values.
pub fn is_all_zero(samples: &[u32]) -> (r: bool)
    ensures
        r == (forall|i: int| 0 <= i < samples@.len() ==> is_zero_bits(#[trigger] samples@[i])),
{
    let mut i: usize = 0;
    while i < samples.len()
        invariant
            i <= samples@.len(),
            forall|j: int| 0 <= j < i ==> is_zero_bits(#[trigger] samples@[j]),
        decreases samples@.len() - i,
    {
        if samples[i] != 0 && samples[i] != 0x8000_0000 {
            return false;
        }
        i = i + 1;
    }
    true
}

// ─── Laws ──────────────────────────────────────────────────────────────

/// How long the last frames of a recording have held nothing but zeros. A frame
/// is whether it is all zeros, and its milliseconds.
pub open spec fn silent_tail(frames: Seq<(bool, nat)>) -> nat
    decreases frames.len(),
{
    if frames.len() == 0 || !frames.last().0 {
        0
    } else {
        silent_tail(frames.drop_last()) + frames.last().1
    }
}

/// Some frame of the recording had a signal.
pub open spec fn had_signal(frames: Seq<(bool, nat)>) -> bool {
    exists|i: int| 0 <= i < frames.len() && !(#[trigger] frames[i]).0
}

/// A new watchdog after a whole recording.
pub open spec fn after_recording(dead_ms: u64, frames: Seq<(bool, nat)>) -> SilenceWatchdog
    decreases frames.len(),
{
    if frames.len() == 0 {
        SilenceWatchdog {
            dead_ms_threshold: dead_ms,
            accumulated_silent_ms: 0,
            has_seen_signal: false,
        }
    } else {
        observed(
            after_recording(dead_ms, frames.drop_last()),
            frames.last().0,
            frames.last().1,
        )
    }
}

/// A recording is dead exactly if it once had a signal and has ended with
/// nothing but zeros for the threshold: zeros before any signal never count,
/// and any signal starts the count over.
pub proof fn law_dead_means_signal_then_zeros(dead_ms: u64, frames: Seq<(bool, nat)>)
    requires
        forall|i: int| 0 <= i <= frames.len() ==> silent_tail(#[trigger] frames.take(i)) <= u64::MAX,
    ensures
        is_dead(after_recording(dead_ms, frames)) <==> had_signal(frames) && silent_tail(frames)
            >= dead_ms,
{
    lemma_recording(dead_ms, frames);
}

proof fn lemma_recording(dead_ms: u64, frames: Seq<(bool, nat)>)
    requires
        forall|i: int| 0 <= i <= frames.len() ==> silent_tail(#[trigger] frames.take(i)) <= u64::MAX,
    ensures
        after_recording(dead_ms, frames) == (SilenceWatchdog {
            dead_ms_threshold: dead_ms,
            accumulated_silent_ms: silent_tail(frames) as u64,
            has_seen_signal: had_signal(frames),
        }),
        silent_tail(frames) <= u64::MAX,
    decreases frames.len(),
{
    assert(frames.take(frames.len() as int) =~= frames);
    if frames.len() > 0 {
        let t = frames.drop_last();
        assert forall|i: int| 0 <= i <= t.len() implies silent_tail(#[trigger] t.take(i))
            <= u64::MAX by {
            assert(t.take(i) =~= frames.take(i));
        }
        lemma_recording(dead_ms, t);
        assert(forall|i: int| 0 <= i < t.len() ==> t[i] == frames[i]);
        if had_signal(t) {
            let i = choose|i: int| 0 <= i < t.len() && !(#[trigger] t[i]).0;
            assert(!frames[i].0);
        }
        if !frames.last().0 {
            assert(!frames[frames.len() - 1].0);
        }
    }
}

/// A frame of zeros adds to the silence, any other starts it over; a recording is
/// dead once a signal was seen and the silence has reached the threshold.
pub proof fn law_signal_starts_the_silence_over(w: SilenceWatchdog, frame_ms: nat)
    requires
        w.accumulated_silent_ms + frame_ms <= u64::MAX,
    ensures
        observed(w, true, frame_ms).accumulated_silent_ms == w.accumulated_silent_ms + frame_ms,
        observed(w, true, frame_ms).has_seen_signal == w.has_seen_signal,
        observed(w, false, frame_ms).accumulated_silent_ms == 0,
        observed(w, false, frame_ms).has_seen_signal,
        observed(w, true, frame_ms).dead_ms_threshold == w.dead_ms_threshold,
        is_dead(w) <==> w.has_seen_signal && w.accumulated_silent_ms >= w.dead_ms_threshold,
{
}

/// Zero has two bit patterns, that of either sign, and no other sample is zero.
pub proof fn law_zero_has_two_signs(bits: u32)
    ensures
        is_zero_bits(bits) <==> bits == 0 || bits == 2_147_483_648,
{
}

} // verus!

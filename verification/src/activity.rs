//! Hangover logic of the voice activity detector.
//!
//! A frame is *voiced* when it is both loud relative to the noise floor and
//! spectrally peaky. The decision stays "speech" for a few frames after the
//! last voiced one so word tails are not chopped, and the noise floor only
//! adapts once that hangover has run out.

use vstd::prelude::*;

verus! {

/// Frames the decision is held after voiced speech (~128 ms at 16 ms hops).
pub const HANGOVER_FRAMES: u32 = 8;

/// The decision for one frame.
pub struct ActivityDecision {
    /// The frame counts as speech.
    pub speech: bool,
    /// The frame may be used to adapt the noise-floor estimate.
    pub adapt_noise_floor: bool,
}

/// Hangover remaining after a frame, from the hangover before it.
pub open spec fn next_remaining(remaining: nat, hold: nat, voiced: bool) -> nat {
    if voiced {
        hold
    } else if remaining > 0 {
        (remaining - 1) as nat
    } else {
        0
    }
}

/// Hangover remaining after `k` unvoiced frames.
pub open spec fn remaining_after_silence(remaining: nat, hold: nat, k: nat) -> nat
    decreases k,
{
    if k == 0 {
        remaining
    } else {
        next_remaining(remaining_after_silence(remaining, hold, (k - 1) as nat), hold, false)
    }
}

/// The hangover counter.
pub struct Hangover {
    remaining: u32,
    hold: u32,
}

impl Hangover {
    /// Frames of hangover left.
    pub closed spec fn remaining(&self) -> nat {
        self.remaining as nat
    }

    /// Frames held after voiced speech.
    pub closed spec fn hold(&self) -> nat {
        self.hold as nat
    }

    /// A counter that holds the decision for `hold` frames; none pending.
    pub fn new(hold: u32) -> (h: Hangover)
        ensures
            h.remaining() == 0,
            h.hold() == hold,
    {
        Hangover { remaining: 0, hold }
    }

    /// Decides one frame given whether it is voiced: voiced frames restart
    /// the hangover; otherwise a pending hangover counts down; the frame is
    /// speech while it is voiced or hangover remains; the floor adapts only
    /// when no hangover was pending.
    pub fn step(&mut self, voiced: bool) -> (d: ActivityDecision)
        ensures
            final(self).hold() == old(self).hold(),
            final(self).remaining() == next_remaining(old(self).remaining(), old(self).hold(), voiced),
            d.speech == (voiced || final(self).remaining() > 0),
            d.adapt_noise_floor == (!voiced && old(self).remaining() == 0),
    {
        let adapt = !voiced && self.remaining == 0;
        if voiced {
            self.remaining = self.hold;
        } else if self.remaining > 0 {
            self.remaining = self.remaining - 1;
        }
        ActivityDecision { speech: voiced || self.remaining > 0, adapt_noise_floor: adapt }
    }
}

/// After a voiced frame, the `k`-th unvoiced frame that follows is still
/// speech exactly when `k < hold`, and the noise floor starts adapting only
/// at frame `hold + 1`.
pub proof fn lemma_hangover_tail(hold: nat, k: nat)
    requires
        k >= 1,
    ensures
        (remaining_after_silence(hold, hold, k) > 0) == (k < hold),
        (remaining_after_silence(hold, hold, (k - 1) as nat) == 0) == (k > hold),
    decreases k,
{
    lemma_silence_counts_down(hold, k);
    lemma_silence_counts_down(hold, (k - 1) as nat);
}

proof fn lemma_silence_counts_down(hold: nat, k: nat)
    ensures
        remaining_after_silence(hold, hold, k) == if k < hold {
            (hold - k) as nat
        } else {
            0
        },
    decreases k,
{
    if k > 0 {
        lemma_silence_counts_down(hold, (k - 1) as nat);
    }
}

/// Hangover remaining after the frames `voiced` in turn, none pending at
/// first (what [`Hangover::step`] leaves after each of them).
pub open spec fn remaining_after(hold: nat, voiced: Seq<bool>) -> nat
    decreases voiced.len(),
{
    if voiced.len() == 0 {
        0
    } else {
        next_remaining(remaining_after(hold, voiced.drop_last()), hold, voiced.last())
    }
}

/// The decision for the last of the frames `voiced` (non-empty), as
/// [`Hangover::step`] reports it.
pub open spec fn speech_after(hold: nat, voiced: Seq<bool>) -> bool {
    voiced.last() || remaining_after(hold, voiced) > 0
}

proof fn lemma_remaining_after(hold: nat, voiced: Seq<bool>)
    ensures
        forall|i: int|
            0 <= i < voiced.len() && #[trigger] voiced[i] ==> remaining_after(hold, voiced) >= hold
                - (voiced.len() - 1 - i),
        remaining_after(hold, voiced) > 0 ==> exists|i: int|
            0 <= i < voiced.len() && #[trigger] voiced[i] && remaining_after(hold, voiced) == hold
                - (voiced.len() - 1 - i),
    decreases voiced.len(),
{
    if voiced.len() > 0 {
        let init = voiced.drop_last();
        lemma_remaining_after(hold, init);
        let r = remaining_after(hold, init);
        let n = voiced.len();
        assert forall|i: int| 0 <= i < n && #[trigger] voiced[i] implies remaining_after(
            hold,
            voiced,
        ) >= hold - (n - 1 - i) by {
            if i < n - 1 {
                assert(init[i] == voiced[i]);
            }
        }
        if remaining_after(hold, voiced) > 0 {
            if voiced.last() {
                assert(voiced[n - 1]);
            } else {
                let i = choose|i: int|
                    0 <= i < init.len() && #[trigger] init[i] && r == hold - (init.len() - 1 - i);
                assert(voiced[i] == init[i]);
            }
        }
    }
}

/// The decision over a whole history: the last frame is speech exactly when
/// it is voiced or some frame fewer than `hold` frames before it is.
pub proof fn lemma_speech_window(hold: nat, voiced: Seq<bool>)
    requires
        voiced.len() >= 1,
    ensures
        speech_after(hold, voiced) <==> exists|i: int|
            0 <= i < voiced.len() && (i == voiced.len() - 1 || voiced.len() - 1 - i < hold)
                && #[trigger] voiced[i],
{
    lemma_remaining_after(hold, voiced);
    let n = voiced.len();
    if speech_after(hold, voiced) {
        if voiced.last() {
            assert(voiced[n - 1]);
        } else {
            let i = choose|i: int|
                0 <= i < n && #[trigger] voiced[i] && remaining_after(hold, voiced) == hold - (n
                    - 1 - i);
            assert(voiced[i]);
        }
    }
}

/// A frame whose noise floor adapts is never reported as speech.
pub proof fn lemma_adapt_only_in_silence(remaining: nat, hold: nat, voiced: bool)
    ensures
        (!voiced && remaining == 0) ==> !(voiced || next_remaining(remaining, hold, voiced) > 0),
{
}

} // verus!

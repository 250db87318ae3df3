//! Streaming frame scheduling: how many analysis frames a buffer of audio
//! yields, and which samples stay buffered for the next call.
//!
//! A frame of `frame` samples is processed whenever that many are buffered;
//! the buffer then advances by `hop` samples. Feeding audio in arbitrary
//! chunks yields exactly the frames that feeding it at once would.

use vstd::prelude::*;
use vstd::arithmetic::div_mod::{lemma_fundamental_div_mod, lemma_fundamental_div_mod_converse, lemma_mod_pos_bound};

verus! {

/// Frames produced from `total` buffered samples.
pub open spec fn frames_for(total: nat, frame: nat, hop: nat) -> nat {
    if total < frame {
        0
    } else {
        ((total - frame) as nat / hop + 1) as nat
    }
}

/// What the frame count counts: frame `k` (starting at sample `k * hop`)
/// is produced exactly when it lies wholly within the `total` samples.
pub proof fn lemma_frames_for_counts(total: nat, frame: nat, hop: nat, k: nat)
    requires
        hop >= 1,
    ensures
        k < frames_for(total, frame, hop) <==> k * hop + frame <= total,
{
    if total >= frame {
        let q = ((total - frame) as nat / hop) as int;
        let r = ((total - frame) as nat % hop) as int;
        lemma_fundamental_div_mod((total - frame) as int, hop as int);
        lemma_mod_pos_bound((total - frame) as int, hop as int);
        if k <= q {
            assert(k * hop <= q * hop) by (nonlinear_arith)
                requires
                    k <= q,
                    hop >= 1,
            ;
        } else {
            assert(k * hop >= (q + 1) * hop) by (nonlinear_arith)
                requires
                    k >= q + 1,
                    hop >= 1,
            ;
            assert((q + 1) * hop == q * hop + hop) by (nonlinear_arith);
        }
        assert(hop * q == q * hop) by (nonlinear_arith);
    } else {
        assert(k * hop >= 0) by (nonlinear_arith)
            requires
                hop >= 1,
        ;
    }
}

/// Number of frames of `frame` samples, hopped by `hop`, that fit in `len`
/// samples.
pub fn frame_count(len: usize, frame: usize, hop: usize) -> (n: usize)
    requires
        hop >= 1,
        frames_for(len as nat, frame as nat, hop as nat) <= usize::MAX,
    ensures
        n == frames_for(len as nat, frame as nat, hop as nat),
{
    if len < frame {
        0
    } else {
        (len - frame) / hop + 1
    }
}

/// Buffer bookkeeping of a streaming frame processor.
pub struct FrameSchedule {
    frame: usize,
    hop: usize,
    buffered: usize,
}

impl FrameSchedule {
    /// Frame length.
    pub closed spec fn frame_len(&self) -> nat {
        self.frame as nat
    }

    /// Hop between frames.
    pub closed spec fn hop_len(&self) -> nat {
        self.hop as nat
    }

    /// Samples buffered and not yet consumed by a hop.
    pub closed spec fn pending(&self) -> nat {
        self.buffered as nat
    }

    /// The schedule's invariant: hops are non-empty, no longer than a frame,
    /// and less than a frame stays buffered.
    pub closed spec fn wf(&self) -> bool {
        1 <= self.hop <= self.frame && self.buffered < self.frame
    }

    /// An empty buffer for frames of `frame` samples hopped by `hop`.
    pub fn new(frame: usize, hop: usize) -> (s: FrameSchedule)
        requires
            1 <= hop <= frame,
        ensures
            s.wf(),
            s.frame_len() == frame,
            s.hop_len() == hop,
            s.pending() == 0,
    {
        FrameSchedule { frame, hop, buffered: 0 }
    }

    /// Samples buffered and not yet consumed by a hop.
    pub fn pending_len(&self) -> (n: usize)
        ensures
            n == self.pending(),
    {
        self.buffered
    }

    /// Appends `n` samples; returns how many frames are now processed, each
    /// consuming one hop of the buffer.
    pub fn push(&mut self, n: usize) -> (frames: usize)
        requires
            old(self).wf(),
            old(self).pending() + n <= usize::MAX,
        ensures
            final(self).wf(),
            final(self).frame_len() == old(self).frame_len(),
            final(self).hop_len() == old(self).hop_len(),
            frames == frames_for(
                (old(self).pending() + n) as nat,
                old(self).frame_len(),
                old(self).hop_len(),
            ),
            final(self).pending() == old(self).pending() + n - frames * old(self).hop_len(),
    {
        let total = self.buffered + n;
        let frames = frame_count(total, self.frame, self.hop);
        if frames > 0 {
            let q = (total - self.frame) / self.hop;
            let r = (total - self.frame) % self.hop;
            proof {
                lemma_fundamental_div_mod((total - self.frame) as int, self.hop as int);
                lemma_mod_pos_bound((total - self.frame) as int, self.hop as int);
                assert(total - self.frame == q * self.hop + r) by (nonlinear_arith)
                    requires
                        total - self.frame == self.hop * q + r,
                ;
                assert(frames * self.hop == q * self.hop + self.hop) by (nonlinear_arith)
                    requires
                        frames == q + 1,
                ;
            }
            self.buffered = r + self.frame - self.hop;
        } else {
            self.buffered = total;
        }
        frames
    }
}

/// Streaming law: feeding `n1` then `n2` samples yields as many frames, and
/// leaves as much buffered, as feeding `n1 + n2` at once.
pub proof fn lemma_frames_split(b: nat, n1: nat, n2: nat, frame: nat, hop: nat)
    requires
        1 <= hop <= frame,
        b < frame,
    ensures
        ({
            let f1 = frames_for(b + n1, frame, hop);
            let rest = b + n1 - f1 * hop;
            &&& rest >= 0
            &&& rest < frame
            &&& f1 + frames_for((rest + n2) as nat, frame, hop) == frames_for(b + n1 + n2, frame, hop)
        }),
{
    let t = b + n1;
    let f1 = frames_for(t, frame, hop);
    if t < frame {
        assert(f1 == 0);
    } else {
        let q = ((t - frame) as nat / hop) as int;
        let r = ((t - frame) as nat % hop) as int;
        lemma_fundamental_div_mod((t - frame) as int, hop as int);
        lemma_mod_pos_bound((t - frame) as int, hop as int);
        assert((t - frame) == q * hop + r) by (nonlinear_arith)
            requires
                (t - frame) == hop * q + r,
        ;
        assert(f1 * hop == q * hop + hop) by (nonlinear_arith)
            requires
                f1 == q + 1,
        ;
        let rest = t - f1 * hop;
        assert(rest == r + frame - hop);
        let u = t + n2 - frame;
        if rest + n2 >= frame {
            let q2 = (rest + n2 - frame) / (hop as int);
            let r2 = (rest + n2 - frame) % (hop as int);
            lemma_fundamental_div_mod(rest + n2 - frame, hop as int);
            lemma_mod_pos_bound(rest + n2 - frame, hop as int);
            assert(u == (q2 + f1) * hop + r2) by (nonlinear_arith)
                requires
                    rest + n2 - frame == hop * q2 + r2,
                    rest == t - f1 * hop,
                    u == t + n2 - frame,
            ;
            lemma_fundamental_div_mod_converse(u, hop as int, q2 + f1, r2);
        } else {
            assert(u == q * hop + (r + n2)) by (nonlinear_arith)
                requires
                    (t - frame) == q * hop + r,
                    u == t + n2 - frame,
            ;
            assert(r + n2 < hop);
            lemma_fundamental_div_mod_converse(u, hop as int, q, r + n2);
        }
    }
}

/// Total number of samples in a sequence of chunks.
pub open spec fn chunks_total(chunks: Seq<nat>) -> nat
    decreases chunks.len(),
{
    if chunks.len() == 0 {
        0
    } else {
        chunks_total(chunks.drop_last()) + chunks.last()
    }
}

/// Feeding `chunks` in turn to a schedule holding `b` samples, one push
/// per chunk: the frames produced in all, and the samples left buffered.
pub open spec fn feed(b: nat, chunks: Seq<nat>, frame: nat, hop: nat) -> (nat, nat)
    decreases chunks.len(),
{
    if chunks.len() == 0 {
        (0, b)
    } else {
        let (f, r) = feed(b, chunks.drop_last(), frame, hop);
        let t = r + chunks.last();
        let g = frames_for(t, frame, hop);
        (f + g, (t - g * hop) as nat)
    }
}

/// Streaming law for any chunking: pushing a stream chunk by chunk yields,
/// in all, exactly the frames that pushing it at once would, and leaves the
/// same samples buffered.
pub proof fn lemma_frames_any_chunking(b: nat, chunks: Seq<nat>, frame: nat, hop: nat)
    requires
        1 <= hop <= frame,
        b < frame,
    ensures
        feed(b, chunks, frame, hop).0 == frames_for(b + chunks_total(chunks), frame, hop),
        feed(b, chunks, frame, hop).1 == b + chunks_total(chunks) - feed(b, chunks, frame, hop).0
            * hop,
        feed(b, chunks, frame, hop).1 < frame,
    decreases chunks.len(),
{
    if chunks.len() > 0 {
        let init = chunks.drop_last();
        let n = chunks.last();
        lemma_frames_any_chunking(b, init, frame, hop);
        let tot = chunks_total(init);
        let (f, r) = feed(b, init, frame, hop);
        lemma_frames_split(b, tot, n, frame, hop);
        let g = frames_for(r + n, frame, hop);
        assert((f + g) * hop == f * hop + g * hop) by (nonlinear_arith);
        if r + n >= frame {
            let q = ((r + n - frame) as nat / hop) as int;
            let rr = ((r + n - frame) as nat % hop) as int;
            lemma_fundamental_div_mod((r + n - frame) as int, hop as int);
            lemma_mod_pos_bound((r + n - frame) as int, hop as int);
            assert(g * hop == q * hop + hop) by (nonlinear_arith)
                requires
                    g == q + 1,
            ;
            assert((r + n - frame) == q * hop + rr) by (nonlinear_arith)
                requires
                    (r + n - frame) == hop * q + rr,
            ;
        }
    }
}

/// What the presence scorer does with a pushed chunk.
#[derive(Debug, PartialEq, Eq)]
pub enum RescorePlan {
    /// No reference is set: the chunk is ignored.
    Ignore,
    /// Append the chunk, drop the `drop` oldest samples, and re-score the
    /// window when `rescore`.
    Keep { drop: usize, rescore: bool },
}

/// Rolling-window bookkeeping of the speaker-presence scorer: a window of
/// the newest `window` samples is kept, and it is re-scored once at least
/// `period` samples have arrived since the last score (and at least that
/// many are buffered).
pub struct RescoreSchedule {
    window: usize,
    period: usize,
    buffered: usize,
    since: usize,
    has_reference: bool,
}

impl RescoreSchedule {
    pub closed spec fn window_len(&self) -> nat {
        self.window as nat
    }

    pub closed spec fn period_len(&self) -> nat {
        self.period as nat
    }

    /// Samples held in the window.
    pub closed spec fn held(&self) -> nat {
        self.buffered as nat
    }

    /// Samples received since the last score.
    pub closed spec fn since_score(&self) -> nat {
        self.since as nat
    }

    pub closed spec fn reference_set(&self) -> bool {
        self.has_reference
    }

    /// Bookkeeping for a window of `window` samples re-scored every `period`
    /// samples; no reference yet.
    pub fn new(window: usize, period: usize) -> (s: RescoreSchedule)
        ensures
            s.window_len() == window,
            s.period_len() == period,
            s.held() == 0,
            s.since_score() == 0,
            !s.reference_set(),
    {
        RescoreSchedule { window, period, buffered: 0, since: 0, has_reference: false }
    }

    /// Marks the reference embedding as set.
    pub fn set_reference(&mut self)
        ensures
            final(self).reference_set(),
            final(self).window_len() == old(self).window_len(),
            final(self).period_len() == old(self).period_len(),
            final(self).held() == old(self).held(),
            final(self).since_score() == old(self).since_score(),
    {
        self.has_reference = true;
    }

    /// Whether a reference is set.
    pub fn has_reference(&self) -> (b: bool)
        ensures
            b == self.reference_set(),
    {
        self.has_reference
    }

    /// Samples held in the window, and samples received since the last score.
    pub fn counts(&self) -> (c: (usize, usize))
        ensures
            c.0 == self.held(),
            c.1 == self.since_score(),
    {
        (self.buffered, self.since)
    }

    /// Plans the handling of a pushed chunk of `n` samples.
    pub fn push(&mut self, n: usize) -> (plan: RescorePlan)
        requires
            old(self).held() + n <= usize::MAX,
            old(self).since_score() + n <= usize::MAX,
        ensures
            final(self).window_len() == old(self).window_len(),
            final(self).period_len() == old(self).period_len(),
            final(self).reference_set() == old(self).reference_set(),
            !old(self).reference_set() ==> plan is Ignore && *final(self) == *old(self),
            old(self).reference_set() ==> ({
                let total = (old(self).held() + n) as nat;
                let held = if total > old(self).window_len() {
                    old(self).window_len()
                } else {
                    total
                };
                let since = (old(self).since_score() + n) as nat;
                let rescore = since >= old(self).period_len() && held >= old(self).period_len();
                &&& plan == (RescorePlan::Keep { drop: (total - held) as usize, rescore })
                &&& final(self).held() == held
                &&& final(self).since_score() == if rescore {
                    0
                } else {
                    since
                }
            }),
    {
        if !self.has_reference {
            return RescorePlan::Ignore;
        }
        let total = self.buffered + n;
        let mut drop: usize = 0;
        if total > self.window {
            drop = total - self.window;
        }
        self.buffered = total - drop;
        self.since = self.since + n;
        if self.since < self.period || self.buffered < self.period {
            return RescorePlan::Keep { drop, rescore: false };
        }
        self.since = 0;
        RescorePlan::Keep { drop, rescore: true }
    }
}

} // verus!

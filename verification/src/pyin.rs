//! pYIN: batching and frame numbering.
//!
//! pYIN smooths with a Viterbi pass over a whole sequence, so audio is
//! processed in batches of 16000 samples (~333 ms at 48 kHz). Frames within
//! a batch are 960 samples apart, and a centred batch yields one frame more
//! than its whole hops, so batch frame counts do not tile the hop grid:
//! frames are numbered by a running counter, which keeps indices strictly
//! increasing across batches.
use vstd::prelude::*;
use crate::framer::{Framer, framer_initial};
use crate::samples::first_indices;

verus! {

/// Sample rate the estimator runs at.
pub const SAMPLE_RATE: u32 = 48000;
/// Analysis frame length.
pub const FRAME_LENGTH: usize = 2048;
/// Samples between frames (20 ms).
pub const HOP_LENGTH: usize = 960;
/// Samples per batch handed to pYIN.
pub const BATCH_SAMPLES: usize = 16000;
/// Lowest pitch searched, in Hz.
pub const FMIN_HZ: u32 = 65;
/// Highest pitch searched, in Hz.
pub const FMAX_HZ: u32 = 1100;

/// A framer handing out consecutive, non-overlapping batches.
pub fn batch_framer<T: Copy>() -> (f: Framer<T>)
    ensures
        f.wf(),
        f@ == framer_initial::<T>(BATCH_SAMPLES as nat, BATCH_SAMPLES as nat),
{
    Framer::new(BATCH_SAMPLES, BATCH_SAMPLES)
}

/// Stream position of the first sample of batch `batch`.
pub fn batch_first_sample(batch: u64) -> (r: u64)
    requires
        batch * BATCH_SAMPLES <= u64::MAX,
    ensures
        r == batch * BATCH_SAMPLES,
{
    batch * BATCH_SAMPLES as u64
}

/// Running frame numbering across batches.
pub struct FrameNumbering {
    next: u64,
    emitted: Ghost<Seq<u64>>,
}

/// Mathematical state of a [`FrameNumbering`].
pub struct FrameNumberingModel {
    /// The index the next frame gets.
    pub next: nat,
    /// Every index handed out so far, in order.
    pub emitted: Seq<u64>,
}

impl View for FrameNumbering {
    type V = FrameNumberingModel;

    closed spec fn view(&self) -> FrameNumberingModel {
        FrameNumberingModel { next: self.next as nat, emitted: self.emitted@ }
    }
}

impl FrameNumbering {
    /// The indices handed out are `0, 1, .., next - 1`, in order.
    pub open spec fn wf(&self) -> bool {
        self@.emitted == first_indices(self@.next)
    }

    /// Numbering from zero.
    pub fn new() -> (r: Self)
        ensures
            r.wf(),
            r@.next == 0,
    {
        let r = FrameNumbering { next: 0, emitted: Ghost(Seq::empty()) };
        assert(r@.emitted =~= first_indices(0));
        r
    }

    /// The index the next frame gets.
    pub fn next_index(&self) -> (r: u64)
        ensures
            r == self@.next,
    {
        self.next
    }

    /// Restarts numbering at zero.
    pub fn reset(&mut self)
        ensures
            final(self).wf(),
            final(self)@.next == 0,
    {
        self.next = 0;
        self.emitted = Ghost(Seq::empty());
        assert(self@.emitted =~= first_indices(0));
    }

    /// Hands out `count` consecutive indices for the frames of one batch and
    /// returns the first; frame `i` of the batch is `first + i`.
    pub fn take(&mut self, count: usize) -> (first: u64)
        requires
            old(self).wf(),
            old(self)@.next + count <= u64::MAX,
        ensures
            final(self).wf(),
            first == old(self)@.next,
            final(self)@.next == old(self)@.next + count,
            final(self)@.emitted == old(self)@.emitted + Seq::new(
                count as nat,
                |i: int| (first + i) as u64,
            ),
    {
        let first = self.next;
        self.next = self.next + count as u64;
        self.emitted = Ghost(self.emitted@ + Seq::new(count as nat, |i: int| (first + i) as u64));
        assert(self@.emitted =~= first_indices(self@.next));
        first
    }
}

/// Law: over the whole stream, frame indices strictly increase and never
/// repeat: every index handed out is larger than all earlier ones.
pub proof fn lemma_numbering_increasing(n: FrameNumberingModel)
    requires
        n.emitted == first_indices(n.next),
        n.next <= u64::MAX + 1,
    ensures
        forall|i: int, j: int| 0 <= i < j < n.emitted.len() ==> n.emitted[i] < n.emitted[j],
        forall|i: int| 0 <= i < n.emitted.len() ==> (#[trigger] n.emitted[i] as nat) < n.next,
{
}

} // verus!

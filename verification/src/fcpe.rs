//! FCPE: streaming bookkeeping.
//!
//! The model maps audio at 16 kHz to one f0 value per 160-sample hop, frame
//! `j` centred at input sample `160 j`. The stream keeps 32 hops of left
//! context and runs once 32 hops of new audio have arrived; only frames
//! covering new audio are emitted, and the buffer always starts on the
//! frame grid, so frame `k` is centred at stream sample `160 k`.
use vstd::prelude::*;
use crate::samples::{FrameSlot, append_samples, copy_range, drop_front, first_indices};

verus! {

/// Sample rate FCPE runs at.
pub const SAMPLE_RATE: u32 = 16000;
/// Samples per output frame (10 ms).
pub const HOP: usize = 160;
/// Left-context audio kept across runs.
pub const CONTEXT_SAMPLES: usize = 5120;
/// New audio needed before the model runs again.
pub const MIN_FRESH_SAMPLES: usize = 5120;

/// Streaming buffer of an FCPE estimator.
pub struct FcpeStream<T> {
    buffer: Vec<T>,
    context_held: usize,
    next_frame_index: u64,
    stream: Ghost<Seq<T>>,
    emitted: Ghost<Seq<u64>>,
}

/// Mathematical state of an [`FcpeStream`].
pub struct FcpeModel<T> {
    /// Every sample appended since the stream was created or reset.
    pub stream: Seq<T>,
    /// The tail of `stream` still held: context audio followed by audio not
    /// yet covered by emitted frames.
    pub buffer: Seq<T>,
    /// Leading samples of `buffer` already covered by emitted frames.
    pub context_held: nat,
    /// Absolute index of the next frame.
    pub next_frame_index: nat,
    /// The indices of every frame emitted so far, in order.
    pub emitted: Seq<u64>,
}

/// Stream position of the first sample of the buffer.
pub open spec fn fcpe_origin<T>(m: FcpeModel<T>) -> int {
    m.stream.len() - m.buffer.len()
}

/// Well-formedness of an FCPE stream.
pub open spec fn fcpe_wf<T>(m: FcpeModel<T>) -> bool {
    &&& m.buffer.len() <= m.stream.len()
    &&& m.buffer.len() <= usize::MAX
    &&& m.buffer == m.stream.skip(fcpe_origin(m))
    &&& m.context_held <= m.buffer.len()
    &&& m.context_held <= CONTEXT_SAMPLES
    &&& m.context_held % 160 == 0
    &&& fcpe_origin(m) + m.context_held == 160 * m.next_frame_index
    &&& m.emitted == first_indices(m.next_frame_index)
}

/// Frames of model output that cover context audio.
pub open spec fn fcpe_context_frames<T>(m: FcpeModel<T>) -> nat {
    m.context_held / 160
}

/// Frames that cover new audio.
pub open spec fn fcpe_fresh_frames<T>(m: FcpeModel<T>) -> nat {
    ((m.buffer.len() - m.context_held) as nat) / 160
}

/// Frames of context kept for the next run: the newest covered frames, up
/// to `CONTEXT_SAMPLES` worth.
pub open spec fn fcpe_kept_frames<T>(m: FcpeModel<T>) -> nat {
    let covered = fcpe_context_frames(m) + fcpe_fresh_frames(m);
    if covered < 32 {
        covered
    } else {
        32
    }
}

/// The frames emitted after a run: the fresh frames in order.
pub open spec fn fcpe_slots<T>(m: FcpeModel<T>) -> Seq<FrameSlot> {
    Seq::new(
        fcpe_fresh_frames(m),
        |i: int|
            FrameSlot {
                frame_index: (m.next_frame_index + i) as u64,
                position: (fcpe_context_frames(m) + i) as usize,
                is_preliminary: false,
            },
    )
}

/// The frame indices of a run's slots, in order.
pub open spec fn slot_indices(slots: Seq<FrameSlot>) -> Seq<u64> {
    slots.map_values(|s: FrameSlot| s.frame_index)
}

/// The state after a run's frames are emitted: the covered hops leave the
/// buffer except the kept context, and the unaligned tail stays.
pub open spec fn fcpe_after<T>(m: FcpeModel<T>) -> FcpeModel<T> {
    let covered = fcpe_context_frames(m) + fcpe_fresh_frames(m);
    FcpeModel {
        stream: m.stream,
        buffer: m.buffer.skip(160 * (covered - fcpe_kept_frames(m))),
        context_held: 160 * fcpe_kept_frames(m),
        next_frame_index: m.next_frame_index + fcpe_fresh_frames(m),
        emitted: m.emitted + slot_indices(fcpe_slots(m)),
    }
}

impl<T> View for FcpeStream<T> {
    type V = FcpeModel<T>;

    closed spec fn view(&self) -> FcpeModel<T> {
        FcpeModel {
            stream: self.stream@,
            buffer: self.buffer@,
            context_held: self.context_held as nat,
            next_frame_index: self.next_frame_index as nat,
            emitted: self.emitted@,
        }
    }
}

/// Arithmetic facts about one run.
proof fn lemma_fcpe_shape<T>(m: FcpeModel<T>)
    requires
        fcpe_wf(m),
    ensures
        m.context_held == 160 * fcpe_context_frames(m),
        fcpe_context_frames(m) <= 32,
        fcpe_context_frames(m) <= m.next_frame_index,
        160 * (fcpe_context_frames(m) + fcpe_fresh_frames(m)) <= m.buffer.len(),
        m.buffer.len() < 160 * (fcpe_context_frames(m) + fcpe_fresh_frames(m)) + 160,
        fcpe_context_frames(m) + fcpe_fresh_frames(m) <= m.buffer.len() / 160,
{
    let h = m.context_held as int;
    let r = m.buffer.len() - h;
    vstd::arithmetic::div_mod::lemma_fundamental_div_mod(h, 160);
    vstd::arithmetic::div_mod::lemma_fundamental_div_mod(r, 160);
    vstd::arithmetic::div_mod::lemma_fundamental_div_mod(m.buffer.len() as int, 160);
    let c = fcpe_context_frames(m) + fcpe_fresh_frames(m);
    assert(c <= m.buffer.len() / 160) by {
        vstd::arithmetic::div_mod::lemma_div_is_ordered((160 * c) as int, m.buffer.len() as int, 160);
        vstd::arithmetic::div_mod::lemma_div_multiples_vanish(c as int, 160);
    }
}

/// A run keeps the stream well formed.
proof fn lemma_fcpe_after_wf<T>(m: FcpeModel<T>)
    requires
        fcpe_wf(m),
        m.next_frame_index + fcpe_fresh_frames(m) <= u64::MAX,
    ensures
        fcpe_wf(fcpe_after(m)),
{
    lemma_fcpe_shape(m);
    let a = fcpe_after(m);
    assert(a.buffer =~= a.stream.skip(fcpe_origin(a)));
    vstd::arithmetic::div_mod::lemma_mod_multiples_basic(fcpe_kept_frames(m) as int, 160);
    assert(a.emitted =~= first_indices(a.next_frame_index));
}

impl<T: Copy> FcpeStream<T> {
    /// Well-formedness of this stream.
    pub open spec fn wf(&self) -> bool {
        fcpe_wf(self@)
    }

    /// An empty stream.
    pub fn new() -> (s: Self)
        ensures
            s.wf(),
            s@.stream == Seq::<T>::empty(),
            s@.buffer == Seq::<T>::empty(),
            s@.context_held == 0,
            s@.next_frame_index == 0,
            s@.emitted == Seq::<u64>::empty(),
    {
        let s = FcpeStream {
            buffer: Vec::new(),
            context_held: 0,
            next_frame_index: 0,
            stream: Ghost(Seq::empty()),
            emitted: Ghost(Seq::empty()),
        };
        assert(s@.buffer =~= s@.stream.skip(0));
        assert(s@.emitted =~= first_indices(0));
        s
    }

    /// Absolute index of the next frame.
    pub fn next_frame_index(&self) -> (r: u64)
        ensures
            r == self@.next_frame_index,
    {
        self.next_frame_index
    }

    /// Number of model output rows the next [`finish`](Self::finish) reads:
    /// the context frames followed by the fresh frames.
    pub fn frames_needed(&self) -> (r: usize)
        requires
            self.wf(),
        ensures
            r == fcpe_context_frames(self@) + fcpe_fresh_frames(self@),
    {
        proof {
            lemma_fcpe_shape(self@);
        }
        self.context_held / HOP + (self.buffer.len() - self.context_held) / HOP
    }

    /// Number of samples held.
    pub fn buffered(&self) -> (r: usize)
        ensures
            r == self@.buffer.len(),
    {
        self.buffer.len()
    }

    /// Forgets the buffered audio and restarts frame numbering at zero.
    pub fn reset(&mut self)
        ensures
            final(self).wf(),
            final(self)@.stream == Seq::<T>::empty(),
            final(self)@.buffer == Seq::<T>::empty(),
            final(self)@.context_held == 0,
            final(self)@.next_frame_index == 0,
            final(self)@.emitted == Seq::<u64>::empty(),
    {
        self.buffer.clear();
        self.context_held = 0;
        self.next_frame_index = 0;
        self.stream = Ghost(Seq::empty());
        self.emitted = Ghost(Seq::empty());
        assert(self@.buffer =~= self@.stream.skip(0));
        assert(self@.emitted =~= first_indices(0));
    }

    /// Appends `audio`. Once enough new audio has arrived, returns the whole
    /// buffer, which the model must now run on; it starts on the frame grid.
    pub fn begin(&mut self, audio: &[T]) -> (input: Option<Vec<T>>)
        requires
            old(self).wf(),
            old(self)@.buffer.len() + audio@.len() <= usize::MAX,
        ensures
            final(self).wf(),
            final(self)@ == (FcpeModel {
                stream: old(self)@.stream + audio@,
                buffer: old(self)@.buffer + audio@,
                ..old(self)@
            }),
            input is Some <==> final(self)@.buffer.len() - final(self)@.context_held
                >= MIN_FRESH_SAMPLES,
            input matches Some(v) ==> {
                &&& v@ == final(self)@.buffer
                &&& v@ == final(self)@.stream.skip(fcpe_origin(final(self)@))
                &&& fcpe_origin(final(self)@) % 160 == 0
            },
    {
        let ghost s0 = self@;
        append_samples(&mut self.buffer, audio);
        self.stream = Ghost(self.stream@ + audio@);
        proof {
            assert(self@.buffer =~= self@.stream.skip(fcpe_origin(self@)));
        }
        if self.buffer.len() - self.context_held < MIN_FRESH_SAMPLES {
            return None;
        }
        let v = copy_range(&self.buffer, 0, self.buffer.len());
        proof {
            assert(v@ =~= self@.buffer);
            lemma_fcpe_shape(s0);
            vstd::arithmetic::div_mod::lemma_mod_multiples_basic(
                s0.next_frame_index - fcpe_context_frames(s0),
                160,
            );
        }
        Some(v)
    }

    /// Given a model output of `output_frames` rows for the input of
    /// [`begin`](Self::begin), lists the frames to emit and keeps the
    /// trailing context for the next run.
    pub fn finish(&mut self, output_frames: usize) -> (slots: Vec<FrameSlot>)
        requires
            old(self).wf(),
            fcpe_context_frames(old(self)@) + fcpe_fresh_frames(old(self)@) <= output_frames,
            old(self)@.next_frame_index + fcpe_fresh_frames(old(self)@) <= u64::MAX,
        ensures
            final(self).wf(),
            final(self)@ == fcpe_after(old(self)@),
            slots@ == fcpe_slots(old(self)@),
            forall|k: int| 0 <= k < slots@.len() ==> (#[trigger] slots@[k].position) < output_frames,
    {
        let ghost m = self@;
        proof {
            lemma_fcpe_shape(m);
        }
        let ctx = self.context_held / HOP;
        let fresh = (self.buffer.len() - self.context_held) / HOP;
        let mut out: Vec<FrameSlot> = Vec::new();
        let mut i: usize = 0;
        while i < fresh
            invariant
                i <= fresh,
                fresh == fcpe_fresh_frames(m),
                ctx == fcpe_context_frames(m),
                ctx + fresh <= output_frames,
                self@ == m,
                m.next_frame_index + fresh <= u64::MAX,
                out@ == fcpe_slots(m).take(i as int),
            decreases fresh - i,
        {
            out.push(
                FrameSlot {
                    frame_index: self.next_frame_index + i as u64,
                    position: ctx + i,
                    is_preliminary: false,
                },
            );
            i = i + 1;
            assert(out@ =~= fcpe_slots(m).take(i as int));
        }
        assert(fcpe_slots(m).take(fresh as int) =~= fcpe_slots(m));
        self.next_frame_index = self.next_frame_index + fresh as u64;
        let kept = if ctx + fresh < 32 {
            ctx + fresh
        } else {
            32
        };
        drop_front(&mut self.buffer, HOP * (ctx + fresh - kept));
        self.context_held = HOP * kept;
        self.emitted = Ghost(self.emitted@ + slot_indices(out@));
        proof {
            lemma_fcpe_after_wf(m);
        }
        out
    }
}

/// Law: frame `k` is centred at stream sample `160 k`. Row `r` of a run's
/// output is centred at input sample `160 r`, the input starts at stream
/// sample `fcpe_origin`, and every emitted frame reads the row centred at
/// `160 * frame_index`, which the output has.
pub proof fn lemma_fcpe_frames_on_grid<T>(m: FcpeModel<T>, output_frames: nat, k: int)
    requires
        fcpe_wf(m),
        fcpe_context_frames(m) + fcpe_fresh_frames(m) <= output_frames,
        m.next_frame_index + fcpe_fresh_frames(m) <= u64::MAX,
        0 <= k < fcpe_slots(m).len(),
    ensures
        fcpe_origin(m) + 160 * fcpe_slots(m)[k].position == 160 * fcpe_slots(m)[k].frame_index,
        (fcpe_slots(m)[k].position as nat) < output_frames,
        160 * fcpe_slots(m)[k].position < m.buffer.len(),
{
    lemma_fcpe_shape(m);
}

/// Law: over the whole stream, the emitted frames are `0, 1, 2, ..` in
/// order, each exactly once: every run appends the next indices.
pub proof fn lemma_fcpe_indices_contiguous<T>(m: FcpeModel<T>)
    requires
        fcpe_wf(m),
        m.next_frame_index + fcpe_fresh_frames(m) <= u64::MAX,
    ensures
        fcpe_after(m).emitted == first_indices(fcpe_after(m).next_frame_index),
        fcpe_after(m).emitted == m.emitted + slot_indices(fcpe_slots(m)),
        forall|i: int, j: int|
            0 <= i < j < fcpe_after(m).emitted.len() ==> fcpe_after(m).emitted[i]
                < fcpe_after(m).emitted[j],
{
    lemma_fcpe_after_wf(m);
}

/// Law (nothing left behind): after a run, less than one hop of audio in
/// the buffer is not yet covered by an emitted frame; every whole hop of
/// new audio got its frame.
pub proof fn lemma_fcpe_covers_fresh_audio<T>(m: FcpeModel<T>)
    requires
        fcpe_wf(m),
    ensures
        fcpe_after(m).buffer.len() - fcpe_after(m).context_held < HOP,
        fcpe_after(m).context_held <= fcpe_after(m).buffer.len(),
{
    lemma_fcpe_shape(m);
}

/// Law: the stream's memory stays bounded: while it waits it holds less
/// than `CONTEXT_SAMPLES + MIN_FRESH_SAMPLES` samples, and after a run it
/// keeps at most `CONTEXT_SAMPLES` plus less than one hop.
pub proof fn lemma_fcpe_bounded<T>(m: FcpeModel<T>)
    requires
        fcpe_wf(m),
    ensures
        m.buffer.len() - m.context_held < MIN_FRESH_SAMPLES ==> m.buffer.len() < CONTEXT_SAMPLES
            + MIN_FRESH_SAMPLES,
        fcpe_after(m).buffer.len() < CONTEXT_SAMPLES + HOP,
{
    lemma_fcpe_shape(m);
}

} // verus!

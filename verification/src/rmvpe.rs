//! RMVPE: streaming bookkeeping and the layout of the model input.
//!
//! Mel frames are taken every 160 samples over 1024-sample windows of 16 kHz
//! audio (no centering). The stream runs the model once 32 fresh frames are
//! available on top of 32 frames of left context, and emits the fresh frames.
//! The buffer always starts on the frame grid, so frame `k` is computed from
//! stream samples `[160 k, 160 k + 1024)`.
use vstd::prelude::*;
use crate::framer::{frames_ready, windows_of};
use crate::samples::{FrameSlot, append_samples, drop_front, first_indices};

verus! {

/// Sample rate RMVPE runs at.
pub const SAMPLE_RATE: u32 = 16000;
/// Samples per STFT window.
pub const N_FFT: usize = 1024;
/// Samples between consecutive mel frames (10 ms).
pub const HOP: usize = 160;
/// Mel bands per frame.
pub const N_MELS: usize = 128;
/// The model input length is padded to a multiple of this many frames.
pub const PAD_MULT: usize = 32;
/// Salience bins per output frame (20 cents each).
pub const N_BINS: usize = 360;
/// Frames of left context kept across runs.
pub const CONTEXT_FRAMES: usize = 32;
/// Fresh frames needed before the model runs again.
pub const MIN_FRESH_FRAMES: usize = 32;

/// How one run is laid out.
#[derive(Debug, Clone, Copy, PartialEq, Eq, Structural)]
pub struct RmvpePlan {
    /// Mel frames that fit in the buffer.
    pub total_frames: usize,
    /// Leading frames that only provide context.
    pub context_frames: usize,
    /// Frames in the model input after zero padding.
    pub padded_frames: usize,
}

/// Streaming buffer of an RMVPE estimator.
pub struct RmvpeStream<T> {
    buffer: Vec<T>,
    context_audio_held: usize,
    next_frame_index: u64,
    stream: Ghost<Seq<T>>,
    emitted: Ghost<Seq<u64>>,
}

/// Mathematical state of an [`RmvpeStream`].
pub struct RmvpeModel<T> {
    /// Every sample appended since the stream was created or reset.
    pub stream: Seq<T>,
    /// The tail of `stream` still held.
    pub buffer: Seq<T>,
    /// Leading samples of `buffer` whose frames were already emitted.
    pub context_audio_held: nat,
    /// Absolute index of the next frame.
    pub next_frame_index: nat,
    /// The indices of every frame emitted so far, in order.
    pub emitted: Seq<u64>,
}

/// Stream position of the first sample of the buffer.
pub open spec fn rmvpe_origin<T>(m: RmvpeModel<T>) -> int {
    m.stream.len() - m.buffer.len()
}

/// Mel frames that fit in the buffer.
pub open spec fn rmvpe_total_frames<T>(m: RmvpeModel<T>) -> nat {
    frames_ready(m.buffer.len(), N_FFT as nat, HOP as nat)
}

/// Leading frames that only provide context.
pub open spec fn rmvpe_context_frames<T>(m: RmvpeModel<T>) -> nat {
    m.context_audio_held / 160
}

/// Enough fresh frames have arrived for a run.
pub open spec fn rmvpe_ready<T>(m: RmvpeModel<T>) -> bool {
    rmvpe_total_frames(m) >= rmvpe_context_frames(m) + MIN_FRESH_FRAMES
}

/// The smallest multiple of 32 that is at least `n`.
pub open spec fn padded_len(n: nat) -> nat {
    (n + (32 - n % 32) % 32) as nat
}

/// The frames emitted after a run: every fresh frame, in order.
pub open spec fn rmvpe_slots<T>(m: RmvpeModel<T>) -> Seq<FrameSlot> {
    Seq::new(
        (rmvpe_total_frames(m) - rmvpe_context_frames(m)) as nat,
        |i: int|
            FrameSlot {
                frame_index: (m.next_frame_index + i) as u64,
                position: (rmvpe_context_frames(m) + i) as usize,
                is_preliminary: false,
            },
    )
}

/// The state after a run's frames are emitted: the buffer drops whole hops
/// so that it starts at the window of the first of the last
/// `CONTEXT_FRAMES` frames, which stay as context.
pub open spec fn rmvpe_after<T>(m: RmvpeModel<T>) -> RmvpeModel<T> {
    RmvpeModel {
        stream: m.stream,
        buffer: m.buffer.skip(160 * (rmvpe_total_frames(m) - CONTEXT_FRAMES)),
        context_audio_held: (CONTEXT_FRAMES * HOP) as nat,
        next_frame_index: (m.next_frame_index + rmvpe_total_frames(m) - rmvpe_context_frames(m))
            as nat,
        emitted: m.emitted + rmvpe_slots(m).map_values(|s: FrameSlot| s.frame_index),
    }
}

/// Well-formedness of an RMVPE stream.
pub open spec fn rmvpe_wf<T>(m: RmvpeModel<T>) -> bool {
    &&& m.buffer.len() <= m.stream.len()
    &&& m.buffer.len() <= usize::MAX
    &&& m.buffer == m.stream.skip(rmvpe_origin(m))
    &&& m.context_audio_held == 0 || m.context_audio_held == CONTEXT_FRAMES * HOP
    &&& m.context_audio_held <= m.buffer.len()
    &&& rmvpe_origin(m) + m.context_audio_held == 160 * m.next_frame_index
    &&& m.emitted == first_indices(m.next_frame_index)
}

/// A run keeps the stream well formed.
proof fn lemma_rmvpe_after_wf<T>(m: RmvpeModel<T>)
    requires
        rmvpe_wf(m),
        rmvpe_ready(m),
        m.next_frame_index + (rmvpe_total_frames(m) - rmvpe_context_frames(m)) <= u64::MAX,
    ensures
        rmvpe_wf(rmvpe_after(m)),
        160 * (rmvpe_total_frames(m) - CONTEXT_FRAMES) <= m.buffer.len(),
        rmvpe_after(m).buffer.len() < N_FFT + CONTEXT_FRAMES * HOP,
{
    crate::framer::lemma_frames_ready_bounds(m.buffer.len(), 1024, 160);
    let t = rmvpe_total_frames(m);
    let a = rmvpe_after(m);
    assert(a.buffer =~= a.stream.skip(rmvpe_origin(a)));
    assert(a.emitted =~= first_indices(a.next_frame_index));
    assert(t * 160 == 160 * t) by (nonlinear_arith);
}

/// The model input cell at mel band `row`, frame `col`: the frame's value
/// for a real frame, `fill` for a padding frame.
pub open spec fn mel_cell<T>(columns: Seq<Vec<T>>, fill: T, row: int, col: int) -> T {
    if col < columns.len() {
        columns[col]@[row]
    } else {
        fill
    }
}

/// Law (model input layout): in the band-major layout of `padded` frames,
/// band `row` of frame `col` sits at `row * padded + col`; it is the
/// frame's own value for each real frame, and the fill value only for the
/// padding frames past the real ones.
pub proof fn lemma_layout_reads_columns<T>(
    columns: Seq<Vec<T>>,
    fill: T,
    rows: nat,
    padded: nat,
    row: int,
    col: int,
)
    requires
        0 <= row < rows,
        0 <= col < padded,
    ensures
        0 <= row * padded + col < rows * padded,
        Seq::new(
            rows * padded,
            |k: int| mel_cell(columns, fill, k / padded as int, k % padded as int),
        )[row * padded + col] == if col < columns.len() {
            columns[col]@[row]
        } else {
            fill
        },
{
    let k = row * padded + col;
    assert(0 <= k < rows * padded) by (nonlinear_arith)
        requires
            0 <= row < rows,
            0 <= col < padded,
            k == row * padded + col,
    ;
    vstd::arithmetic::div_mod::lemma_fundamental_div_mod_converse(k, padded as int, row, col);
}

/// The smallest multiple of `PAD_MULT` that is at least `n`.
pub fn padded_frames(n: usize) -> (r: usize)
    requires
        n + PAD_MULT <= usize::MAX,
    ensures
        r == padded_len(n as nat),
        r % 32 == 0,
        n <= r < n + 32,
{
    n + (PAD_MULT - n % PAD_MULT) % PAD_MULT
}

/// Lays frames out band-major (`[rows][padded]`, row after row) as the model
/// reads them, filling the frames past `columns.len()` with `fill`.
pub fn layout_frames<T: Copy>(columns: &Vec<Vec<T>>, rows: usize, padded: usize, fill: T) -> (out:
    Vec<T>)
    requires
        columns@.len() <= padded,
        forall|t: int| 0 <= t < columns@.len() ==> (#[trigger] columns@[t])@.len() == rows,
        rows * padded <= usize::MAX,
    ensures
        out@ == Seq::new(
            (rows * padded) as nat,
            |k: int| mel_cell(columns@, fill, k / padded as int, k % padded as int),
        ),
        forall|row: int, col: int|
            0 <= row < rows && 0 <= col < padded ==> #[trigger] out@[row * padded + col] == if col
                < columns@.len() {
                columns@[col]@[row]
            } else {
                fill
            },
{
    let mut out: Vec<T> = Vec::new();
    let mut m: usize = 0;
    let ghost target = Seq::new(
        (rows * padded) as nat,
        |k: int| mel_cell(columns@, fill, k / padded as int, k % padded as int),
    );
    while m < rows
        invariant
            m <= rows,
            columns@.len() <= padded,
            forall|t: int| 0 <= t < columns@.len() ==> (#[trigger] columns@[t])@.len() == rows,
            rows * padded <= usize::MAX,
            target == Seq::new(
                (rows * padded) as nat,
                |k: int| mel_cell(columns@, fill, k / padded as int, k % padded as int),
            ),
            out@.len() == m * padded,
            out@ == target.take((m * padded) as int),
        decreases rows - m,
    {
        let mut t: usize = 0;
        while t < padded
            invariant
                m < rows,
                t <= padded,
                columns@.len() <= padded,
                forall|t: int| 0 <= t < columns@.len() ==> (#[trigger] columns@[t])@.len() == rows,
                rows * padded <= usize::MAX,
                target == Seq::new(
                    (rows * padded) as nat,
                    |k: int| mel_cell(columns@, fill, k / padded as int, k % padded as int),
                ),
                out@.len() == m * padded + t,
                out@ == target.take((m * padded + t) as int),
            decreases padded - t,
        {
            let v = if t < columns.len() {
                columns[t][m]
            } else {
                fill
            };
            proof {
                let k = m * padded + t;
                assert(k < rows * padded) by (nonlinear_arith)
                    requires
                        m < rows,
                        t < padded,
                        k == m * padded + t,
                ;
                vstd::arithmetic::div_mod::lemma_fundamental_div_mod_converse(
                    k as int,
                    padded as int,
                    m as int,
                    t as int,
                );
                assert(target[k as int] == v);
            }
            out.push(v);
            t = t + 1;
            assert(out@ =~= target.take((m * padded + t) as int));
        }
        assert((m + 1) * padded == m * padded + padded) by (nonlinear_arith);
        m = m + 1;
    }
    assert(out@ =~= target);
    assert forall|row: int, col: int| 0 <= row < rows && 0 <= col < padded implies #[trigger] out@[row
        * padded + col] == if col < columns@.len() {
        columns@[col]@[row]
    } else {
        fill
    } by {
        lemma_layout_reads_columns(columns@, fill, rows as nat, padded as nat, row, col);
    }
    out
}

impl<T> View for RmvpeStream<T> {
    type V = RmvpeModel<T>;

    closed spec fn view(&self) -> RmvpeModel<T> {
        RmvpeModel {
            stream: self.stream@,
            buffer: self.buffer@,
            context_audio_held: self.context_audio_held as nat,
            next_frame_index: self.next_frame_index as nat,
            emitted: self.emitted@,
        }
    }
}

impl<T: Copy> RmvpeStream<T> {
    /// Well-formedness of this stream.
    pub open spec fn wf(&self) -> bool {
        rmvpe_wf(self@)
    }

    /// An empty stream.
    pub fn new() -> (s: Self)
        ensures
            s.wf(),
            s@.stream == Seq::<T>::empty(),
            s@.buffer == Seq::<T>::empty(),
            s@.context_audio_held == 0,
            s@.next_frame_index == 0,
            s@.emitted == Seq::<u64>::empty(),
    {
        let s = RmvpeStream {
            buffer: Vec::new(),
            context_audio_held: 0,
            next_frame_index: 0,
            stream: Ghost(Seq::empty()),
            emitted: Ghost(Seq::empty()),
        };
        assert(s@.buffer =~= s@.stream.skip(0));
        assert(s@.emitted =~= first_indices(0));
        s
    }

    /// Absolute index of the next frame.
    pub fn next_frame_index(&self) -> (r: u64)
        ensures
            r == self@.next_frame_index,
    {
        self.next_frame_index
    }

    /// Number of samples held.
    pub fn buffered(&self) -> (r: usize)
        ensures
            r == self@.buffer.len(),
    {
        self.buffer.len()
    }

    /// Forgets the buffered audio and restarts frame numbering at zero.
    pub fn reset(&mut self)
        ensures
            final(self).wf(),
            final(self)@.stream == Seq::<T>::empty(),
            final(self)@.buffer == Seq::<T>::empty(),
            final(self)@.context_audio_held == 0,
            final(self)@.next_frame_index == 0,
            final(self)@.emitted == Seq::<u64>::empty(),
    {
        self.buffer.clear();
        self.context_audio_held = 0;
        self.next_frame_index = 0;
        self.stream = Ghost(Seq::empty());
        self.emitted = Ghost(Seq::empty());
        assert(self@.buffer =~= self@.stream.skip(0));
        assert(self@.emitted =~= first_indices(0));
    }

    /// Appends `audio`. Once enough fresh frames have arrived, returns how
    /// the run is laid out.
    pub fn begin(&mut self, audio: &[T]) -> (plan: Option<RmvpePlan>)
        requires
            old(self).wf(),
            old(self)@.buffer.len() + audio@.len() <= usize::MAX,
        ensures
            final(self).wf(),
            final(self)@ == (RmvpeModel {
                stream: old(self)@.stream + audio@,
                buffer: old(self)@.buffer + audio@,
                ..old(self)@
            }),
            plan is Some <==> rmvpe_ready(final(self)@),
            plan matches Some(p) ==> {
                &&& p.total_frames == rmvpe_total_frames(final(self)@)
                &&& p.context_frames == rmvpe_context_frames(final(self)@)
                &&& p.padded_frames == padded_len(p.total_frames as nat)
            },
    {
        append_samples(&mut self.buffer, audio);
        self.stream = Ghost(self.stream@ + audio@);
        proof {
            assert(self@.buffer =~= self@.stream.skip(rmvpe_origin(self@)));
        }
        let len = self.buffer.len();
        let total = if len >= N_FFT {
            (len - N_FFT) / HOP + 1
        } else {
            0
        };
        let ctx = self.context_audio_held / HOP;
        if total < ctx + MIN_FRESH_FRAMES {
            return None;
        }
        Some(RmvpePlan { total_frames: total, context_frames: ctx, padded_frames: padded_frames(total) })
    }

    /// Copies of the STFT windows of every mel frame in the buffer; window
    /// `f` is buffer samples `[f * HOP, f * HOP + N_FFT)`, which are stream
    /// samples `rmvpe_origin + f * HOP` on.
    pub fn frame_windows(&self) -> (r: Vec<Vec<T>>)
        requires
            self.wf(),
        ensures
            rmvpe_origin(self@) % 160 == 0,
            r@.len() == rmvpe_total_frames(self@),
            forall|f: int|
                #![trigger r@[f]]
                0 <= f < r@.len() ==> {
                    &&& r@[f]@ == self@.buffer.subrange(f * 160, f * 160 + 1024)
                    &&& r@[f]@ == self@.stream.subrange(
                        rmvpe_origin(self@) + f * 160,
                        rmvpe_origin(self@) + f * 160 + 1024,
                    )
                },
    {
        let r = windows_of(&self.buffer, N_FFT, HOP);
        proof {
            let m = self@;
            if m.context_audio_held == 0 {
                vstd::arithmetic::div_mod::lemma_mod_multiples_basic(m.next_frame_index as int, 160);
            } else {
                vstd::arithmetic::div_mod::lemma_mod_multiples_basic(m.next_frame_index - 32, 160);
            }
            crate::framer::lemma_frames_ready_bounds(self@.buffer.len(), 1024, 160);
            assert forall|f: int| 0 <= f < r@.len() implies #[trigger] r@[f]@ == self@.stream.subrange(
                rmvpe_origin(self@) + f * 160,
                rmvpe_origin(self@) + f * 160 + 1024,
            ) by {
                let t = r@.len();
                assert(f * 160 + 1024 <= (t - 1) * 160 + 1024) by (nonlinear_arith)
                    requires
                        f <= t - 1,
                ;
                assert(r@[f]@ =~= self@.stream.subrange(
                    rmvpe_origin(self@) + f * 160,
                    rmvpe_origin(self@) + f * 160 + 1024,
                ));
            }
        }
        r
    }

    /// After the model ran on the plan of [`begin`](Self::begin), lists the
    /// fresh frames to emit and keeps the context for the next run.
    pub fn finish(&mut self) -> (slots: Vec<FrameSlot>)
        requires
            old(self).wf(),
            rmvpe_ready(old(self)@),
            old(self)@.next_frame_index + (rmvpe_total_frames(old(self)@) - rmvpe_context_frames(
                old(self)@,
            )) <= u64::MAX,
        ensures
            final(self).wf(),
            final(self)@ == rmvpe_after(old(self)@),
            slots@ == rmvpe_slots(old(self)@),
    {
        let ghost m = self@;
        proof {
            lemma_rmvpe_after_wf(m);
        }
        let len = self.buffer.len();
        let total = if len >= N_FFT {
            (len - N_FFT) / HOP + 1
        } else {
            0
        };
        let ctx = self.context_audio_held / HOP;
        let fresh = total - ctx;
        let mut out: Vec<FrameSlot> = Vec::new();
        let mut i: usize = 0;
        while i < fresh
            invariant
                i <= fresh,
                fresh == rmvpe_total_frames(m) - rmvpe_context_frames(m),
                ctx == rmvpe_context_frames(m),
                ctx + fresh == total,
                self@ == m,
                m.next_frame_index + fresh <= u64::MAX,
                out@ == rmvpe_slots(m).take(i as int),
            decreases fresh - i,
        {
            out.push(
                FrameSlot {
                    frame_index: self.next_frame_index + i as u64,
                    position: ctx + i,
                    is_preliminary: false,
                },
            );
            i = i + 1;
            assert(out@ =~= rmvpe_slots(m).take(i as int));
        }
        assert(rmvpe_slots(m).take(fresh as int) =~= rmvpe_slots(m));
        self.next_frame_index = self.next_frame_index + fresh as u64;
        drop_front(&mut self.buffer, HOP * (total - CONTEXT_FRAMES));
        self.context_audio_held = CONTEXT_FRAMES * HOP;
        self.emitted = Ghost(self.emitted@ + out@.map_values(|s: FrameSlot| s.frame_index));
        out
    }
}

/// Law: frame `k` is computed from stream samples `[160 k, 160 k + 1024)`.
/// Every emitted frame reads a row of the (unpadded) model output whose
/// window starts at stream sample `160 * frame_index`, and the emitted
/// frames are exactly those past the context, in order.
pub proof fn lemma_rmvpe_frames_on_grid<T>(m: RmvpeModel<T>, i: int)
    requires
        rmvpe_wf(m),
        rmvpe_ready(m),
        m.next_frame_index + (rmvpe_total_frames(m) - rmvpe_context_frames(m)) <= u64::MAX,
        0 <= i < rmvpe_slots(m).len(),
    ensures
        rmvpe_context_frames(m) <= rmvpe_slots(m)[i].position < rmvpe_total_frames(m),
        rmvpe_slots(m)[i].frame_index == m.next_frame_index + i,
        rmvpe_origin(m) + 160 * rmvpe_slots(m)[i].position == 160 * rmvpe_slots(m)[i].frame_index,
        160 * rmvpe_slots(m)[i].position + N_FFT <= m.buffer.len(),
{
    crate::framer::lemma_frames_ready_bounds(m.buffer.len(), 1024, 160);
    let t = rmvpe_total_frames(m);
    let p = rmvpe_slots(m)[i].position;
    assert(rmvpe_total_frames(m) <= m.buffer.len()) by (nonlinear_arith)
        requires
            rmvpe_total_frames(m) * 160 <= m.buffer.len(),
    ;
    assert(160 * p + 1024 <= (t - 1) * 160 + 1024) by (nonlinear_arith)
        requires
            p <= t - 1,
    ;
}

/// Law: over the whole stream, the emitted frames are `0, 1, 2, ..` in
/// order, each exactly once: every run appends the next indices.
pub proof fn lemma_rmvpe_indices_contiguous<T>(m: RmvpeModel<T>)
    requires
        rmvpe_wf(m),
        rmvpe_ready(m),
        m.next_frame_index + (rmvpe_total_frames(m) - rmvpe_context_frames(m)) <= u64::MAX,
    ensures
        rmvpe_after(m).emitted == first_indices(rmvpe_after(m).next_frame_index),
        rmvpe_after(m).emitted == m.emitted + rmvpe_slots(m).map_values(
            |s: FrameSlot| s.frame_index,
        ),
{
    lemma_rmvpe_after_wf(m);
}

/// Law (nothing left behind): after a run, the windows that fit in the
/// buffer are exactly the kept context frames; every complete window of new
/// audio got its frame.
pub proof fn lemma_rmvpe_covers_fresh_audio<T>(m: RmvpeModel<T>)
    requires
        rmvpe_wf(m),
        rmvpe_ready(m),
        m.next_frame_index + (rmvpe_total_frames(m) - rmvpe_context_frames(m)) <= u64::MAX,
    ensures
        rmvpe_total_frames(rmvpe_after(m)) == rmvpe_context_frames(rmvpe_after(m)),
        rmvpe_context_frames(rmvpe_after(m)) == CONTEXT_FRAMES,
{
    crate::framer::lemma_frames_ready_bounds(m.buffer.len(), 1024, 160);
    lemma_rmvpe_after_wf(m);
    let t = rmvpe_total_frames(m);
    let a = rmvpe_after(m);
    let len2 = a.buffer.len();
    assert(len2 == m.buffer.len() - 160 * (t - 32));
    assert(t * 160 == 160 * t) by (nonlinear_arith);
    assert((t - 1) * 160 == 160 * t - 160) by (nonlinear_arith)
        requires
            t >= 1,
    ;
    crate::framer::lemma_count_unique(len2, 1024, 160, 32);
}

/// Law: the stream's memory stays bounded: while it waits for fresh
/// frames it holds less than the audio of `CONTEXT_FRAMES + MIN_FRESH_FRAMES`
/// frames, and after a run it keeps the context frames' windows plus less
/// than one hop.
pub proof fn lemma_rmvpe_bounded<T>(m: RmvpeModel<T>)
    requires
        rmvpe_wf(m),
    ensures
        !rmvpe_ready(m) ==> m.buffer.len() < N_FFT + (CONTEXT_FRAMES + MIN_FRESH_FRAMES - 1)
            * HOP,
        rmvpe_ready(m) && m.next_frame_index + (rmvpe_total_frames(m) - rmvpe_context_frames(m))
            <= u64::MAX ==> rmvpe_after(m).buffer.len() < N_FFT + CONTEXT_FRAMES * HOP,
{
    crate::framer::lemma_frames_ready_bounds(m.buffer.len(), 1024, 160);
    let t = rmvpe_total_frames(m);
    if !rmvpe_ready(m) {
        assert(t * 160 + 1024 > m.buffer.len());
        assert(t <= 63);
        assert(t * 160 <= 63 * 160) by (nonlinear_arith)
            requires
                t <= 63,
        ;
    } else if m.next_frame_index + (rmvpe_total_frames(m) - rmvpe_context_frames(m)) <= u64::MAX {
        lemma_rmvpe_after_wf(m);
    }
}

} // verus!

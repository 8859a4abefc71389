//! A sliding-window framer: the buffering shared by the block-based
//! estimators (Praat autocorrelation, pYIN batches, PESTO chunks) and by the
//! resampler's fixed-size input chunks.
//!
//! Samples are appended as they arrive; every time the buffer holds a full
//! window, that window is handed out and the buffer advances by one hop.
use vstd::prelude::*;
use crate::samples::{append_samples, copy_range, drop_front};

verus! {

/// One window handed out by a framer: its absolute index since the start
/// of the stream, and a copy of its samples.
pub struct Window<T> {
    pub index: u64,
    pub samples: Vec<T>,
}

/// Sliding-window buffer over a stream of samples.
pub struct Framer<T> {
    window: usize,
    hop: usize,
    buffer: Vec<T>,
    next_index: u64,
    stream: Ghost<Seq<T>>,
}

/// Mathematical state of a [`Framer`].
pub struct FramerModel<T> {
    /// Samples per window.
    pub window: nat,
    /// Samples between the starts of consecutive windows.
    pub hop: nat,
    /// Samples held for windows still to come.
    pub buffer: Seq<T>,
    /// Index of the next window to be handed out.
    pub next_index: nat,
    /// Every sample pushed since construction or the last reset.
    pub stream: Seq<T>,
}

/// Number of windows of `window` samples, `hop` apart, that fit in `len` samples.
pub open spec fn frames_ready(len: nat, window: nat, hop: nat) -> nat
    recommends
        hop > 0,
{
    if len >= window {
        ((len - window) as nat / hop + 1) as nat
    } else {
        0
    }
}

/// Consistency of a framer's state: the buffer is the stream from the
/// start of the next window on, and a window was handed out only once the
/// stream reached its end.
pub open spec fn framer_ok<T>(m: FramerModel<T>) -> bool {
    &&& 0 < m.hop <= m.window
    &&& m.next_index * m.hop <= m.stream.len()
    &&& m.buffer == m.stream.skip((m.next_index * m.hop) as int)
    &&& m.next_index > 0 ==> m.buffer.len() + m.hop >= m.window
}

/// Well-formedness of a framer's state: consistent, and every complete
/// window has been handed out.
pub open spec fn framer_wf<T>(m: FramerModel<T>) -> bool {
    &&& framer_ok(m)
    &&& m.buffer.len() < m.window
}

/// The windows that one push of `audio` hands out.
pub open spec fn framer_emit<T>(m: FramerModel<T>, audio: Seq<T>) -> Seq<Seq<T>> {
    let all = m.buffer + audio;
    Seq::new(
        frames_ready(all.len(), m.window, m.hop),
        |i: int| all.subrange(i * m.hop, i * m.hop + m.window),
    )
}

/// The state after one push of `audio`.
pub open spec fn framer_after<T>(m: FramerModel<T>, audio: Seq<T>) -> FramerModel<T> {
    let all = m.buffer + audio;
    let c = frames_ready(all.len(), m.window, m.hop);
    FramerModel {
        window: m.window,
        hop: m.hop,
        buffer: all.skip((c * m.hop) as int),
        next_index: m.next_index + c,
        stream: m.stream + audio,
    }
}

/// The state of a fresh framer.
pub open spec fn framer_initial<T>(window: nat, hop: nat) -> FramerModel<T> {
    FramerModel { window, hop, buffer: Seq::empty(), next_index: 0, stream: Seq::empty() }
}

/// `c` is the number of windows that fit in `len` samples exactly when the
/// last of them fits and one more would not.
pub(crate) proof fn lemma_count_unique(len: nat, w: nat, h: nat, c: nat)
    requires
        h > 0,
        c * h + w > len,
        c > 0 ==> (c - 1) * h + w <= len,
    ensures
        c == frames_ready(len, w, h),
{
    if len < w {
        if c > 0 {
            assert((c - 1) * h >= 0) by (nonlinear_arith)
                requires
                    c >= 1,
                    h > 0,
            ;
        }
    } else {
        let d = (len - w) as nat;
        let q = d / h;
        let r = d % h;
        vstd::arithmetic::div_mod::lemma_fundamental_div_mod(d as int, h as int);
        assert(d == q * h + r && r < h);
        if c == 0 {
            assert(false);
        }
        assert(c == q + 1) by (nonlinear_arith)
            requires
                c * h > d,
                (c - 1) * h <= d,
                d == q * h + r,
                0 <= r < h,
                c >= 1,
        ;
    }
}

/// The number of windows that fit in `len` samples.
pub fn count_frames(len: usize, window: usize, hop: usize) -> (c: usize)
    requires
        0 < hop <= window,
    ensures
        c == frames_ready(len as nat, window as nat, hop as nat),
{
    if len >= window {
        (len - window) / hop + 1
    } else {
        0
    }
}

impl<T> View for Framer<T> {
    type V = FramerModel<T>;

    closed spec fn view(&self) -> FramerModel<T> {
        FramerModel {
            window: self.window as nat,
            hop: self.hop as nat,
            buffer: self.buffer@,
            next_index: self.next_index as nat,
            stream: self.stream@,
        }
    }
}

impl<T: Copy> Framer<T> {
    /// Well-formedness of this framer.
    pub open spec fn wf(&self) -> bool {
        framer_wf(self@)
    }

    /// A framer handing out windows of `window` samples every `hop` samples.
    pub fn new(window: usize, hop: usize) -> (f: Self)
        requires
            0 < hop <= window,
        ensures
            f@ == framer_initial::<T>(window as nat, hop as nat),
            f.wf(),
    {
        let f = Framer { window, hop, buffer: Vec::new(), next_index: 0, stream: Ghost(Seq::empty()) };
        assert(f@.stream.skip(0) =~= f@.buffer);
        assert(0 * f@.hop == 0);
        f
    }

    /// Samples per window.
    pub fn window(&self) -> (r: usize)
        ensures
            r == self@.window,
    {
        self.window
    }

    /// Samples between consecutive windows.
    pub fn hop(&self) -> (r: usize)
        ensures
            r == self@.hop,
    {
        self.hop
    }

    /// Index of the next window to be handed out.
    pub fn next_index(&self) -> (r: u64)
        ensures
            r == self@.next_index,
    {
        self.next_index
    }

    /// Number of samples waiting for a window.
    pub fn buffered(&self) -> (r: usize)
        ensures
            r == self@.buffer.len(),
    {
        self.buffer.len()
    }

    /// Forgets all buffered samples and restarts window numbering at zero.
    pub fn reset(&mut self)
        requires
            old(self).wf(),
        ensures
            final(self)@ == framer_initial::<T>(old(self)@.window, old(self)@.hop),
            final(self).wf(),
    {
        self.buffer.clear();
        self.next_index = 0;
        self.stream = Ghost(Seq::empty());
        assert(self@.stream.skip(0) =~= self@.buffer);
        assert(0 * self@.hop == 0);
    }

    /// Appends `audio` without handing out windows; take them one at a time
    /// with [`take_window`](Self::take_window).
    pub fn append(&mut self, audio: &[T])
        requires
            framer_ok(old(self)@),
            old(self)@.buffer.len() + audio@.len() <= usize::MAX,
        ensures
            framer_ok(final(self)@),
            final(self)@ == (FramerModel {
                buffer: old(self)@.buffer + audio@,
                stream: old(self)@.stream + audio@,
                ..old(self)@
            }),
    {
        let ghost m0 = self@;
        append_samples(&mut self.buffer, audio);
        self.stream = Ghost(m0.stream + audio@);
        assert(self@.buffer =~= self@.stream.skip((m0.next_index * m0.hop) as int));
    }

    /// Hands out the next window if the buffer holds all of it: window `k`
    /// is samples `[k * hop, k * hop + window)` of the stream. Otherwise
    /// returns `None` and changes nothing.
    pub fn take_window(&mut self) -> (w: Option<Window<T>>)
        requires
            framer_ok(old(self)@),
            old(self)@.next_index < u64::MAX,
        ensures
            framer_ok(final(self)@),
            w is None <==> old(self)@.buffer.len() < old(self)@.window,
            w is None ==> final(self)@ == old(self)@,
            w matches Some(x) ==> {
                &&& x.index == old(self)@.next_index
                &&& x.samples@ == old(self)@.stream.subrange(
                    (old(self)@.next_index * old(self)@.hop) as int,
                    (old(self)@.next_index * old(self)@.hop + old(self)@.window) as int,
                )
                &&& final(self)@ == (FramerModel {
                    buffer: old(self)@.buffer.skip(old(self)@.hop as int),
                    next_index: old(self)@.next_index + 1,
                    ..old(self)@
                })
            },
    {
        let ghost m0 = self@;
        if self.buffer.len() < self.window {
            return None;
        }
        let samples = copy_range(&self.buffer, 0, self.window);
        drop_front(&mut self.buffer, self.hop);
        let index = self.next_index;
        self.next_index = self.next_index + 1;
        proof {
            let h = m0.hop;
            let n = m0.next_index;
            assert((n + 1) * h == n * h + h) by (nonlinear_arith);
            assert(samples@ =~= m0.stream.subrange((n * h) as int, (n * h + m0.window) as int));
            assert(self@.buffer =~= self@.stream.skip(((n + 1) * h) as int));
        }
        Some(Window { index, samples })
    }

    /// Appends `audio` and hands out, in order, every window that is now
    /// complete.
    pub fn push(&mut self, audio: &[T]) -> (out: Vec<Window<T>>)
        requires
            old(self).wf(),
            old(self)@.buffer.len() + audio@.len() <= usize::MAX,
            old(self)@.next_index + frames_ready(
                old(self)@.buffer.len() + audio@.len(),
                old(self)@.window,
                old(self)@.hop,
            ) <= u64::MAX,
        ensures
            final(self).wf(),
            final(self)@ == framer_after(old(self)@, audio@),
            out@.len() == framer_emit(old(self)@, audio@).len(),
            forall|i: int|
                #![trigger out@[i]]
                0 <= i < out@.len() ==> {
                    &&& out@[i].index == old(self)@.next_index + i
                    &&& out@[i].samples@ == framer_emit(old(self)@, audio@)[i]
                },
    {
        let ghost m0 = self@;
        append_samples(&mut self.buffer, audio);
        let ghost all = self.buffer@;
        let len = self.buffer.len();
        let window = self.window;
        let hop = self.hop;
        let ghost total = frames_ready(all.len(), window as nat, hop as nat);
        let mut out: Vec<Window<T>> = Vec::new();
        let mut start: usize = 0;
        let mut c: usize = 0;
        while len - start >= window
            invariant
                0 < hop <= window,
                len == all.len(),
                self.buffer@ == all,
                self.window == window,
                self.hop == hop,
                start == c * hop,
                start <= len,
                c > 0 ==> (c - 1) * hop + window <= len,
                out@.len() == c,
                self.next_index == m0.next_index + c,
                m0.next_index + total <= u64::MAX,
                total == frames_ready(all.len(), window as nat, hop as nat),
                forall|i: int|
                    #![trigger out@[i]]
                    0 <= i < c ==> {
                        &&& out@[i].index == m0.next_index + i
                        &&& out@[i].samples@ == all.subrange(i * hop, i * hop + window)
                    },
            decreases len - start,
        {
            proof {
                if c + 1 > total {
                    lemma_count_le(len as nat, window as nat, hop as nat, (c + 1) as nat);
                    assert(false);
                }
            }
            let samples = copy_range(&self.buffer, start, start + window);
            out.push(Window { index: self.next_index, samples });
            self.next_index = self.next_index + 1;
            proof {
                assert((c + 1) * hop == start + hop) by (nonlinear_arith)
                    requires
                        start == c * hop,
                ;
            }
            start = start + hop;
            c = c + 1;
        }
        proof {
            lemma_count_unique(len as nat, window as nat, hop as nat, c as nat);
        }
        drop_front(&mut self.buffer, start);
        self.stream = Ghost(m0.stream + audio@);
        proof {
            lemma_framer_after_wf(m0, audio@);
        }
        out
    }
}

/// A count beyond the number of fitting windows overruns the samples.
pub(crate) proof fn lemma_count_le(len: nat, w: nat, h: nat, c: nat)
    requires
        h > 0,
        c > frames_ready(len, w, h),
    ensures
        (c - 1) * h + w > len,
{
    if len >= w {
        let d = (len - w) as nat;
        let q = d / h;
        vstd::arithmetic::div_mod::lemma_fundamental_div_mod(d as int, h as int);
        assert((c - 1) * h + w > len) by (nonlinear_arith)
            requires
                c >= q + 2,
                d == q * h + d % h,
                0 <= d % h < h,
                len == d + w,
        ;
    }
}

/// The last window counted fits and the one after it does not.
pub(crate) proof fn lemma_frames_ready_bounds(len: nat, w: nat, h: nat)
    requires
        0 < h <= w,
    ensures
        frames_ready(len, w, h) * h + w > len,
        frames_ready(len, w, h) > 0 ==> (frames_ready(len, w, h) - 1) * h + w <= len,
        frames_ready(len, w, h) * h <= len,
{
    let c = frames_ready(len, w, h);
    if len >= w {
        let d = (len - w) as nat;
        let q = d / h;
        vstd::arithmetic::div_mod::lemma_fundamental_div_mod(d as int, h as int);
        assert(c == q + 1);
        assert(c * h + w > len && (c - 1) * h + w <= len && c * h <= len) by (nonlinear_arith)
            requires
                c == q + 1,
                d == q * h + d % h,
                0 <= d % h < h,
                len == d + w,
                h <= w,
        ;
    }
}

/// Law: pushing audio keeps a framer well formed.
pub proof fn lemma_framer_after_wf<T>(m: FramerModel<T>, audio: Seq<T>)
    requires
        framer_wf(m),
    ensures
        framer_wf(framer_after(m, audio)),
{
    let all = m.buffer + audio;
    let c = frames_ready(all.len(), m.window, m.hop);
    let h = m.hop;
    let m1 = framer_after(m, audio);
    lemma_frames_ready_bounds(all.len(), m.window, h);
    assert(all =~= m1.stream.skip((m.next_index * h) as int));
    assert((m.next_index + c) * h == m.next_index * h + c * h) by (nonlinear_arith);
    assert(m1.buffer =~= m1.stream.skip((m1.next_index * h) as int));
    if c > 0 {
        assert((c - 1) * h == c * h - h) by (nonlinear_arith)
            requires
                c >= 1,
        ;
    }
}

/// Law: a well-formed framer has handed out exactly the windows that fit in
/// everything pushed since it started, whatever the sizes of the pushes.
pub proof fn lemma_framer_counts_whole_stream<T>(m: FramerModel<T>)
    requires
        framer_wf(m),
    ensures
        m.next_index == frames_ready(m.stream.len(), m.window, m.hop),
        m.buffer == m.stream.skip((m.next_index * m.hop) as int),
{
    let n = m.next_index;
    let h = m.hop;
    if n > 0 {
        assert((n - 1) * h == n * h - h) by (nonlinear_arith)
            requires
                n >= 1,
        ;
    }
    lemma_count_unique(m.stream.len(), m.window, h, n);
}

/// Law: window `i` of a push is the stream's window at absolute index
/// `next_index + i`, that is samples `[k * hop, k * hop + window)` of
/// everything pushed since the start.
pub proof fn lemma_framer_emit_is_stream_window<T>(m: FramerModel<T>, audio: Seq<T>, i: int)
    requires
        framer_wf(m),
        0 <= i < framer_emit(m, audio).len(),
    ensures
        framer_emit(m, audio)[i] == framer_after(m, audio).stream.subrange(
            (m.next_index + i) * m.hop,
            (m.next_index + i) * m.hop + m.window,
        ),
{
    let all = m.buffer + audio;
    let h = m.hop;
    let c = frames_ready(all.len(), m.window, h);
    let s1 = m.stream + audio;
    lemma_frames_ready_bounds(all.len(), m.window, h);
    assert(all =~= s1.skip((m.next_index * h) as int));
    assert((m.next_index + i) * h == m.next_index * h + i * h) by (nonlinear_arith);
    assert(i * h + m.window <= all.len()) by (nonlinear_arith)
        requires
            0 <= i < c,
            c > 0 ==> (c - 1) * h + m.window <= all.len(),
            h > 0,
    ;
    assert(framer_emit(m, audio)[i] =~= s1.subrange(
        (m.next_index + i) * h,
        (m.next_index + i) * h + m.window,
    ));
}

/// Law: pushing `a` and then `b` hands out the same windows, and leaves the
/// same state, as pushing `a` followed by `b` in one call.
pub proof fn lemma_framer_chunking<T>(m: FramerModel<T>, a: Seq<T>, b: Seq<T>)
    requires
        framer_wf(m),
    ensures
        framer_emit(m, a) + framer_emit(framer_after(m, a), b) == framer_emit(m, a + b),
        framer_after(framer_after(m, a), b) == framer_after(m, a + b),
{
    let m1 = framer_after(m, a);
    let m2 = framer_after(m1, b);
    let n = framer_after(m, a + b);
    lemma_framer_after_wf(m, a);
    lemma_framer_after_wf(m1, b);
    lemma_framer_after_wf(m, a + b);
    assert(m2.stream =~= n.stream);
    lemma_framer_counts_whole_stream(m2);
    lemma_framer_counts_whole_stream(n);
    assert(m2.buffer =~= n.buffer);
    let e1 = framer_emit(m, a);
    let e2 = framer_emit(m1, b);
    let e = framer_emit(m, a + b);
    assert(e1.len() + e2.len() == e.len());
    assert forall|i: int| 0 <= i < e.len() implies #[trigger] (e1 + e2)[i] == e[i] by {
        lemma_framer_emit_is_stream_window(m, a + b, i);
        if i < e1.len() {
            lemma_framer_emit_is_stream_window(m, a, i);
            let lo = (m.next_index + i) * m.hop;
            assert(lo + m.window <= m1.stream.len()) by {
                lemma_frames_ready_bounds(m1.stream.len(), m.window, m.hop);
                lemma_framer_counts_whole_stream(m1);
                assert(m.next_index + i < m1.next_index);
                vstd::arithmetic::mul::lemma_mul_inequality(
                    m.next_index + i,
                    m1.next_index - 1,
                    m.hop as int,
                );
            }
            assert(m1.stream.subrange(lo, lo + m.window) =~= n.stream.subrange(lo, lo + m.window));
        } else {
            let j = i - e1.len();
            lemma_framer_emit_is_stream_window(m1, b, j);
        }
    }
    assert(e1 + e2 =~= e);
}

/// Law: taking windows one at a time hands out the same windows as `push`:
/// after appending `audio` to a drained framer, the next window taken is
/// the first window `push` would hand out, and there is one exactly when
/// `push` would hand out any.
pub proof fn lemma_framer_take_matches_push<T>(m: FramerModel<T>, audio: Seq<T>)
    requires
        framer_wf(m),
    ensures
        ({
            let a = FramerModel { buffer: m.buffer + audio, stream: m.stream + audio, ..m };
            &&& framer_emit(m, audio).len() > 0 <==> a.buffer.len() >= a.window
            &&& framer_emit(m, audio).len() > 0 ==> framer_emit(m, audio)[0] == a.stream.subrange(
                (a.next_index * a.hop) as int,
                (a.next_index * a.hop + a.window) as int,
            )
        }),
{
    let a = FramerModel { buffer: m.buffer + audio, stream: m.stream + audio, ..m };
    if framer_emit(m, audio).len() > 0 {
        lemma_framer_emit_is_stream_window(m, audio, 0);
    }
}

/// Law: a framer that has just started, or was just reset, hands out
/// nothing until a whole window of audio has arrived.
pub proof fn lemma_framer_silent_while_filling<T>(window: nat, hop: nat, audio: Seq<T>)
    requires
        0 < hop <= window,
    ensures
        framer_emit(framer_initial::<T>(window, hop), audio).len() == 0 <==> audio.len() < window,
{
    assert(Seq::<T>::empty() + audio =~= audio);
}

/// Copies of every window of `window` samples, `hop` apart, that fits in `buf`.
pub fn windows_of<T: Copy>(buf: &Vec<T>, window: usize, hop: usize) -> (r: Vec<Vec<T>>)
    requires
        0 < hop <= window,
    ensures
        r@.len() == frames_ready(buf@.len(), window as nat, hop as nat),
        forall|i: int|
            #![trigger r@[i]]
            0 <= i < r@.len() ==> r@[i]@ == buf@.subrange(i * hop, i * hop + window),
{
    let len = buf.len();
    let mut r: Vec<Vec<T>> = Vec::new();
    let mut start: usize = 0;
    let mut c: usize = 0;
    while len - start >= window
        invariant
            0 < hop <= window,
            len == buf@.len(),
            start == c * hop,
            start <= len,
            c > 0 ==> (c - 1) * hop + window <= len,
            r@.len() == c,
            forall|i: int|
                #![trigger r@[i]]
                0 <= i < c ==> r@[i]@ == buf@.subrange(i * hop, i * hop + window),
        decreases len - start,
    {
        let w = crate::samples::copy_range(buf, start, start + window);
        r.push(w);
        proof {
            assert((c + 1) * hop == start + hop && c <= start) by (nonlinear_arith)
                requires
                    start == c * hop,
                    hop >= 1,
            ;
        }
        start = start + hop;
        c = c + 1;
    }
    proof {
        lemma_count_unique(len as nat, window as nat, hop as nat, c as nat);
    }
    r
}

} // verus!

//! CREPE: model capacities and the streaming window bookkeeping.
//!
//! The model reads 1024-sample windows at 16 kHz, one every 160 samples
//! (10 ms). The stream keeps just enough audio for the next window.
use vstd::prelude::*;
use crate::text::str_equals;
use crate::framer::{Window, frames_ready, lemma_count_unique, lemma_frames_ready_bounds};
use crate::samples::{append_samples, copy_range, drop_front};

verus! {

/// Sample rate the CREPE models expect.
pub const SAMPLE_RATE: u32 = 16000;
/// Samples per model input window.
pub const WINDOW: usize = 1024;
/// Samples between the starts of consecutive windows (10 ms).
pub const HOP: usize = 160;
/// Output bins per frame (20 cents each).
pub const PITCH_BINS: usize = 360;

/// CREPE model capacity. Bigger = more accurate but slower / larger file.
#[derive(Debug, Clone, Copy, PartialEq, Eq, Structural)]
pub enum Capacity {
    Tiny,
    Small,
    Medium,
    Large,
    Full,
}

/// The short name of a capacity.
pub open spec fn capacity_name(c: Capacity) -> Seq<char> {
    match c {
        Capacity::Tiny => "tiny"@,
        Capacity::Small => "small"@,
        Capacity::Medium => "medium"@,
        Capacity::Large => "large"@,
        Capacity::Full => "full"@,
    }
}

/// The capacity whose short name is `s`, if any.
pub open spec fn capacity_named(s: Seq<char>) -> Option<Capacity> {
    if s == "tiny"@ {
        Some(Capacity::Tiny)
    } else if s == "small"@ {
        Some(Capacity::Small)
    } else if s == "medium"@ {
        Some(Capacity::Medium)
    } else if s == "large"@ {
        Some(Capacity::Large)
    } else if s == "full"@ {
        Some(Capacity::Full)
    } else {
        None
    }
}

/// The message of a rejected capacity name.
pub open spec fn unknown_capacity_message(s: Seq<char>) -> Seq<char> {
    "unknown crepe capacity: "@ + s + "; expected tiny|small|medium|large|full"@
}

impl Capacity {
    /// Parses a short capacity name (`tiny`, `small`, `medium`, `large`, `full`).
    pub fn parse(s: &str) -> (r: std::result::Result<Self, String>)
        ensures
            match r {
                Ok(c) => capacity_named(s@) == Some(c),
                Err(m) => capacity_named(s@) is None && m@ == unknown_capacity_message(s@),
            },
    {
        if str_equals(s, "tiny") {
            Ok(Capacity::Tiny)
        } else if str_equals(s, "small") {
            Ok(Capacity::Small)
        } else if str_equals(s, "medium") {
            Ok(Capacity::Medium)
        } else if str_equals(s, "large") {
            Ok(Capacity::Large)
        } else if str_equals(s, "full") {
            Ok(Capacity::Full)
        } else {
            let mut m = String::from_str("unknown crepe capacity: ");
            m.append(s);
            m.append("; expected tiny|small|medium|large|full");
            Err(m)
        }
    }

    /// The short name of this capacity, as accepted by [`Capacity::parse`].
    pub fn short(self) -> (r: &'static str)
        ensures
            r@ == capacity_name(self),
    {
        match self {
            Capacity::Tiny => "tiny",
            Capacity::Small => "small",
            Capacity::Medium => "medium",
            Capacity::Large => "large",
            Capacity::Full => "full",
        }
    }
}

/// Every capacity's short name parses back to that capacity.
pub proof fn lemma_capacity_name_round_trip(c: Capacity)
    ensures
        capacity_named(capacity_name(c)) == Some(c),
{
    reveal_strlit("tiny");
    reveal_strlit("small");
    reveal_strlit("medium");
    reveal_strlit("large");
    reveal_strlit("full");
    assert("tiny"@.len() == 4 && "small"@.len() == 5 && "medium"@.len() == 6);
    assert("large"@.len() == 5 && "full"@.len() == 4);
    assert("small"@[0] != "large"@[0]);
    assert("tiny"@[0] != "full"@[0]);
}

/// Law (names mean what they say): each capacity is parsed from its own
/// short name, and only from it, and reports that same name.
pub proof fn lemma_capacity_names_literal(s: Seq<char>)
    ensures
        capacity_named(s) == Some(Capacity::Tiny) <==> s == "tiny"@,
        capacity_named(s) == Some(Capacity::Small) <==> s == "small"@,
        capacity_named(s) == Some(Capacity::Medium) <==> s == "medium"@,
        capacity_named(s) == Some(Capacity::Large) <==> s == "large"@,
        capacity_named(s) == Some(Capacity::Full) <==> s == "full"@,
        capacity_name(Capacity::Tiny) == "tiny"@,
        capacity_name(Capacity::Small) == "small"@,
        capacity_name(Capacity::Medium) == "medium"@,
        capacity_name(Capacity::Large) == "large"@,
        capacity_name(Capacity::Full) == "full"@,
{
    reveal_strlit("tiny");
    reveal_strlit("small");
    reveal_strlit("medium");
    reveal_strlit("large");
    reveal_strlit("full");
    assert("tiny"@.len() == 4 && "small"@.len() == 5 && "medium"@.len() == 6);
    assert("large"@.len() == 5 && "full"@.len() == 4);
    assert("small"@[0] != "large"@[0]);
    assert("tiny"@[0] != "full"@[0]);
}

/// Audio kept before the next window when the buffer is trimmed.
pub const KEEP_BEFORE_NEXT: usize = 864;

/// Rolling window buffer of a CREPE estimator.
pub struct CrepeStream<T> {
    buffer: Vec<T>,
    buffer_origin: u64,
    next_window_start: u64,
    next_frame_index: u64,
    stream: Ghost<Seq<T>>,
}

/// Mathematical state of a [`CrepeStream`].
pub struct CrepeModel<T> {
    /// The tail of the stream still held.
    pub buffer: Seq<T>,
    /// Stream position of `buffer[0]`.
    pub buffer_origin: nat,
    /// Stream position where the next window starts.
    pub next_window_start: nat,
    /// Index of the next frame.
    pub next_frame_index: nat,
    /// Every sample pushed since construction or the last reset.
    pub stream: Seq<T>,
}

/// Well-formedness of a CREPE stream.
pub open spec fn crepe_wf<T>(m: CrepeModel<T>) -> bool {
    &&& m.buffer_origin <= m.next_window_start <= m.stream.len()
    &&& m.buffer == m.stream.skip(m.buffer_origin as int)
    &&& m.next_window_start == HOP * m.next_frame_index
    &&& m.next_window_start + WINDOW > m.stream.len()
    &&& m.next_frame_index > 0 ==> m.next_window_start + (WINDOW - HOP) <= m.stream.len()
}

/// Stream positions stay representable while windows are taken from a
/// stream of `len` samples.
pub open spec fn crepe_positions_fit(len: nat) -> bool {
    &&& len <= u64::MAX
    &&& HOP * frames_ready(len, WINDOW as nat, HOP as nat) + WINDOW <= u64::MAX
}

/// How many leading samples trimming drops.
pub open spec fn crepe_trim_len<T>(m: CrepeModel<T>) -> nat {
    let local = m.next_window_start - m.buffer_origin;
    if local > KEEP_BEFORE_NEXT {
        (local - KEEP_BEFORE_NEXT) as nat
    } else {
        0
    }
}

/// More samples never fit fewer windows.
proof fn lemma_frames_ready_monotonic(a: nat, b: nat)
    requires
        a <= b,
    ensures
        frames_ready(a, WINDOW as nat, HOP as nat) <= frames_ready(b, WINDOW as nat, HOP as nat),
{
    lemma_frames_ready_bounds(a, WINDOW as nat, HOP as nat);
    lemma_frames_ready_bounds(b, WINDOW as nat, HOP as nat);
    let ca = frames_ready(a, WINDOW as nat, HOP as nat);
    let cb = frames_ready(b, WINDOW as nat, HOP as nat);
    if ca > cb {
        assert(ca * 160 >= (cb + 1) * 160) by (nonlinear_arith)
            requires
                ca >= cb + 1,
        ;
    }
}

/// The windows of `s` with indices `lo .. hi`: window `k` is samples
/// `[160 k, 160 k + 1024)`.
pub open spec fn crepe_windows<T>(s: Seq<T>, lo: nat, hi: nat) -> Seq<Seq<T>> {
    Seq::new((hi - lo) as nat, |i: int| s.subrange(160 * (lo + i), 160 * (lo + i) + 1024))
}

/// Law: what a stream hands out does not depend on how its audio is split
/// into calls. Starting from an empty stream, the windows handed out for
/// `a` followed by those handed out for `b` (each call hands out the
/// windows from the old next index up to the new one, see `take_windows`)
/// are the windows handed out for `a + b` in one call.
pub proof fn lemma_crepe_split_invariant<T>(a: Seq<T>, b: Seq<T>)
    ensures
        ({
            let ka = frames_ready(a.len(), WINDOW as nat, HOP as nat);
            let kab = frames_ready((a + b).len(), WINDOW as nat, HOP as nat);
            crepe_windows(a, 0, ka) + crepe_windows(a + b, ka, kab) == crepe_windows(a + b, 0, kab)
        }),
{
    let ka = frames_ready(a.len(), WINDOW as nat, HOP as nat);
    let kab = frames_ready((a + b).len(), WINDOW as nat, HOP as nat);
    lemma_frames_ready_monotonic(a.len(), (a + b).len());
    lemma_frames_ready_bounds(a.len(), WINDOW as nat, HOP as nat);
    let lhs = crepe_windows(a, 0, ka) + crepe_windows(a + b, ka, kab);
    let rhs = crepe_windows(a + b, 0, kab);
    assert forall|i: int| 0 <= i < rhs.len() implies #[trigger] lhs[i] == rhs[i] by {
        if i < ka {
            assert(160 * i + 1024 <= 160 * (ka - 1) + 1024) by (nonlinear_arith)
                requires
                    i <= ka - 1,
            ;
            assert(a.subrange(160 * i, 160 * i + 1024) =~= (a + b).subrange(
                160 * i,
                160 * i + 1024,
            ));
        }
    }
    assert(lhs =~= rhs);
}

/// Law: a well-formed CREPE stream has produced exactly the windows that fit
/// in everything pushed since it started, however the audio was split.
pub proof fn lemma_crepe_frames_follow_stream<T>(m: CrepeModel<T>)
    requires
        crepe_wf(m),
    ensures
        m.next_frame_index == frames_ready(m.stream.len(), WINDOW as nat, HOP as nat),
{
    let n = m.next_frame_index;
    if n > 0 {
        assert(160 * (n - 1) == 160 * n - 160);
    }
    lemma_count_unique(m.stream.len(), WINDOW as nat, HOP as nat, n);
}

impl<T> View for CrepeStream<T> {
    type V = CrepeModel<T>;

    closed spec fn view(&self) -> CrepeModel<T> {
        CrepeModel {
            buffer: self.buffer@,
            buffer_origin: self.buffer_origin as nat,
            next_window_start: self.next_window_start as nat,
            next_frame_index: self.next_frame_index as nat,
            stream: self.stream@,
        }
    }
}

impl<T: Copy> CrepeStream<T> {
    /// Well-formedness of this stream.
    pub open spec fn wf(&self) -> bool {
        crepe_wf(self@)
    }

    /// An empty stream.
    pub fn new() -> (s: Self)
        ensures
            s.wf(),
            s@.stream == Seq::<T>::empty(),
            s@.buffer == Seq::<T>::empty(),
            s@.buffer_origin == 0,
            s@.next_frame_index == 0,
    {
        let s = CrepeStream {
            buffer: Vec::new(),
            buffer_origin: 0,
            next_window_start: 0,
            next_frame_index: 0,
            stream: Ghost(Seq::empty()),
        };
        assert(s@.stream.skip(0) =~= s@.buffer);
        s
    }

    /// Index of the next frame.
    pub fn next_frame_index(&self) -> (r: u64)
        ensures
            r == self@.next_frame_index,
    {
        self.next_frame_index
    }

    /// Number of samples held.
    pub fn buffered(&self) -> (r: usize)
        ensures
            r == self@.buffer.len(),
    {
        self.buffer.len()
    }

    /// Stream position just past the last buffered sample.
    pub fn stream_len(&self) -> (r: u64)
        requires
            self.wf(),
            self@.stream.len() <= u64::MAX,
        ensures
            r == self@.stream.len(),
    {
        self.buffer_origin + self.buffer.len() as u64
    }

    /// Forgets the buffered audio and restarts frame numbering at zero.
    pub fn reset(&mut self)
        ensures
            final(self).wf(),
            final(self)@.stream == Seq::<T>::empty(),
            final(self)@.buffer == Seq::<T>::empty(),
            final(self)@.buffer_origin == 0,
            final(self)@.next_frame_index == 0,
    {
        self.buffer.clear();
        self.buffer_origin = 0;
        self.next_window_start = 0;
        self.next_frame_index = 0;
        self.stream = Ghost(Seq::empty());
        assert(self@.stream.skip(0) =~= self@.buffer);
    }

    /// Appends `audio` and returns every window that now fits, in order:
    /// the window of frame `k` is stream samples `[160 k, 160 k + 1024)`.
    pub fn take_windows(&mut self, audio: &[T]) -> (out: Vec<Window<T>>)
        requires
            old(self).wf(),
            old(self)@.buffer.len() + audio@.len() <= usize::MAX,
            crepe_positions_fit(old(self)@.stream.len() + audio@.len()),
        ensures
            final(self).wf(),
            final(self)@.stream == old(self)@.stream + audio@,
            final(self)@.buffer == old(self)@.buffer + audio@,
            final(self)@.buffer_origin == old(self)@.buffer_origin,
            final(self)@.next_frame_index == frames_ready(
                final(self)@.stream.len(),
                WINDOW as nat,
                HOP as nat,
            ),
            out@.len() == final(self)@.next_frame_index - old(self)@.next_frame_index,
            forall|i: int|
                #![trigger out@[i]]
                0 <= i < out@.len() ==> {
                    &&& out@[i].index == old(self)@.next_frame_index + i
                    &&& out@[i].samples@ == final(self)@.stream.subrange(
                        HOP * (old(self)@.next_frame_index + i),
                        HOP * (old(self)@.next_frame_index + i) + WINDOW,
                    )
                },
    {
        let ghost m0 = self@;
        append_samples(&mut self.buffer, audio);
        self.stream = Ghost(self.stream@ + audio@);
        let ghost s1 = self.stream@;
        let ghost total = frames_ready(s1.len(), WINDOW as nat, HOP as nat);
        proof {
            assert(self.buffer@ =~= s1.skip(m0.buffer_origin as int));
            lemma_crepe_frames_follow_stream(m0);
            lemma_frames_ready_monotonic(m0.stream.len(), s1.len());
        }
        let mut out: Vec<Window<T>> = Vec::new();
        while self.next_window_start + WINDOW as u64 <= self.buffer_origin + self.buffer.len() as u64
            invariant
                self.buffer@ == s1.skip(self.buffer_origin as int),
                self.stream@ == s1,
                self.buffer_origin == m0.buffer_origin,
                self.buffer_origin + self.buffer@.len() == s1.len(),
                crepe_positions_fit(s1.len()),
                total == frames_ready(s1.len(), WINDOW as nat, HOP as nat),
                m0.next_frame_index <= self.next_frame_index <= total,
                self.next_window_start == HOP * self.next_frame_index,
                self.buffer_origin <= self.next_window_start,
                self.next_frame_index > 0 ==> self.next_window_start + (WINDOW - HOP) <= s1.len(),
                out@.len() == self.next_frame_index - m0.next_frame_index,
                forall|i: int|
                    #![trigger out@[i]]
                    0 <= i < out@.len() ==> {
                        &&& out@[i].index == m0.next_frame_index + i
                        &&& out@[i].samples@ == s1.subrange(
                            HOP * (m0.next_frame_index + i),
                            HOP * (m0.next_frame_index + i) + WINDOW,
                        )
                    },
            decreases total - self.next_frame_index,
        {
            proof {
                if self.next_frame_index + 1 > total {
                    crate::framer::lemma_count_le(
                        s1.len(),
                        WINDOW as nat,
                        HOP as nat,
                        (self.next_frame_index + 1) as nat,
                    );
                    assert(false);
                }
            }
            let local = (self.next_window_start - self.buffer_origin) as usize;
            let samples = copy_range(&self.buffer, local, local + WINDOW);
            proof {
                assert(samples@ =~= s1.subrange(
                    self.next_window_start as int,
                    self.next_window_start + WINDOW,
                ));
            }
            out.push(Window { index: self.next_frame_index, samples });
            self.next_frame_index = self.next_frame_index + 1;
            self.next_window_start = self.next_window_start + HOP as u64;
        }
        proof {
            let n = self.next_frame_index;
            if n > 0 {
                assert(160 * (n - 1) == 160 * n - 160);
            }
            lemma_count_unique(s1.len(), WINDOW as nat, HOP as nat, n as nat);
        }
        out
    }

    /// Drops the buffered audio that no future window needs, keeping the
    /// `WINDOW - HOP` samples before the next window as left context.
    pub fn trim(&mut self)
        requires
            old(self).wf(),
        ensures
            final(self).wf(),
            final(self)@.stream == old(self)@.stream,
            final(self)@.next_frame_index == old(self)@.next_frame_index,
            final(self)@.buffer == old(self)@.buffer.skip(crepe_trim_len(old(self)@) as int),
            final(self)@.buffer_origin == old(self)@.buffer_origin + crepe_trim_len(old(self)@),
    {
        let local = self.next_window_start - self.buffer_origin;
        if local > KEEP_BEFORE_NEXT as u64 {
            let drop_n = local - KEEP_BEFORE_NEXT as u64;
            let ghost b0 = self.buffer@;
            assert(b0.len() == self.stream@.len() - self.buffer_origin);
            let blen = self.buffer.len();
            assert(drop_n <= blen);
            let d = drop_n as usize;
            assert(d == drop_n);
            drop_front(&mut self.buffer, d);
            self.buffer_origin = self.buffer_origin + drop_n;
            assert(self.buffer@ =~= self.stream@.skip(self.buffer_origin as int));
        }
    }
}

/// Law: trimming never drops a sample that a future window needs: every
/// sample from the start of the next window on stays buffered, together
/// with up to `WINDOW - HOP` samples before it.
pub proof fn lemma_crepe_trim_keeps_next_window<T>(m: CrepeModel<T>)
    requires
        crepe_wf(m),
    ensures
        m.buffer_origin + crepe_trim_len(m) <= m.next_window_start,
        m.next_window_start - (m.buffer_origin + crepe_trim_len(m)) <= KEEP_BEFORE_NEXT,
{
}

/// Law: after trimming, the stream holds fewer than
/// `KEEP_BEFORE_NEXT + WINDOW` samples, however long it has been running.
pub proof fn lemma_crepe_trim_bounds_buffer<T>(m: CrepeModel<T>)
    requires
        crepe_wf(m),
    ensures
        m.buffer.len() - crepe_trim_len(m) < KEEP_BEFORE_NEXT + WINDOW,
{
}

} // verus!

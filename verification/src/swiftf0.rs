//! SwiftF0: latency modes, parameter validation and the overlap-and-save
//! streaming bookkeeping.
//!
//! SwiftF0 is a temporal CNN over an STFT: it needs context. The stream
//! keeps the last `context_samples` of audio as left context, waits for at
//! least `min_fresh_samples` of new audio, runs the model over the whole
//! hop-aligned buffer, and emits only the frames covering the new audio.
//! After a run only the last `context_samples` of the hop-aligned input stay
//! as context. The model is meant to return one row per input hop; as long
//! as it does, the buffer starts on the hop grid and frame `k` is the hop at
//! stream samples `[256 k, 256 k + 256)`. Rows past the context rows are
//! emitted as fresh frames whatever their number. In progressive mode the newest
//! frame is emitted preliminary and remembered as owed; a later run emits
//! its settled copy once it has `settle_lag_frames` frames of right context
//! (or just before its audio would leave the buffer).
use vstd::prelude::*;
use crate::error::EstimatorError;
use crate::samples::{FrameSlot, append_samples, copy_range, drop_front};
use crate::text::{decimal, decimal_string, str_equals};

verus! {

/// Sample rate SwiftF0 runs at.
pub const SAMPLE_RATE: u32 = 16000;
/// Samples per output frame.
pub const HOP_SAMPLES: usize = 256;

/// Streaming latency profile for SwiftF0.
#[derive(Debug, Clone, Copy, PartialEq, Eq, Structural)]
pub enum Mode {
    /// 64 ms context + 64 ms fresh, ~70 ms peak latency, ~16 Hz UI rate, low CPU.
    Balanced,
    /// 112 ms context + 16 ms fresh, ~22 ms latency, 60 Hz UI rate, ~4x inferences.
    LowLatency,
    /// Same buffers as `LowLatency`, plus the newest frame is emitted preliminary
    /// and re-emitted ~48 ms later as settled (use `is_preliminary` + `frame_index`
    /// in the UI to dedup).
    Progressive,
}

/// The mode whose name is `s`, if any.
pub open spec fn mode_named(s: Seq<char>) -> Option<Mode> {
    if s == "balanced"@ {
        Some(Mode::Balanced)
    } else if s == "low_latency"@ {
        Some(Mode::LowLatency)
    } else if s == "progressive"@ {
        Some(Mode::Progressive)
    } else {
        None
    }
}

/// The message of a rejected mode name.
pub open spec fn unknown_mode_message(s: Seq<char>) -> Seq<char> {
    "unknown mode: "@ + s + "; supported: balanced, low_latency, progressive"@
}

/// `(context_samples, min_fresh_samples, progressive, settle_lag_frames)` of a mode.
pub open spec fn mode_params(m: Mode) -> (usize, usize, bool, usize) {
    match m {
        Mode::Balanced => (1024, 1024, false, 0),
        Mode::LowLatency => (1792, 256, false, 0),
        Mode::Progressive => (1792, 256, true, 3),
    }
}

impl Mode {
    /// Parses `balanced`, `low_latency` or `progressive`.
    pub fn parse(s: &str) -> (r: std::result::Result<Self, String>)
        ensures
            match r {
                Ok(m) => mode_named(s@) == Some(m),
                Err(msg) => mode_named(s@) is None && msg@ == unknown_mode_message(s@),
            },
    {
        if str_equals(s, "balanced") {
            Ok(Mode::Balanced)
        } else if str_equals(s, "low_latency") {
            Ok(Mode::LowLatency)
        } else if str_equals(s, "progressive") {
            Ok(Mode::Progressive)
        } else {
            let mut m = String::from_str("unknown mode: ");
            m.append(s);
            m.append("; supported: balanced, low_latency, progressive");
            Err(m)
        }
    }

    /// The streaming knobs of this preset:
    /// `(context_samples, min_fresh_samples, progressive, settle_lag_frames)`.
    pub fn streaming_params(self) -> (r: (usize, usize, bool, usize))
        ensures
            r == mode_params(self),
    {
        match self {
            Mode::Balanced => (1024, 1024, false, 0),
            Mode::LowLatency => (1792, 256, false, 0),
            Mode::Progressive => (1792, 256, true, 3),
        }
    }
}

/// Streaming knobs of a SwiftF0 estimator.
#[derive(Debug, Clone, Copy, PartialEq, Eq, Structural)]
pub struct SwiftF0Config {
    /// Audio kept as left context for the next run (a multiple of the hop).
    pub context_samples: usize,
    /// New audio needed before the model runs again (a positive multiple of the hop).
    pub min_fresh_samples: usize,
    /// Emit the newest frame early, marked preliminary, and re-emit it settled.
    pub progressive: bool,
    /// How many frames of right context a preliminary frame waits for.
    pub settle_lag_frames: usize,
}

/// Why a set of streaming knobs is refused, if it is; the checks run in
/// this order and the first that fails gives the message.
pub open spec fn params_error(
    context_samples: nat,
    min_fresh_samples: nat,
    progressive: bool,
    settle_lag_frames: nat,
) -> Option<Seq<char>> {
    if context_samples % 256 != 0 || min_fresh_samples % 256 != 0 {
        Some(
            "context_samples ("@ + decimal(context_samples) + ") and min_fresh_samples ("@
                + decimal(min_fresh_samples) + ") must be multiples of hop ("@ + decimal(256)
                + ")"@,
        )
    } else if min_fresh_samples == 0 {
        Some("min_fresh_samples must be > 0"@)
    } else if progressive && settle_lag_frames == 0 {
        Some("progressive mode requires settle_lag_frames >= 1"@)
    } else {
        None
    }
}

impl SwiftF0Config {
    /// The knobs are acceptable.
    pub open spec fn valid(self) -> bool {
        params_error(
            self.context_samples as nat,
            self.min_fresh_samples as nat,
            self.progressive,
            self.settle_lag_frames as nat,
        ) is None
    }

    /// Checks the streaming knobs, as the low-level SwiftF0 constructor does
    /// before it loads the model.
    pub fn from_params(
        context_samples: usize,
        min_fresh_samples: usize,
        progressive: bool,
        settle_lag_frames: usize,
    ) -> (r: std::result::Result<Self, EstimatorError>)
        ensures
            match r {
                Ok(c) => {
                    &&& params_error(
                        context_samples as nat,
                        min_fresh_samples as nat,
                        progressive,
                        settle_lag_frames as nat,
                    ) is None
                    &&& c == (SwiftF0Config {
                        context_samples,
                        min_fresh_samples,
                        progressive,
                        settle_lag_frames,
                    })
                },
                Err(e) => e matches EstimatorError::InvalidInput(m) && params_error(
                    context_samples as nat,
                    min_fresh_samples as nat,
                    progressive,
                    settle_lag_frames as nat,
                ) == Some(m@),
            },
            r is Ok <==> (context_samples % 256 == 0 && min_fresh_samples % 256 == 0
                && min_fresh_samples > 0 && (progressive ==> settle_lag_frames >= 1)),
    {
        if context_samples % HOP_SAMPLES != 0 || min_fresh_samples % HOP_SAMPLES != 0 {
            let mut m = String::from_str("context_samples (");
            m.append(decimal_string(context_samples).as_str());
            m.append(") and min_fresh_samples (");
            m.append(decimal_string(min_fresh_samples).as_str());
            m.append(") must be multiples of hop (");
            m.append(decimal_string(HOP_SAMPLES).as_str());
            m.append(")");
            return Err(EstimatorError::InvalidInput(m));
        }
        if min_fresh_samples == 0 {
            return Err(EstimatorError::InvalidInput(String::from_str("min_fresh_samples must be > 0")));
        }
        if progressive && settle_lag_frames == 0 {
            return Err(
                EstimatorError::InvalidInput(
                    String::from_str("progressive mode requires settle_lag_frames >= 1"),
                ),
            );
        }
        proof {
            lemma_params_checks(
                context_samples as nat,
                min_fresh_samples as nat,
                progressive,
                settle_lag_frames as nat,
            );
        }
        Ok(SwiftF0Config { context_samples, min_fresh_samples, progressive, settle_lag_frames })
    }

    /// The knobs of a preset.
    pub fn from_mode(mode: Mode) -> (c: Self)
        ensures
            c.valid(),
            (c.context_samples, c.min_fresh_samples, c.progressive, c.settle_lag_frames)
                == mode_params(mode),
    {
        let (context_samples, min_fresh_samples, progressive, settle_lag_frames) =
            mode.streaming_params();
        SwiftF0Config { context_samples, min_fresh_samples, progressive, settle_lag_frames }
    }
}

/// Overlap-and-save buffer of a SwiftF0 estimator.
pub struct SwiftF0Stream<T> {
    config: SwiftF0Config,
    buffer: Vec<T>,
    context_held: usize,
    next_frame_index: u64,
    owed: Vec<u64>,
    stream: Ghost<Seq<T>>,
    emitted: Ghost<Seq<FrameSlot>>,
}

/// Mathematical state of a [`SwiftF0Stream`].
pub struct SwiftF0Model<T> {
    pub config: SwiftF0Config,
    /// Every sample appended since the stream was created or reset.
    pub stream: Seq<T>,
    /// The tail of `stream` still held: context audio followed by audio not
    /// yet covered by emitted frames.
    pub buffer: Seq<T>,
    /// Leading samples of `buffer` that were already covered by emitted frames.
    pub context_held: nat,
    /// Absolute index of the next fresh frame.
    pub next_frame_index: nat,
    /// Frames emitted preliminary that are still owed a settled copy, oldest first.
    pub owed: Seq<u64>,
    /// Every frame emitted so far, in order.
    pub emitted: Seq<FrameSlot>,
}

/// Stream position of the first sample of the buffer.
pub open spec fn buffer_origin<T>(m: SwiftF0Model<T>) -> int {
    m.stream.len() - m.buffer.len()
}

/// The hop-aligned prefix length of a buffer of `len` samples.
pub open spec fn aligned_len(len: nat) -> nat {
    (len / 256 * 256) as nat
}

/// Number of frames of model output that cover context audio.
pub open spec fn context_frames<T>(m: SwiftF0Model<T>) -> nat {
    m.context_held / 256
}

/// Number of fresh frames in a model output of `total` frames: the rows
/// past the context rows.
pub open spec fn fresh_frames<T>(m: SwiftF0Model<T>, total: nat) -> nat {
    if total >= context_frames(m) {
        (total - context_frames(m)) as nat
    } else {
        0
    }
}

/// Samples kept after a run: the last `context_samples` of the hop-aligned
/// input, or all of it when it is shorter.
pub open spec fn kept_samples<T>(m: SwiftF0Model<T>) -> nat {
    let n = aligned_len(m.buffer.len());
    if (m.config.context_samples as nat) < n {
        m.config.context_samples as nat
    } else {
        n
    }
}

/// Frames of context kept for the next run.
pub open spec fn kept_frames<T>(m: SwiftF0Model<T>) -> nat {
    kept_samples(m) / 256
}

/// An owed frame `p` is settled by this run when it has `settle_lag_frames`
/// frames of right context, or when its audio is about to leave the buffer.
pub open spec fn settle_due<T>(m: SwiftF0Model<T>, total: nat, p: u64) -> bool {
    let next = m.next_frame_index + fresh_frames(m, total);
    ||| next - 1 - p >= m.config.settle_lag_frames
    ||| p < next - kept_frames(m)
}

/// `settle_due` as a predicate.
pub open spec fn due_pred<T>(m: SwiftF0Model<T>, total: nat) -> spec_fn(u64) -> bool {
    |p: u64| settle_due(m, total, p)
}

/// The negation of `settle_due` as a predicate.
pub open spec fn not_due_pred<T>(m: SwiftF0Model<T>, total: nat) -> spec_fn(u64) -> bool {
    |p: u64| !settle_due(m, total, p)
}

/// The settled copy of owed frame `p`, read from its row of this run.
pub open spec fn settled_slot_of<T>(m: SwiftF0Model<T>) -> spec_fn(u64) -> FrameSlot {
    |p: u64|
        FrameSlot {
            frame_index: p,
            position: (p - (m.next_frame_index - context_frames(m))) as usize,
            is_preliminary: false,
        }
}

/// The settled copies emitted by a run, oldest first.
pub open spec fn settled_slots<T>(m: SwiftF0Model<T>, total: nat) -> Seq<FrameSlot> {
    m.owed.filter(due_pred(m, total)).map_values(settled_slot_of(m))
}

/// The newest fresh frame is emitted preliminary: progressive mode, and a
/// frame of context survives the run so that it can be re-emitted.
pub open spec fn newest_preliminary<T>(m: SwiftF0Model<T>, total: nat) -> bool {
    m.config.progressive && fresh_frames(m, total) > 0 && kept_frames(m) >= 1
}

/// The fresh frames of a model output of `total` frames.
pub open spec fn fresh_slots<T>(m: SwiftF0Model<T>, total: nat) -> Seq<FrameSlot> {
    let fresh = fresh_frames(m, total);
    Seq::new(
        fresh,
        |i: int|
            FrameSlot {
                frame_index: (m.next_frame_index + i) as u64,
                position: (context_frames(m) + i) as usize,
                is_preliminary: newest_preliminary(m, total) && i + 1 == fresh,
            },
    )
}

/// Every frame emitted for a model output of `total` frames: the settled
/// copies first, then the fresh frames in order.
pub open spec fn swiftf0_slots<T>(m: SwiftF0Model<T>, total: nat) -> Seq<FrameSlot> {
    settled_slots(m, total) + fresh_slots(m, total)
}

/// The owed frames after a run: those not settled, then the new
/// preliminary frame.
pub open spec fn owed_after<T>(m: SwiftF0Model<T>, total: nat) -> Seq<u64> {
    let kept = m.owed.filter(not_due_pred(m, total));
    if newest_preliminary(m, total) {
        kept.push((m.next_frame_index + fresh_frames(m, total) - 1) as u64)
    } else {
        kept
    }
}

/// The state after the frames of a model output of `total` frames are
/// emitted: of the hop-aligned input only the kept context stays, followed
/// by the unaligned tail.
pub open spec fn swiftf0_after<T>(m: SwiftF0Model<T>, total: nat) -> SwiftF0Model<T> {
    SwiftF0Model {
        config: m.config,
        stream: m.stream,
        buffer: m.buffer.skip(aligned_len(m.buffer.len()) - kept_samples(m)),
        context_held: kept_samples(m),
        next_frame_index: m.next_frame_index + fresh_frames(m, total),
        owed: owed_after(m, total),
        emitted: m.emitted + swiftf0_slots(m, total),
    }
}

/// Owed frame indices strictly increase.
pub open spec fn increasing(s: Seq<u64>) -> bool {
    forall|i: int, j: int| 0 <= i < j < s.len() ==> s[i] < s[j]
}

/// Frame `j` occurs in the emitted frames.
pub open spec fn was_emitted(e: Seq<FrameSlot>, j: int) -> bool {
    exists|k: int| 0 <= k < e.len() && e[k].frame_index == j
}

/// The frame at `k` is followed by a settled copy of it.
pub open spec fn settled_later(e: Seq<FrameSlot>, k: int) -> bool {
    exists|b: int| k < b < e.len() && e[b].frame_index == e[k].frame_index && !e[b].is_preliminary
}

/// What the emitted frames of a stream look like: every index below the next
/// one was emitted; an index occurs twice only as a preliminary frame
/// followed by its settled copy; a preliminary frame is settled later or
/// still owed, and an owed frame was emitted only preliminary; outside
/// progressive mode the frames are `0, 1, 2, ..` in order, none preliminary.
pub open spec fn history_ok<T>(m: SwiftF0Model<T>) -> bool {
    let e = m.emitted;
    &&& forall|k: int| 0 <= k < e.len() ==> (#[trigger] e[k]).frame_index < m.next_frame_index
    &&& forall|a: int, b: int|
        #![trigger e[a], e[b]]
        0 <= a < b < e.len() && e[a].frame_index == e[b].frame_index ==> e[a].is_preliminary
            && !e[b].is_preliminary
    &&& forall|k: int, i: int|
        #![trigger e[k], m.owed[i]]
        0 <= k < e.len() && 0 <= i < m.owed.len() && e[k].frame_index == m.owed[i]
            ==> e[k].is_preliminary
    &&& forall|k: int|
        0 <= k < e.len() && (#[trigger] e[k]).is_preliminary ==> m.owed.contains(e[k].frame_index)
            || settled_later(e, k)
    &&& forall|j: int| 0 <= j < m.next_frame_index ==> #[trigger] was_emitted(e, j)
    &&& !m.config.progressive ==> {
        &&& e.len() == m.next_frame_index
        &&& forall|k: int|
            0 <= k < e.len() ==> (#[trigger] e[k]).frame_index == k && !e[k].is_preliminary
    }
}

/// The buffer starts on the hop grid: its context ends where the audio of
/// the next fresh frame begins. A new or reset stream is on the grid, and a
/// run whose model output has one row per hop of its input keeps it there.
pub open spec fn swiftf0_on_grid<T>(m: SwiftF0Model<T>) -> bool {
    buffer_origin(m) + m.context_held == 256 * m.next_frame_index
}

/// Well-formedness of a SwiftF0 stream.
pub open spec fn swiftf0_wf<T>(m: SwiftF0Model<T>) -> bool {
    &&& m.config.valid()
    &&& m.buffer.len() <= m.stream.len()
    &&& m.buffer.len() <= usize::MAX
    &&& m.buffer == m.stream.skip(buffer_origin(m))
    &&& m.context_held <= m.buffer.len()
    &&& m.context_held % 256 == 0
    &&& m.context_held <= m.config.context_samples
    &&& increasing(m.owed)
    &&& m.owed.len() > 0 ==> m.config.progressive
    &&& forall|i: int|
        0 <= i < m.owed.len() ==> {
            &&& m.next_frame_index - context_frames(m) <= #[trigger] m.owed[i]
            &&& m.owed[i] < m.next_frame_index
            &&& m.next_frame_index - 1 - m.owed[i] < m.config.settle_lag_frames
        }
    &&& history_ok(m)
}

impl<T> View for SwiftF0Stream<T> {
    type V = SwiftF0Model<T>;

    closed spec fn view(&self) -> SwiftF0Model<T> {
        SwiftF0Model {
            config: self.config,
            stream: self.stream@,
            buffer: self.buffer@,
            context_held: self.context_held as nat,
            next_frame_index: self.next_frame_index as nat,
            owed: self.owed@,
            emitted: self.emitted@,
        }
    }
}

/// A filter keeps the order of an increasing sequence and only its elements.
proof fn lemma_filter_increasing(s: Seq<u64>, pred: spec_fn(u64) -> bool)
    requires
        increasing(s),
    ensures
        increasing(s.filter(pred)),
        forall|i: int| 0 <= i < s.filter(pred).len() ==> s.contains(#[trigger] s.filter(pred)[i]),
    decreases s.len(),
{
    reveal(Seq::filter);
    if s.len() > 0 {
        let t = s.drop_last();
        lemma_filter_increasing(t, pred);
        let ft = t.filter(pred);
        assert forall|i: int| 0 <= i < ft.len() implies ft[i] < s.last() by {
            assert(t.contains(ft[i]));
            let j = choose|j: int| 0 <= j < t.len() && t[j] == ft[i];
            assert(s[j] == t[j]);
        }
        assert forall|i: int| 0 <= i < s.filter(pred).len() implies s.contains(
            #[trigger] s.filter(pred)[i],
        ) by {
            if i < ft.len() {
                assert(t.contains(ft[i]));
                let j = choose|j: int| 0 <= j < t.len() && t[j] == ft[i];
                assert(s[j] == t[j]);
            } else {
                assert(s[s.len() - 1] == s.last());
            }
        }
    }
}

impl<T: Copy> SwiftF0Stream<T> {
    /// Well-formedness of this stream.
    pub open spec fn wf(&self) -> bool {
        swiftf0_wf(self@)
    }

    /// An empty stream with the given knobs.
    pub fn new(config: SwiftF0Config) -> (s: Self)
        requires
            config.valid(),
        ensures
            s.wf(),
            s@.config == config,
            s@.stream == Seq::<T>::empty(),
            s@.buffer == Seq::<T>::empty(),
            s@.context_held == 0,
            s@.next_frame_index == 0,
            s@.owed == Seq::<u64>::empty(),
            s@.emitted == Seq::<FrameSlot>::empty(),
            swiftf0_on_grid(s@),
    {
        let s = SwiftF0Stream {
            config,
            buffer: Vec::new(),
            context_held: 0,
            next_frame_index: 0,
            owed: Vec::new(),
            stream: Ghost(Seq::empty()),
            emitted: Ghost(Seq::empty()),
        };
        assert(s@.buffer =~= s@.stream.skip(0));
        s
    }

    /// The knobs of this stream.
    pub fn config(&self) -> (c: SwiftF0Config)
        ensures
            c == self@.config,
    {
        self.config
    }

    /// Absolute index of the next fresh frame.
    pub fn next_frame_index(&self) -> (r: u64)
        ensures
            r == self@.next_frame_index,
    {
        self.next_frame_index
    }

    /// Number of model output frames that cover context audio.
    pub fn context_frames(&self) -> (r: usize)
        ensures
            r == context_frames(self@),
    {
        self.context_held / HOP_SAMPLES
    }

    /// Number of samples held.
    pub fn buffered(&self) -> (r: usize)
        ensures
            r == self@.buffer.len(),
    {
        self.buffer.len()
    }

    /// Forgets the buffered audio and the owed frames, and restarts frame
    /// numbering at zero.
    pub fn reset(&mut self)
        requires
            old(self).wf(),
        ensures
            final(self).wf(),
            final(self)@.config == old(self)@.config,
            final(self)@.stream == Seq::<T>::empty(),
            final(self)@.buffer == Seq::<T>::empty(),
            final(self)@.context_held == 0,
            final(self)@.next_frame_index == 0,
            final(self)@.owed == Seq::<u64>::empty(),
            final(self)@.emitted == Seq::<FrameSlot>::empty(),
            swiftf0_on_grid(final(self)@),
    {
        self.buffer.clear();
        self.owed.clear();
        self.context_held = 0;
        self.next_frame_index = 0;
        self.stream = Ghost(Seq::empty());
        self.emitted = Ghost(Seq::empty());
        assert(self@.buffer =~= self@.stream.skip(0));
    }

    /// Appends `audio`. When enough fresh audio has arrived, returns the
    /// hop-aligned prefix of the buffer, which the model must now run on.
    pub fn begin(&mut self, audio: &[T]) -> (input: Option<Vec<T>>)
        requires
            old(self).wf(),
            old(self)@.buffer.len() + audio@.len() <= usize::MAX,
        ensures
            final(self).wf(),
            final(self)@ == (SwiftF0Model {
                stream: old(self)@.stream + audio@,
                buffer: old(self)@.buffer + audio@,
                ..old(self)@
            }),
            swiftf0_on_grid(final(self)@) == swiftf0_on_grid(old(self)@),
            input is Some <==> final(self)@.buffer.len() - final(self)@.context_held
                >= final(self)@.config.min_fresh_samples,
            input matches Some(v) ==> {
                &&& v@ == final(self)@.buffer.take(aligned_len(final(self)@.buffer.len()) as int)
                &&& v@ == final(self)@.stream.subrange(
                    buffer_origin(final(self)@),
                    buffer_origin(final(self)@) + aligned_len(final(self)@.buffer.len()),
                )
                &&& swiftf0_on_grid(final(self)@) ==> buffer_origin(final(self)@) % 256 == 0
            },
    {
        let ghost s0 = self@;
        append_samples(&mut self.buffer, audio);
        self.stream = Ghost(self.stream@ + audio@);
        proof {
            assert(self@.buffer =~= self@.stream.skip(buffer_origin(self@)));
        }
        let fresh = self.buffer.len() - self.context_held;
        if fresh < self.config.min_fresh_samples {
            return None;
        }
        let n = (self.buffer.len() / HOP_SAMPLES) * HOP_SAMPLES;
        let v = copy_range(&self.buffer, 0, n);
        proof {
            let len = self@.buffer.len();
            vstd::arithmetic::div_mod::lemma_fundamental_div_mod(len as int, 256);
            assert(v@ =~= self@.stream.subrange(
                buffer_origin(self@),
                buffer_origin(self@) + aligned_len(len),
            ));
            if swiftf0_on_grid(self@) {
                vstd::arithmetic::div_mod::lemma_fundamental_div_mod(s0.context_held as int, 256);
                let o = buffer_origin(self@);
                assert(o == 256 * s0.next_frame_index - 256 * (s0.context_held / 256));
                vstd::arithmetic::div_mod::lemma_mod_multiples_basic(
                    s0.next_frame_index - s0.context_held / 256,
                    256,
                );
            }
        }
        Some(v)
    }

    /// Given the number of frames the model returned for the input of
    /// [`begin`](Self::begin), lists the frames to emit and keeps the
    /// trailing context for the next run.
    pub fn finish(&mut self, total_frames: usize) -> (slots: Vec<FrameSlot>)
        requires
            old(self).wf(),
            context_frames(old(self)@) <= old(self)@.next_frame_index,
            old(self)@.next_frame_index + fresh_frames(old(self)@, total_frames as nat)
                <= u64::MAX,
        ensures
            final(self).wf(),
            final(self)@ == swiftf0_after(old(self)@, total_frames as nat),
            slots@ == swiftf0_slots(old(self)@, total_frames as nat),
            forall|i: int|
                0 <= i < old(self)@.owed.len() ==> (was_emitted(
                    slots@,
                    #[trigger] old(self)@.owed[i] as int,
                ) <==> (final(self)@.next_frame_index >= old(self)@.owed[i] + 1
                    + old(self)@.config.settle_lag_frames || old(self)@.owed[i] + context_frames(
                    final(self)@,
                ) < final(self)@.next_frame_index)),
    {
        let ghost m = self@;
        let ghost total = total_frames as nat;
        proof {
            lemma_swiftf0_shape(m, total);
        }
        let n = (self.buffer.len() / HOP_SAMPLES) * HOP_SAMPLES;
        let keep = if self.config.context_samples < n {
            self.config.context_samples
        } else {
            n
        };
        let ctx = self.context_held / HOP_SAMPLES;
        let fresh = if total_frames >= ctx {
            total_frames - ctx
        } else {
            0
        };
        let next = self.next_frame_index + fresh as u64;
        let kept = keep / HOP_SAMPLES;
        let first = self.next_frame_index - ctx as u64;
        let lag = self.config.settle_lag_frames as u64;
        let settle_before = if next >= kept as u64 {
            next - kept as u64
        } else {
            0
        };
        let mut out: Vec<FrameSlot> = Vec::new();
        let mut still: Vec<u64> = Vec::new();
        let mut k: usize = 0;
        while k < self.owed.len()
            invariant
                self@ == m,
                swiftf0_wf(m),
                k <= m.owed.len(),
                ctx == context_frames(m),
                fresh == fresh_frames(m, total),
                kept == kept_frames(m),
                next == m.next_frame_index + fresh,
                first == m.next_frame_index - ctx,
                lag == m.config.settle_lag_frames,
                settle_before == (if next >= kept {
                    next - kept
                } else {
                    0
                }),
                out@ == m.owed.take(k as int).filter(due_pred(m, total)).map_values(
                    settled_slot_of(m),
                ),
                still@ == m.owed.take(k as int).filter(not_due_pred(m, total)),
            decreases m.owed.len() - k,
        {
            let p = self.owed[k];
            let ghost before = m.owed.take(k as int);
            proof {
                assert(m.owed.take(k + 1) =~= before.push(p));
                before.lemma_filter_push(p, due_pred(m, total));
                before.lemma_filter_push(p, not_due_pred(m, total));
            }
            if next - 1 - p >= lag || p < settle_before {
                let slot = FrameSlot {
                    frame_index: p,
                    position: (p - first) as usize,
                    is_preliminary: false,
                };
                proof {
                    let f = before.filter(due_pred(m, total));
                    assert(f.push(p).map_values(settled_slot_of(m)) =~= f.map_values(
                        settled_slot_of(m),
                    ).push(slot));
                }
                out.push(slot);
            } else {
                still.push(p);
            }
            k = k + 1;
        }
        assert(m.owed.take(m.owed.len() as int) =~= m.owed);
        let ghost settled = out@;
        let mut i: usize = 0;
        let newest = self.config.progressive && fresh > 0 && kept >= 1;
        while i < fresh
            invariant
                i <= fresh,
                fresh == fresh_frames(m, total),
                ctx == context_frames(m),
                newest == newest_preliminary(m, total),
                self@ == m,
                m.next_frame_index + fresh <= u64::MAX,
                ctx + fresh <= usize::MAX,
                out@ == settled + fresh_slots(m, total).take(i as int),
            decreases fresh - i,
        {
            out.push(
                FrameSlot {
                    frame_index: self.next_frame_index + i as u64,
                    position: ctx + i,
                    is_preliminary: newest && i + 1 == fresh,
                },
            );
            i = i + 1;
            assert(out@ =~= settled + fresh_slots(m, total).take(i as int));
        }
        assert(fresh_slots(m, total).take(fresh as int) =~= fresh_slots(m, total));
        if newest {
            still.push(next - 1);
        }
        self.owed = still;
        self.next_frame_index = next;
        drop_front(&mut self.buffer, n - keep);
        self.context_held = keep;
        self.emitted = Ghost(self.emitted@ + out@);
        proof {
            lemma_swiftf0_after_wf(m, total);
            lemma_swiftf0_settles_exactly_when_due(m, total);
        }
        out
    }
}

/// Arithmetic facts about one run that the stream's methods rely on.
proof fn lemma_swiftf0_shape<T>(m: SwiftF0Model<T>, total: nat)
    requires
        swiftf0_wf(m),
    ensures
        m.context_held == 256 * context_frames(m),
        context_frames(m) <= m.buffer.len() / 256,
        context_frames(m) <= m.config.context_samples / 256,
        aligned_len(m.buffer.len()) == 256 * (m.buffer.len() / 256),
        aligned_len(m.buffer.len()) <= m.buffer.len(),
        m.buffer.len() < aligned_len(m.buffer.len()) + 256,
        kept_samples(m) <= aligned_len(m.buffer.len()),
        kept_samples(m) <= m.config.context_samples,
        kept_samples(m) == 256 * kept_frames(m),
        m.context_held <= kept_samples(m),
        context_frames(m) <= kept_frames(m),
        fresh_frames(m, total) > 0 ==> context_frames(m) + fresh_frames(m, total) == total,
{
    let len = m.buffer.len();
    vstd::arithmetic::div_mod::lemma_fundamental_div_mod(len as int, 256);
    vstd::arithmetic::div_mod::lemma_fundamental_div_mod(m.context_held as int, 256);
    vstd::arithmetic::div_mod::lemma_fundamental_div_mod(m.config.context_samples as int, 256);
    vstd::arithmetic::div_mod::lemma_div_is_ordered(m.context_held as int, len as int, 256);
    vstd::arithmetic::div_mod::lemma_div_is_ordered(
        m.context_held as int,
        m.config.context_samples as int,
        256,
    );
    let n = aligned_len(len);
    vstd::arithmetic::div_mod::lemma_mod_multiples_basic((len / 256) as int, 256);
    vstd::arithmetic::div_mod::lemma_fundamental_div_mod(kept_samples(m) as int, 256);
    assert(m.context_held <= n) by {
        vstd::arithmetic::div_mod::lemma_div_is_ordered(m.context_held as int, len as int, 256);
    }
    vstd::arithmetic::div_mod::lemma_div_is_ordered(
        m.context_held as int,
        kept_samples(m) as int,
        256,
    );
}

/// A run keeps the stream well formed.
proof fn lemma_swiftf0_after_wf<T>(m: SwiftF0Model<T>, total: nat)
    requires
        swiftf0_wf(m),
        m.next_frame_index + fresh_frames(m, total) <= u64::MAX,
    ensures
        swiftf0_wf(swiftf0_after(m, total)),
{
    lemma_swiftf0_shape(m, total);
    let a = swiftf0_after(m, total);
    lemma_swiftf0_history_after(m, total);
    let kf = kept_frames(m);
    assert(a.buffer =~= a.stream.skip(buffer_origin(a)));
    vstd::arithmetic::div_mod::lemma_mod_multiples_basic(kf as int, 256);
    vstd::arithmetic::div_mod::lemma_div_multiples_vanish(kf as int, 256);
    let kept = m.owed.filter(not_due_pred(m, total));
    lemma_filter_increasing(m.owed, not_due_pred(m, total));
    assert forall|i: int| 0 <= i < kept.len() implies {
        &&& a.next_frame_index - context_frames(a) <= #[trigger] kept[i]
        &&& kept[i] < a.next_frame_index
        &&& a.next_frame_index - 1 - kept[i] < a.config.settle_lag_frames
    } by {
        m.owed.lemma_filter_pred(not_due_pred(m, total), i);
        assert(m.owed.contains(kept[i]));
        let j = choose|j: int| 0 <= j < m.owed.len() && m.owed[j] == kept[i];
        assert(m.owed[j] < m.next_frame_index);
    }
    if newest_preliminary(m, total) {
        let p = (m.next_frame_index + fresh_frames(m, total) - 1) as u64;
        assert(a.owed == kept.push(p));
        assert forall|i: int| 0 <= i < kept.len() implies kept[i] < p by {
            assert(m.owed.contains(kept[i]));
            let j = choose|j: int| 0 <= j < m.owed.len() && m.owed[j] == kept[i];
            assert(m.owed[j] < m.next_frame_index);
        }
        assert(a.owed[a.owed.len() - 1] == p);
    }
}

/// A run keeps the emitted frames in the shape `history_ok` describes.
proof fn lemma_swiftf0_history_after<T>(m: SwiftF0Model<T>, total: nat)
    requires
        swiftf0_wf(m),
        m.next_frame_index + fresh_frames(m, total) <= u64::MAX,
    ensures
        history_ok(swiftf0_after(m, total)),
{
    broadcast use vstd::seq_lib::group_filter_ensures;

    lemma_swiftf0_shape(m, total);
    let a = swiftf0_after(m, total);
    let e = m.emitted;
    let st = settled_slots(m, total);
    let fr = fresh_slots(m, total);
    let e2 = a.emitted;
    let due = m.owed.filter(due_pred(m, total));
    let kept = m.owed.filter(not_due_pred(m, total));
    let next = m.next_frame_index;
    let n2 = a.next_frame_index;
    lemma_filter_increasing(m.owed, due_pred(m, total));
    lemma_filter_increasing(m.owed, not_due_pred(m, total));
    assert(e2 =~= e + st + fr);
    // Where each entry of the new history comes from.
    assert forall|k: int| e.len() <= k < e.len() + st.len() implies {
        &&& (#[trigger] e2[k]).frame_index == due[k - e.len()]
        &&& !e2[k].is_preliminary
        &&& m.owed.contains(e2[k].frame_index)
        &&& settle_due(m, total, e2[k].frame_index)
    } by {
        assert(e2[k] == st[k - e.len()]);
        assert(m.owed.contains(due[k - e.len()]));
        assert(due_pred(m, total)(due[k - e.len()]));
    }
    assert forall|k: int| e.len() + st.len() <= k < e2.len() implies {
        &&& (#[trigger] e2[k]).frame_index == next + (k - e.len() - st.len())
        &&& e2[k].is_preliminary == (newest_preliminary(m, total) && k == e2.len() - 1)
    } by {
        assert(e2[k] == fr[k - e.len() - st.len()]);
    }
    assert forall|k: int| 0 <= k < e.len() implies #[trigger] e2[k] == e[k] by {}
    // Owed frames lie below the old next index.
    assert forall|i: int| 0 <= i < m.owed.len() implies (#[trigger] m.owed[i] as nat) < next by {}
    // 1. Every entry is below the next index.
    assert forall|k: int| 0 <= k < e2.len() implies (#[trigger] e2[k]).frame_index < n2 by {
        if k >= e.len() && k < e.len() + st.len() {
            let p = e2[k].frame_index;
            let j = choose|j: int| 0 <= j < m.owed.len() && m.owed[j] == p;
            assert(m.owed[j] < next);
        }
    }
    // 2. Repeats are a preliminary frame followed by its settled copy.
    assert forall|x: int, y: int|
        #![trigger e2[x], e2[y]]
        0 <= x < y < e2.len() && e2[x].frame_index == e2[y].frame_index implies e2[x].is_preliminary
            && !e2[y].is_preliminary by {
        if y < e.len() {
            assert(e[x] == e2[x] && e[y] == e2[y]);
        } else if y < e.len() + st.len() {
            let p = e2[y].frame_index;
            let j = choose|j: int| 0 <= j < m.owed.len() && m.owed[j] == p;
            if x < e.len() {
                assert(e[x] == e2[x]);
                assert(e[x].frame_index == m.owed[j]);
            } else {
                assert(due[x - e.len()] < due[y - e.len()]);
            }
        } else {
            if x < e.len() {
                assert(e[x] == e2[x]);
                assert(e[x].frame_index < next);
            } else if x < e.len() + st.len() {
                let p = e2[x].frame_index;
                let j = choose|j: int| 0 <= j < m.owed.len() && m.owed[j] == p;
                assert(m.owed[j] < next);
            }
        }
    }
    // 3. An owed frame was emitted only preliminary.
    assert forall|k: int, i: int|
        #![trigger e2[k], a.owed[i]]
        0 <= k < e2.len() && 0 <= i < a.owed.len() && e2[k].frame_index == a.owed[i]
            implies e2[k].is_preliminary by {
        let q = a.owed[i];
        if i < kept.len() {
            assert(a.owed[i] == kept[i]);
            assert(m.owed.contains(kept[i]));
            let j = choose|j: int| 0 <= j < m.owed.len() && m.owed[j] == q;
            assert(not_due_pred(m, total)(kept[i]));
            if k < e.len() {
                assert(e[k] == e2[k]);
                assert(e[k].frame_index == m.owed[j]);
            } else if k < e.len() + st.len() {
                assert(settle_due(m, total, e2[k].frame_index));
            } else {
                assert(m.owed[j] < next);
            }
        } else {
            assert(newest_preliminary(m, total));
            assert(q == n2 - 1);
            if k < e.len() {
                assert(e[k] == e2[k]);
            } else if k < e.len() + st.len() {
                let p = e2[k].frame_index;
                let j = choose|j: int| 0 <= j < m.owed.len() && m.owed[j] == p;
                assert(m.owed[j] < next);
            }
        }
    }
    // 4. A preliminary frame is settled later or still owed.
    assert forall|k: int|
        0 <= k < e2.len() && (#[trigger] e2[k]).is_preliminary implies a.owed.contains(
        e2[k].frame_index,
    ) || settled_later(e2, k) by {
        if k < e.len() {
            assert(e[k] == e2[k]);
            let p = e[k].frame_index;
            if settled_later(e, k) {
                let b = choose|b: int|
                    k < b < e.len() && e[b].frame_index == e[k].frame_index && !e[b].is_preliminary;
                assert(e2[b] == e[b]);
            } else {
                assert(m.owed.contains(p));
                let j = choose|j: int| 0 <= j < m.owed.len() && m.owed[j] == p;
                if settle_due(m, total, p) {
                    assert(due_pred(m, total)(m.owed[j]));
                    assert(due.contains(p));
                    let d = choose|d: int| 0 <= d < due.len() && due[d] == p;
                    let b = e.len() + d;
                    assert(e2[b].frame_index == due[d]);
                    assert(settled_later(e2, k));
                } else {
                    assert(not_due_pred(m, total)(m.owed[j]));
                    assert(kept.contains(p));
                    let d = choose|d: int| 0 <= d < kept.len() && kept[d] == p;
                    assert(a.owed[d] == p);
                }
            }
        } else {
            assert(k == e2.len() - 1 && newest_preliminary(m, total));
            assert(a.owed[a.owed.len() - 1] == e2[k].frame_index);
        }
    }
    // 5. Every index below the next one was emitted.
    assert forall|j: int| 0 <= j < n2 implies #[trigger] was_emitted(e2, j) by {
        if j < next {
            assert(was_emitted(e, j));
            let k = choose|k: int| 0 <= k < e.len() && e[k].frame_index == j;
            assert(e2[k] == e[k]);
        } else {
            let k = e.len() + st.len() + (j - next);
            assert(e2[k].frame_index == j);
        }
    }
    // 6. Outside progressive mode nothing is owed or settled.
    if !m.config.progressive {
        assert(m.owed.len() == 0);
        assert(due.len() == 0);
        assert forall|k: int| 0 <= k < e2.len() implies (#[trigger] e2[k]).frame_index == k
            && !e2[k].is_preliminary by {
            if k < e.len() {
                assert(e[k] == e2[k]);
            }
        }
    }
}

/// Law (whole stream): over everything emitted since the stream started,
/// each index below the next one occurs; an index occurs at most twice, and
/// when twice, first preliminary and then settled; each preliminary frame
/// is followed by its settled copy or is still owed one, within
/// `settle_lag_frames` frames; outside progressive mode the frames are
/// `0, 1, 2, ..` in order, none preliminary. `finish` keeps this, since it
/// appends its slots to the emitted frames and keeps the stream well formed.
pub proof fn lemma_swiftf0_emitted_frames<T>(m: SwiftF0Model<T>)
    requires
        swiftf0_wf(m),
    ensures
        forall|j: int| 0 <= j < m.next_frame_index ==> #[trigger] was_emitted(m.emitted, j),
        forall|k: int|
            0 <= k < m.emitted.len() ==> (#[trigger] m.emitted[k]).frame_index < m.next_frame_index,
        forall|a: int, b: int|
            #![trigger m.emitted[a], m.emitted[b]]
            0 <= a < b < m.emitted.len() && m.emitted[a].frame_index == m.emitted[b].frame_index
                ==> m.emitted[a].is_preliminary && !m.emitted[b].is_preliminary,
        forall|a: int, b: int, c: int|
            #![trigger m.emitted[a], m.emitted[b], m.emitted[c]]
            0 <= a < b < c < m.emitted.len() ==> !(m.emitted[a].frame_index
                == m.emitted[b].frame_index && m.emitted[b].frame_index
                == m.emitted[c].frame_index),
        forall|k: int|
            0 <= k < m.emitted.len() && (#[trigger] m.emitted[k]).is_preliminary ==> settled_later(
                m.emitted,
                k,
            ) || (m.owed.contains(m.emitted[k].frame_index) && m.next_frame_index
                < m.emitted[k].frame_index + 1 + m.config.settle_lag_frames),
        !m.config.progressive ==> m.emitted.len() == m.next_frame_index && forall|k: int|
            0 <= k < m.emitted.len() ==> (#[trigger] m.emitted[k]).frame_index == k
                && !m.emitted[k].is_preliminary,
{
    let e = m.emitted;
    assert forall|k: int|
        0 <= k < e.len() && (#[trigger] e[k]).is_preliminary implies settled_later(e, k) || (
    m.owed.contains(e[k].frame_index) && m.next_frame_index < e[k].frame_index + 1
        + m.config.settle_lag_frames) by {
        if !settled_later(e, k) {
            let i = choose|i: int| 0 <= i < m.owed.len() && m.owed[i] == e[k].frame_index;
            assert(m.owed[i] == e[k].frame_index);
        }
    }
}

/// Law: a frame's row and its stream position agree. Every emitted frame
/// reads a row the model output has. Row `r` of a run's output describes
/// input samples `[256 r, 256 r + 256)`, which are stream samples
/// `buffer_origin + 256 r` on; while the stream is on the hop grid, frame
/// `k` reads the row whose audio starts at stream sample `256 k`, and when
/// the output has at most one row per input hop that audio lies inside the
/// input.
pub proof fn lemma_swiftf0_rows_follow_stream<T>(m: SwiftF0Model<T>, total: nat, k: int)
    requires
        swiftf0_wf(m),
        total <= usize::MAX,
        m.next_frame_index + fresh_frames(m, total) <= u64::MAX,
        0 <= k < swiftf0_slots(m, total).len(),
    ensures
        (swiftf0_slots(m, total)[k].position as nat) < total,
        swiftf0_on_grid(m) ==> 256 * swiftf0_slots(m, total)[k].frame_index == buffer_origin(m)
            + 256 * swiftf0_slots(m, total)[k].position,
        total <= m.buffer.len() / 256 ==> 256 * swiftf0_slots(m, total)[k].position + 256
            <= aligned_len(m.buffer.len()),
{
    lemma_swiftf0_shape(m, total);
    let s = settled_slots(m, total);
    let due = m.owed.filter(due_pred(m, total));
    if k < s.len() {
        m.owed.lemma_filter_contains_rev(due_pred(m, total), due[k]);
        m.owed.lemma_filter_pred(due_pred(m, total), k);
        assert(m.owed.contains(due[k]));
        let j = choose|j: int| 0 <= j < m.owed.len() && m.owed[j] == due[k];
        assert(m.next_frame_index - context_frames(m) <= m.owed[j] < m.next_frame_index);
        assert(settle_due(m, total, due[k]));
        assert(fresh_frames(m, total) > 0);
        assert(swiftf0_slots(m, total)[k] == s[k]);
    } else {
        let i = k - s.len();
        assert(swiftf0_slots(m, total)[k] == fresh_slots(m, total)[i]);
    }
    let pos = swiftf0_slots(m, total)[k].position;
    if total <= m.buffer.len() / 256 {
        assert(256 * pos + 256 <= 256 * (m.buffer.len() / 256)) by (nonlinear_arith)
            requires
                pos + 1 <= m.buffer.len() / 256,
        ;
    }
}

/// Law: a run whose model output has one row per hop of its input keeps
/// the stream on the hop grid, so by induction a stream fed such runs
/// since it started or was reset is always on the grid.
pub proof fn lemma_swiftf0_stays_on_grid<T>(m: SwiftF0Model<T>, total: nat)
    requires
        swiftf0_wf(m),
        swiftf0_on_grid(m),
        total == m.buffer.len() / 256,
        m.next_frame_index + fresh_frames(m, total) <= u64::MAX,
    ensures
        swiftf0_on_grid(swiftf0_after(m, total)),
        context_frames(m) <= m.next_frame_index,
{
    lemma_swiftf0_shape(m, total);
}

/// Law (settling): of the frames owed a settled copy before a run, each is
/// either settled by the run or still owed after it, never both; each is
/// settled once the run gives it `settle_lag_frames` frames of right
/// context; the settled copies are owed frames and never preliminary; and a
/// frame emitted preliminary is owed afterwards.
pub proof fn lemma_swiftf0_settles_owed<T>(m: SwiftF0Model<T>, total: nat)
    requires
        swiftf0_wf(m),
        m.next_frame_index + fresh_frames(m, total) <= u64::MAX,
    ensures
        forall|i: int|
            0 <= i < m.owed.len() ==> {
                let p = #[trigger] m.owed[i];
                let settled = settled_slots(m, total).map_values(|s: FrameSlot| s.frame_index);
                &&& settled.contains(p) != owed_after(m, total).contains(p)
                &&& swiftf0_after(m, total).next_frame_index >= p + 1
                    + m.config.settle_lag_frames ==> settled.contains(p)
            },
        forall|k: int|
            0 <= k < settled_slots(m, total).len() ==> {
                &&& m.owed.contains(#[trigger] settled_slots(m, total)[k].frame_index)
                &&& !settled_slots(m, total)[k].is_preliminary
            },
        forall|k: int|
            0 <= k < fresh_slots(m, total).len() && (#[trigger] fresh_slots(m, total)[k]).is_preliminary
                ==> owed_after(m, total).contains(fresh_slots(m, total)[k].frame_index),
        forall|i: int|
            0 <= i < owed_after(m, total).len() ==> (m.owed.contains(
                #[trigger] owed_after(m, total)[i],
            ) || owed_after(m, total)[i] == swiftf0_after(m, total).next_frame_index - 1),
{
    broadcast use vstd::seq_lib::group_filter_ensures;

    let due = m.owed.filter(due_pred(m, total));
    let kept = m.owed.filter(not_due_pred(m, total));
    let settled = settled_slots(m, total).map_values(|s: FrameSlot| s.frame_index);
    assert(settled =~= due);
    assert forall|i: int| 0 <= i < m.owed.len() implies {
        let p = #[trigger] m.owed[i];
        &&& settled.contains(p) != owed_after(m, total).contains(p)
        &&& swiftf0_after(m, total).next_frame_index >= p + 1 + m.config.settle_lag_frames
            ==> settled.contains(p)
    } by {
        let p = m.owed[i];
        if settle_due(m, total, p) {
            assert(due_pred(m, total)(p));
            assert(due.contains(p));
            if kept.contains(p) {
                let j = choose|j: int| 0 <= j < kept.len() && kept[j] == p;
                assert(not_due_pred(m, total)(kept[j]));
            }
            if newest_preliminary(m, total) {
                assert(owed_after(m, total) == kept.push(
                    (m.next_frame_index + fresh_frames(m, total) - 1) as u64,
                ));
                assert(p < m.next_frame_index);
                if owed_after(m, total).contains(p) {
                    let j = choose|j: int|
                        0 <= j < owed_after(m, total).len() && owed_after(m, total)[j] == p;
                    if j < kept.len() {
                        assert(kept[j] == p);
                    }
                }
            }
        } else {
            assert(not_due_pred(m, total)(p));
            assert(kept.contains(p));
            if due.contains(p) {
                let j = choose|j: int| 0 <= j < due.len() && due[j] == p;
                assert(due_pred(m, total)(due[j]));
            }
            let j = choose|j: int| 0 <= j < kept.len() && kept[j] == p;
            if newest_preliminary(m, total) {
                assert(owed_after(m, total)[j] == p);
            }
        }
    }
    assert forall|k: int| 0 <= k < settled_slots(m, total).len() implies {
        &&& m.owed.contains(#[trigger] settled_slots(m, total)[k].frame_index)
        &&& !settled_slots(m, total)[k].is_preliminary
    } by {
        m.owed.lemma_filter_contains_rev(due_pred(m, total), due[k]);
    }
    assert forall|k: int|
        0 <= k < fresh_slots(m, total).len() && (#[trigger] fresh_slots(
            m,
            total,
        )[k]).is_preliminary implies owed_after(m, total).contains(
        fresh_slots(m, total)[k].frame_index,
    ) by {
        let o = owed_after(m, total);
        assert(o[o.len() - 1] == fresh_slots(m, total)[k].frame_index);
    }
    assert forall|i: int| 0 <= i < owed_after(m, total).len() implies (m.owed.contains(
        #[trigger] owed_after(m, total)[i],
    ) || owed_after(m, total)[i] == swiftf0_after(m, total).next_frame_index - 1) by {
        if i < kept.len() {
            m.owed.lemma_filter_contains_rev(not_due_pred(m, total), kept[i]);
        }
    }
}

/// Law (when a frame is settled): a frame owed a settled copy is emitted
/// by a run exactly when, after the run, `settle_lag_frames` newer frames
/// exist, or its audio is about to leave the buffer (it lies before the
/// context the run keeps); its copy is never preliminary. Otherwise it is
/// not emitted and stays owed.
pub proof fn lemma_swiftf0_settles_exactly_when_due<T>(m: SwiftF0Model<T>, total: nat)
    requires
        swiftf0_wf(m),
        m.next_frame_index + fresh_frames(m, total) <= u64::MAX,
    ensures
        forall|i: int|
            0 <= i < m.owed.len() ==> {
                let p = #[trigger] m.owed[i];
                let a = swiftf0_after(m, total);
                &&& was_emitted(swiftf0_slots(m, total), p as int) <==> (a.next_frame_index >= p
                    + 1 + m.config.settle_lag_frames || p + context_frames(a)
                    < a.next_frame_index)
                &&& !was_emitted(swiftf0_slots(m, total), p as int) ==> a.owed.contains(p)
            },
        forall|k: int|
            0 <= k < swiftf0_slots(m, total).len() && (#[trigger] swiftf0_slots(
                m,
                total,
            )[k]).frame_index < m.next_frame_index ==> !swiftf0_slots(m, total)[k].is_preliminary,
{
    broadcast use vstd::seq_lib::group_filter_ensures;

    lemma_swiftf0_shape(m, total);
    lemma_swiftf0_settles_owed(m, total);
    let a = swiftf0_after(m, total);
    let st = settled_slots(m, total);
    let fr = fresh_slots(m, total);
    let sl = swiftf0_slots(m, total);
    let due = m.owed.filter(due_pred(m, total));
    vstd::arithmetic::div_mod::lemma_div_multiples_vanish(kept_frames(m) as int, 256);
    assert(context_frames(a) == kept_frames(m));
    assert forall|i: int| 0 <= i < m.owed.len() implies {
        let p = #[trigger] m.owed[i];
        &&& was_emitted(sl, p as int) <==> (a.next_frame_index >= p + 1
            + m.config.settle_lag_frames || p + context_frames(a) < a.next_frame_index)
        &&& !was_emitted(sl, p as int) ==> a.owed.contains(p)
    } by {
        let p = m.owed[i];
        let settled = st.map_values(|s: FrameSlot| s.frame_index);
        assert(settled =~= due);
        if was_emitted(sl, p as int) {
            let k = choose|k: int| 0 <= k < sl.len() && sl[k].frame_index == p;
            if k >= st.len() {
                assert(sl[k] == fr[k - st.len()]);
            } else {
                assert(sl[k] == st[k]);
                assert(due[k] == p);
                assert(due_pred(m, total)(due[k]));
            }
        }
        if settle_due(m, total, p) {
            assert(due_pred(m, total)(m.owed[i]));
            assert(due.contains(p));
            let d = choose|d: int| 0 <= d < due.len() && due[d] == p;
            assert(sl[d] == st[d]);
            assert(sl[d].frame_index == p);
        }
        if !was_emitted(sl, p as int) {
            assert(!settled.contains(p)) by {
                if settled.contains(p) {
                    let d = choose|d: int| 0 <= d < settled.len() && settled[d] == p;
                    assert(sl[d] == st[d]);
                }
            }
        }
    }
    assert forall|k: int|
        0 <= k < sl.len() && (#[trigger] sl[k]).frame_index < m.next_frame_index implies !sl[
        k].is_preliminary by {
        if k >= st.len() {
            assert(sl[k] == fr[k - st.len()]);
        } else {
            assert(sl[k] == st[k]);
        }
    }
}

/// Law: a frame owed a settled copy has had fewer than `settle_lag_frames`
/// newer frames emitted after it, so the run that emits that many settles it.
pub proof fn lemma_swiftf0_owed_within_lag<T>(m: SwiftF0Model<T>, p: u64)
    requires
        swiftf0_wf(m),
        m.owed.contains(p),
    ensures
        m.config.progressive,
        (p as nat) < m.next_frame_index < p + 1 + m.config.settle_lag_frames,
{
    let i = choose|i: int| 0 <= i < m.owed.len() && m.owed[i] == p;
    assert(m.owed[i] == p);
}

/// Law: fresh frames carry consecutive absolute indices starting at the
/// stream's next index, and the next index advances past all of them.
pub proof fn lemma_swiftf0_fresh_indices<T>(m: SwiftF0Model<T>, total: nat, i: int)
    requires
        0 <= i < fresh_frames(m, total),
        m.next_frame_index + fresh_frames(m, total) <= u64::MAX,
    ensures
        fresh_slots(m, total)[i].frame_index == m.next_frame_index + i,
        swiftf0_after(m, total).next_frame_index == m.next_frame_index + fresh_slots(m, total).len(),
{
}

/// Law: only progressive mode marks frames preliminary, and then only the
/// newest fresh frame; outside progressive mode nothing is owed and every
/// emitted frame is fresh.
pub proof fn lemma_swiftf0_preliminary<T>(m: SwiftF0Model<T>, total: nat)
    requires
        swiftf0_wf(m),
        m.next_frame_index + fresh_frames(m, total) <= u64::MAX,
    ensures
        forall|i: int|
            0 <= i < fresh_slots(m, total).len() ==> (#[trigger] fresh_slots(m, total)[i]).is_preliminary
                == (newest_preliminary(m, total) && i == fresh_slots(m, total).len() - 1),
        newest_preliminary(m, total) ==> m.config.progressive,
        !m.config.progressive ==> {
            &&& swiftf0_slots(m, total) == fresh_slots(m, total)
            &&& forall|i: int|
                0 <= i < swiftf0_slots(m, total).len() ==> !(
                #[trigger] swiftf0_slots(m, total)[i]).is_preliminary
            &&& swiftf0_after(m, total).owed.len() == 0
        },
{
    if !m.config.progressive {
        assert(m.owed.len() == 0);
        reveal(Seq::filter);
        assert(settled_slots(m, total) =~= Seq::<FrameSlot>::empty());
        assert(swiftf0_slots(m, total) =~= fresh_slots(m, total));
        assert(m.owed.filter(not_due_pred(m, total)) =~= Seq::<u64>::empty());
    }
}

/// Law (nothing left behind): after a run whose model output has one row
/// per input hop, less than one hop of audio in the buffer is not yet
/// covered by an emitted frame.
pub proof fn lemma_swiftf0_covers_fresh_audio<T>(m: SwiftF0Model<T>, total: nat)
    requires
        swiftf0_wf(m),
        total == m.buffer.len() / 256,
    ensures
        swiftf0_after(m, total).buffer.len() - swiftf0_after(m, total).context_held < HOP_SAMPLES,
        context_frames(m) + fresh_frames(m, total) == total,
{
    lemma_swiftf0_shape(m, total);
}

/// Law: the stream's memory stays bounded. While it waits for fresh audio
/// it holds less than `context_samples + min_fresh_samples` samples, and
/// after a run it keeps at most the context plus less than one hop.
pub proof fn lemma_swiftf0_bounded<T>(m: SwiftF0Model<T>, total: nat)
    requires
        swiftf0_wf(m),
    ensures
        m.buffer.len() - m.context_held < m.config.min_fresh_samples ==> m.buffer.len()
            < m.config.context_samples + m.config.min_fresh_samples,
        swiftf0_after(m, total).buffer.len() < m.config.context_samples + HOP_SAMPLES,
{
    lemma_swiftf0_shape(m, total);
    let len = m.buffer.len();
    vstd::arithmetic::div_mod::lemma_fundamental_div_mod(len as int, 256);
}

/// Law (what validation refuses): a set of streaming knobs is accepted
/// exactly when both sample counts are multiples of the hop, some fresh
/// audio is required, and progressive mode waits at least one frame.
pub proof fn lemma_params_checks(
    context_samples: nat,
    min_fresh_samples: nat,
    progressive: bool,
    settle_lag_frames: nat,
)
    ensures
        params_error(context_samples, min_fresh_samples, progressive, settle_lag_frames) is None
            <==> (context_samples % 256 == 0 && min_fresh_samples % 256 == 0 && min_fresh_samples
            > 0 && (progressive ==> settle_lag_frames >= 1)),
{
}

/// Law (names mean what they say): each mode is parsed from its own name,
/// and only from it.
pub proof fn lemma_mode_names_literal(s: Seq<char>)
    ensures
        mode_named(s) == Some(Mode::Balanced) <==> s == "balanced"@,
        mode_named(s) == Some(Mode::LowLatency) <==> s == "low_latency"@,
        mode_named(s) == Some(Mode::Progressive) <==> s == "progressive"@,
{
    reveal_strlit("balanced");
    reveal_strlit("low_latency");
    reveal_strlit("progressive");
    assert("balanced"@.len() == 8 && "low_latency"@.len() == 11 && "progressive"@.len() == 11);
    assert("low_latency"@[0] != "progressive"@[0]);
}

/// Law (presets as documented, at 16 samples per ms): `Balanced` keeps
/// 64 ms of context and waits for 64 ms of fresh audio; `LowLatency` keeps
/// 112 ms and waits for 16 ms; `Progressive` uses the same buffers as
/// `LowLatency` and settles a preliminary frame 48 ms of frames later; only
/// `Progressive` emits preliminary frames.
pub proof fn lemma_mode_params_documented()
    ensures
        mode_params(Mode::Balanced).0 == 64 * 16 && mode_params(Mode::Balanced).1 == 64 * 16,
        mode_params(Mode::LowLatency).0 == 112 * 16 && mode_params(Mode::LowLatency).1 == 16 * 16,
        mode_params(Mode::Progressive).0 == mode_params(Mode::LowLatency).0,
        mode_params(Mode::Progressive).1 == mode_params(Mode::LowLatency).1,
        mode_params(Mode::Progressive).3 * HOP_SAMPLES == 48 * 16,
        mode_params(Mode::Progressive).2,
        !mode_params(Mode::Balanced).2 && !mode_params(Mode::LowLatency).2,
{
}

/// Law: every preset yields acceptable streaming knobs.
pub proof fn lemma_mode_params_valid(mode: Mode)
    ensures
        ({
            let (c, f, p, s) = mode_params(mode);
            params_error(c as nat, f as nat, p, s as nat) is None
        }),
{
}

} // verus!

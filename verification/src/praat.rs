//! Praat-style autocorrelation (Boersma 1993): framing and lag bounds.
//!
//! Frames are 2048-sample windows of 48 kHz audio taken every 960 samples
//! (20 ms). Candidate lags run from the period of the highest pitch to the
//! period of the lowest pitch, capped by the window.
use vstd::prelude::*;
use crate::framer::{Framer, framer_initial};

verus! {

/// Sample rate the estimator runs at.
pub const SAMPLE_RATE: u32 = 48000;
/// Samples between consecutive frames (20 ms).
pub const HOP_SAMPLES: usize = 960;
/// Samples per analysis window (>= 3 periods of the lowest pitch).
pub const WINDOW_SAMPLES: usize = 2048;
/// FFT length: at least window + longest lag, so the autocorrelation is linear.
pub const FFT_SIZE: usize = 4096;
/// Lowest pitch searched, in Hz.
pub const FMIN_HZ: u32 = 65;
/// Highest pitch searched, in Hz.
pub const FMAX_HZ: u32 = 1100;

/// A framer handing out the estimator's analysis windows.
pub fn praat_framer<T: Copy>() -> (f: Framer<T>)
    ensures
        f.wf(),
        f@ == framer_initial::<T>(WINDOW_SAMPLES as nat, HOP_SAMPLES as nat),
{
    Framer::new(WINDOW_SAMPLES, HOP_SAMPLES)
}

/// The searched lag range `(lag_min, lag_max)`, in samples: `lag_min` is the
/// sample rate over the highest pitch rounded up, `lag_max` the sample rate
/// over the lowest pitch rounded down, and at most `WINDOW_SAMPLES - 1`.
pub fn lag_range() -> (r: (usize, usize))
    ensures
        r.0 * FMAX_HZ >= SAMPLE_RATE,
        (r.0 - 1) * FMAX_HZ < SAMPLE_RATE,
        r.1 < WINDOW_SAMPLES,
        r.1 * FMIN_HZ <= SAMPLE_RATE,
        (r.1 + 1) * FMIN_HZ > SAMPLE_RATE || r.1 == WINDOW_SAMPLES - 1,
        r.0 < r.1,
{
    let sr = SAMPLE_RATE as usize;
    let lag_min = (sr + FMAX_HZ as usize - 1) / FMAX_HZ as usize;
    let lag_max_frame = sr / FMIN_HZ as usize;
    let lag_max = if lag_max_frame < WINDOW_SAMPLES - 1 {
        lag_max_frame
    } else {
        WINDOW_SAMPLES - 1
    };
    (lag_min, lag_max)
}

/// Whether the peak at `best_lag` has a neighbour on both sides inside the
/// searched range, so that it can be refined by parabolic interpolation.
pub fn can_refine(best_lag: usize, lag_min: usize, lag_max: usize) -> (r: bool)
    ensures
        r == (lag_min < best_lag && best_lag < lag_max),
        r ==> lag_min <= best_lag - 1 && best_lag + 1 <= lag_max,
{
    best_lag > lag_min && best_lag < lag_max
}

} // verus!

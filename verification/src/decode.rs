//! Index logic of the weighted-argmax decoder shared by CREPE and RMVPE:
//! the pitch of a frame is the probability-weighted mean of the bins around
//! the most probable one.
use vstd::prelude::*;

verus! {

/// Bins on each side of the peak that the weighted mean covers.
pub const DECODER_HALF_WINDOW: usize = 4;

/// The inclusive range of bins `[lo, hi]` around `peak` that the decoder
/// averages: `half` bins on each side, clipped to `0 .. bins`.
pub fn decoder_window(peak: usize, half: usize, bins: usize) -> (r: (usize, usize))
    requires
        peak < bins,
        peak + half <= usize::MAX,
    ensures
        r.0 == (if peak >= half { peak - half } else { 0 }),
        r.1 == (if peak + half < bins - 1 { peak + half } else { (bins - 1) as int }),
        r.0 <= peak <= r.1 < bins,
        r.1 - r.0 <= 2 * half,
{
    let lo = peak.saturating_sub(half);
    let hi_unclipped = peak + half;
    let hi = if hi_unclipped < bins - 1 {
        hi_unclipped
    } else {
        bins - 1
    };
    (lo, hi)
}

} // verus!

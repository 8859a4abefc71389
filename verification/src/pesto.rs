//! PESTO: chunking and frame numbering. The model is stateful and reads
//! one 960-sample chunk (20 ms at 48 kHz) per frame.
use vstd::prelude::*;
use crate::framer::{Framer, framer_initial};

verus! {

/// Sample rate PESTO runs at.
pub const SAMPLE_RATE: u32 = 48000;
/// Samples per chunk, one output frame each.
pub const CHUNK_SAMPLES: usize = 960;
/// Length of the model's recurrent cache.
pub const CACHE_SIZE: usize = 3616;

/// A framer handing out consecutive chunks; a chunk's index is its frame index.
pub fn chunk_framer<T: Copy>() -> (f: Framer<T>)
    ensures
        f.wf(),
        f@ == framer_initial::<T>(CHUNK_SAMPLES as nat, CHUNK_SAMPLES as nat),
{
    Framer::new(CHUNK_SAMPLES, CHUNK_SAMPLES)
}

} // verus!

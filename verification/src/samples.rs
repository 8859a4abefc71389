//! Buffer operations on sample vectors, generic over the sample type, and
//! the description of an output frame shared by the model-based streams.
use vstd::prelude::*;

verus! {

/// Where one output frame of a model run comes from: its absolute frame
/// index, the row of the model output that holds it, and whether it will be
/// re-emitted later with refined values.
#[derive(Debug, Clone, Copy, PartialEq, Eq, Structural)]
pub struct FrameSlot {
    pub frame_index: u64,
    pub position: usize,
    pub is_preliminary: bool,
}

/// The indices `0, 1, .., n - 1`: the frame indices a stream has emitted
/// once its next index is `n`.
pub open spec fn first_indices(n: nat) -> Seq<u64> {
    Seq::new(n, |i: int| i as u64)
}

/// Appends every sample of `audio` to `buf`, in order.
pub fn append_samples<T: Copy>(buf: &mut Vec<T>, audio: &[T])
    requires
        old(buf)@.len() + audio@.len() <= usize::MAX,
    ensures
        final(buf)@ == old(buf)@ + audio@,
{
    let ghost b0 = buf@;
    let mut k: usize = 0;
    while k < audio.len()
        invariant
            k <= audio@.len(),
            buf@ == b0 + audio@.subrange(0, k as int),
            b0.len() + audio@.len() <= usize::MAX,
        decreases audio@.len() - k,
    {
        buf.push(audio[k]);
        k = k + 1;
        assert(buf@ =~= b0 + audio@.subrange(0, k as int));
    }
    assert(audio@.subrange(0, audio@.len() as int) =~= audio@);
}

/// A copy of samples `lo .. hi` of `buf`.
pub fn copy_range<T: Copy>(buf: &Vec<T>, lo: usize, hi: usize) -> (r: Vec<T>)
    requires
        lo <= hi <= buf@.len(),
    ensures
        r@ == buf@.subrange(lo as int, hi as int),
{
    let mut r: Vec<T> = Vec::with_capacity(hi - lo);
    let mut j: usize = lo;
    while j < hi
        invariant
            lo <= j <= hi,
            hi <= buf@.len(),
            r@ == buf@.subrange(lo as int, j as int),
        decreases hi - j,
    {
        r.push(buf[j]);
        j = j + 1;
        assert(r@ =~= buf@.subrange(lo as int, j as int));
    }
    r
}

/// Removes the first `k` samples of `buf`.
pub fn drop_front<T>(buf: &mut Vec<T>, k: usize)
    requires
        k <= old(buf)@.len(),
    ensures
        final(buf)@ == old(buf)@.skip(k as int),
{
    let rest = buf.split_off(k);
    *buf = rest;
    assert(buf@ =~= old(buf)@.skip(k as int));
}

} // verus!

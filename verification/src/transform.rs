//! The exact half of the frequency-transform engine.
//!
//! The engine owns the size of the reusable complex workspace — the
//! largest of the window length and the stride — and performs the exact
//! bookkeeping of a transform call: a window no longer than the workspace
//! is zero padded up to the workspace length, a longer window is rejected.
//! The spectral map itself runs on hardware floating point outside the
//! verified core and writes into a workspace of exactly this length; what
//! comes back enters the verified code again as magnitude bit patterns.

use vstd::prelude::*;

use crate::float_bits::ZERO_BITS;
use crate::FttqError;

verus! {

/// A window extended with zero samples up to length `n`.  Meaningful only
/// when the window is no longer than `n`.
pub open spec fn padded_spec(window: Seq<u32>, n: int) -> Seq<u32> {
    window + Seq::new((n - window.len()) as nat, |i: int| ZERO_BITS)
}

/// Owns the workspace length of the reusable transform plan.
pub struct TransformEngine {
    /// Length of the complex scratch buffer: the larger of the window
    /// length and the stride the model was built with.
    pub workspace_len: usize,
}

impl TransformEngine {
    /// Build the engine for window length `w` and stride `s`; the
    /// workspace covers the larger of the two.
    pub fn new(w: usize, s: usize) -> (r: TransformEngine)
        ensures
            r.workspace_len == if w >= s {
                w as int
            } else {
                s as int
            },
    {
        let n: usize = if w >= s {
            w
        } else {
            s
        };
        TransformEngine { workspace_len: n }
    }

    /// Prepare one window for the spectral map: reject a window longer
    /// than the workspace, otherwise hand back the window zero padded to
    /// the workspace length.
    pub fn prepare(&self, window: &Vec<u32>) -> (r: Result<Vec<u32>, FttqError>)
        ensures
            r is Ok <==> window@.len() <= self.workspace_len,
            r matches Ok(p) ==> p@ == padded_spec(window@, self.workspace_len as int),
            r is Err ==> r == Err::<Vec<u32>, FttqError>(FttqError::DimensionError),
    {
        if window.len() > self.workspace_len {
            return Err(FttqError::DimensionError);
        }
        let mut padded: Vec<u32> = Vec::new();
        let mut i: usize = 0;
        while i < window.len()
            invariant
                0 <= i <= window@.len(),
                padded@ == window@.subrange(0, i as int),
            decreases window@.len() - i,
        {
            padded.push(window[i]);
            i = i + 1;
        }
        assert(padded@ == window@);
        while i < self.workspace_len
            invariant
                window@.len() <= i <= self.workspace_len,
                padded@.len() == i,
                padded@.subrange(0, window@.len() as int) == window@,
                forall|j: int| window@.len() <= j < i ==> padded@[j] == ZERO_BITS,
            decreases self.workspace_len - i,
        {
            padded.push(ZERO_BITS);
            i = i + 1;
        }
        proof {
            assert(padded@ =~= padded_spec(window@, self.workspace_len as int));
        }
        Ok(padded)
    }
}

} // verus!

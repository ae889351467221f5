//! Exact bookkeeping of one feature's template matcher.
//!
//! A feature window of length `w·s` is cut into `s` frames of length `w`;
//! each frame goes through the transform engine (zero padded to the
//! workspace length), and its spectral magnitudes come back as bit
//! patterns.  Of every frame only the first `k` frequency bins take part
//! in the similarity computation: the scorer assembles the contribution
//! vector — one entry per template weight — keeping a bin below `k` and
//! zeroing every other bin, and applies the sign of the target label by
//! exact negation.  The inner products of templates with contribution
//! vectors run on hardware floating point outside the verified core.

use vstd::prelude::*;

use crate::float_bits::{neg_bits, ZERO_BITS};
use crate::transform::{padded_spec, TransformEngine};
use crate::FttqError;

verus! {

/// Frame `j` of a feature window: the `j`-th run of `w` consecutive
/// samples.
pub open spec fn frame_spec(window: Seq<u32>, w: int, j: int) -> Seq<u32> {
    window.subrange(j * w, j * w + w)
}

/// One feature's matcher: window length, stride and the number of
/// low-frequency bins kept by the similarity computation.
pub struct FeatureScorer {
    pub w: usize,
    pub s: usize,
    pub k: usize,
}

impl FeatureScorer {
    /// The hyperparameters a scorer can work with: nonzero frame shape
    /// whose template length fits in memory.
    pub open spec fn wf(&self) -> bool {
        &&& self.w > 0
        &&& self.s > 0
        &&& self.w * self.s <= usize::MAX
    }

    /// Cut a feature window into its `s` frames and zero pad each to the
    /// engine's workspace length, ready for the spectral map.  Rejects a
    /// window whose length is not exactly `w·s`.
    pub fn frames(&self, engine: &TransformEngine, window: &Vec<u32>) -> (r: Result<
        Vec<Vec<u32>>,
        FttqError,
    >)
        requires
            self.wf(),
            engine.workspace_len >= self.w,
        ensures
            r is Ok <==> window@.len() == self.w * self.s,
            r matches Ok(fr) ==> {
                &&& fr@.len() == self.s
                &&& forall|j: int|
                    0 <= j < self.s ==> (#[trigger] fr@[j])@ == padded_spec(
                        frame_spec(window@, self.w as int, j),
                        engine.workspace_len as int,
                    )
            },
            r is Err ==> r == Err::<Vec<Vec<u32>>, FttqError>(FttqError::DimensionError),
    {
        let len: usize = self.w * self.s;
        if window.len() != len {
            return Err(FttqError::DimensionError);
        }
        let mut frames: Vec<Vec<u32>> = Vec::new();
        let mut j: usize = 0;
        while j < self.s
            invariant
                self.wf(),
                engine.workspace_len >= self.w,
                window@.len() == self.w * self.s,
                0 <= j <= self.s,
                frames@.len() == j,
                forall|jj: int|
                    0 <= jj < j ==> (#[trigger] frames@[jj])@ == padded_spec(
                        frame_spec(window@, self.w as int, jj),
                        engine.workspace_len as int,
                    ),
            decreases self.s - j,
        {
            proof {
                assert((j + 1) * self.w <= self.s * self.w && j * self.w + self.w == (j + 1)
                    * self.w && self.s * self.w == self.w * self.s) by (nonlinear_arith)
                    requires
                        0 <= j < self.s,
                        0 <= self.w,
                ;
            }
            let start: usize = j * self.w;
            let mut frame: Vec<u32> = Vec::new();
            let mut b: usize = 0;
            while b < self.w
                invariant
                    0 <= b <= self.w,
                    start == j * self.w,
                    start + self.w <= window@.len(),
                    window@.len() <= usize::MAX,
                    frame@ == window@.subrange(start as int, start + b),
                decreases self.w - b,
            {
                frame.push(window[start + b]);
                proof {
                    assert(window@.subrange(start as int, start + b + 1) =~= window@.subrange(
                        start as int,
                        start + b,
                    ).push(window@[start + b]));
                }
                b = b + 1;
            }
            let padded = match engine.prepare(&frame) {
                Ok(p) => p,
                Err(e) => {
                    return Err(e);
                },
            };
            frames.push(padded);
            j = j + 1;
        }
        Ok(frames)
    }

    /// Assemble the contribution vector of one feature from the spectral
    /// magnitudes of its frames: entry `j·w + b` is the magnitude of bin
    /// `b` of frame `j` when `b < k`, and zero otherwise.  Rejects a
    /// magnitude matrix that does not have `s` rows of the workspace
    /// length.
    pub fn contribution(&self, engine: &TransformEngine, mags: &Vec<Vec<u32>>) -> (r: Result<
        Vec<u32>,
        FttqError,
    >)
        requires
            self.wf(),
            engine.workspace_len >= self.w,
        ensures
            r is Ok <==> (mags@.len() == self.s && forall|j: int|
                0 <= j < self.s ==> (#[trigger] mags@[j])@.len() == engine.workspace_len),
            r matches Ok(c) ==> {
                &&& c@.len() == self.w * self.s
                &&& forall|j: int, b: int|
                    0 <= j < self.s && 0 <= b < self.w ==> #[trigger] c@[j * self.w + b] == (
                    if b < self.k {
                        mags@[j]@[b]
                    } else {
                        ZERO_BITS
                    })
            },
            r is Err ==> r == Err::<Vec<u32>, FttqError>(FttqError::DimensionError),
    {
        if mags.len() != self.s {
            return Err(FttqError::DimensionError);
        }
        let mut j: usize = 0;
        let mut c: Vec<u32> = Vec::new();
        while j < self.s
            invariant
                self.wf(),
                engine.workspace_len >= self.w,
                mags@.len() == self.s,
                0 <= j <= self.s,
                c@.len() == j * self.w,
                forall|jj: int| 0 <= jj < j ==> (#[trigger] mags@[jj])@.len() == engine.workspace_len,
                forall|jj: int, b: int|
                    0 <= jj < j && 0 <= b < self.w ==> #[trigger] c@[jj * self.w + b] == (
                    if b < self.k {
                        mags@[jj]@[b]
                    } else {
                        ZERO_BITS
                    }),
            decreases self.s - j,
        {
            proof {
                assert((j + 1) * self.w <= self.s * self.w && j * self.w + self.w == (j + 1)
                    * self.w && self.s * self.w == self.w * self.s) by (nonlinear_arith)
                    requires
                        0 <= j < self.s,
                        0 <= self.w,
                ;
            }
            let row = &mags[j];
            if row.len() != engine.workspace_len {
                return Err(FttqError::DimensionError);
            }
            let mut b: usize = 0;
            while b < self.w
                invariant
                    self.wf(),
                    engine.workspace_len >= self.w,
                    mags@.len() == self.s,
                    0 <= j < self.s,
                    0 <= b <= self.w,
                    row == mags@[j as int],
                    row@.len() == engine.workspace_len,
                    c@.len() == j * self.w + b,
                    j * self.w + self.w <= self.w * self.s,
                    forall|jj: int|
                        0 <= jj < j ==> (#[trigger] mags@[jj])@.len() == engine.workspace_len,
                    forall|jj: int, bb: int|
                        0 <= jj < j && 0 <= bb < self.w ==> #[trigger] c@[jj * self.w + bb] == (
                        if bb < self.k {
                            mags@[jj]@[bb]
                        } else {
                            ZERO_BITS
                        }),
                    forall|bb: int|
                        0 <= bb < b ==> #[trigger] c@[j * self.w + bb] == (if bb < self.k {
                            mags@[j as int]@[bb]
                        } else {
                            ZERO_BITS
                        }),
                decreases self.w - b,
            {
                let ghost c_before = c@;
                if b < self.k {
                    c.push(row[b]);
                } else {
                    c.push(ZERO_BITS);
                }
                b = b + 1;
                proof {
                    assert forall|jj: int, bb: int|
                        0 <= jj < j && 0 <= bb < self.w implies #[trigger] c@[jj * self.w + bb]
                        == (if bb < self.k {
                        mags@[jj]@[bb]
                    } else {
                        ZERO_BITS
                    }) by {
                        assert(jj * self.w + bb < j * self.w) by (nonlinear_arith)
                            requires
                                0 <= jj < j,
                                0 <= bb < self.w,
                        ;
                        assert(c@[jj * self.w + bb] == c_before[jj * self.w + bb]);
                    }
                }
            }
            j = j + 1;
        }
        proof {
            assert(c@.len() == self.s * self.w);
            assert(self.s * self.w == self.w * self.s) by (nonlinear_arith);
        }
        Ok(c)
    }

    /// Apply the sign of the target label to a contribution vector: kept
    /// as it is for a true label, negated entry by entry (an exact sign
    /// bit flip) for a false one.
    pub fn signed_contribution(label: bool, contribution: &Vec<u32>) -> (r: Vec<u32>)
        ensures
            r@.len() == contribution@.len(),
            forall|i: int|
                0 <= i < r@.len() ==> r@[i] == (if label {
                    contribution@[i]
                } else {
                    neg_bits(contribution@[i])
                }),
    {
        let mut r: Vec<u32> = Vec::new();
        let mut i: usize = 0;
        while i < contribution.len()
            invariant
                0 <= i <= contribution@.len(),
                r@.len() == i,
                forall|ii: int|
                    0 <= ii < i ==> r@[ii] == (if label {
                        contribution@[ii]
                    } else {
                        neg_bits(contribution@[ii])
                    }),
            decreases contribution@.len() - i,
        {
            if label {
                r.push(contribution[i]);
            } else {
                r.push(crate::float_bits::f32_bits_negate(contribution[i]));
            }
            i = i + 1;
        }
        r
    }
}

} // verus!

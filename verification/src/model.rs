//! The classifier model: the partitioned weight buffer, its
//! hyperparameters, the pass-through metadata, and the mistake-driven
//! learning step.
//!
//! The model owns a flat weight buffer of `num_features · w · s` bit
//! patterns, cut into one contiguous template per feature.  Scoring a
//! sample — spectral transform, inner products, and their sum — runs on
//! hardware floating point outside the verified core; the summed score
//! returns here as a bit pattern and the strictly-positive decision, the
//! update gating and ternary compression are exact and verified.

use vstd::prelude::*;

use crate::float_bits::{gt_bits, ZERO_BITS};
use crate::scorer::FeatureScorer;
use crate::ternary::{
    is_ternary_bits, quantize_spec, TernaryQuantizer, TERNARY_THRESHOLD_BITS,
};
use crate::transform::TransformEngine;
use crate::FttqError;

verus! {

/// Opaque descriptor of one extracted feature, supplied by the external
/// feature-extraction collaborator; the core stores and forwards it and
/// never reads its contents.
pub struct ExtractionFeature {
    pub descriptor: Vec<u8>,
}

/// Opaque symbolic metadata persisted alongside the quantized templates;
/// the core treats it as a pass-through blob.
pub struct Codebook {
    pub data: Vec<u8>,
}

/// When ternary compression runs after a learning step.
#[derive(Clone, Copy, Debug, PartialEq, Eq, Structural)]
pub enum Compression {
    /// Never compress.
    Off,
    /// Compress after every learning step that changed the weights.
    Always,
    /// Compress after a misclassification, which is the only time a
    /// learning step changes the weights; the observed behaviour of the
    /// training loop, and the default.
    OnMisclassify,
}

impl Default for Compression {
    /// The default policy: compress after a misclassification.
    fn default() -> (r: Compression)
        ensures
            r == Compression::OnMisclassify,
    {
        Compression::OnMisclassify
    }
}

/// One training or scoring input: `num_features` raw feature windows of
/// `w·s` bit patterns each, and the target label.
pub struct Sample {
    pub features: Vec<Vec<u32>>,
    pub label: bool,
}

/// The classifier: weight buffer, hyperparameters, metadata and
/// compression policy.
pub struct FTTQModel {
    /// Flat buffer of `num_features · w · s` weight bit patterns,
    /// partitioned into one template of length `w·s` per feature.
    pub weights: Vec<u32>,
    pub num_features: usize,
    /// Window length of one transform frame.
    pub w: usize,
    /// Stride: the number of frames in one feature window.
    pub s: usize,
    /// Number of low-frequency bins kept by the similarity computation.
    pub k: usize,
    pub extraction_features: Vec<ExtractionFeature>,
    pub codebook: Codebook,
    pub compression: Compression,
}

impl FTTQModel {
    /// Well-formedness: nonzero hyperparameters and a weight buffer of
    /// exactly `num_features · w · s` entries.
    pub open spec fn wf(&self) -> bool {
        &&& self.num_features > 0
        &&& self.w > 0
        &&& self.s > 0
        &&& self.num_features * self.w * self.s <= usize::MAX
        &&& self.weights@.len() == self.num_features * self.w * self.s
    }

    /// Length of one per-feature template.
    pub open spec fn template_len(&self) -> int {
        self.w * self.s
    }

    /// The template of feature `i`: its slice of the weight buffer.
    pub open spec fn template_spec(&self, i: int) -> Seq<u32> {
        self.weights@.subrange(i * self.template_len(), (i + 1) * self.template_len())
    }

    /// Whether a sample fits this model: one window per feature, each of
    /// exactly `w·s` values.
    pub open spec fn sample_wf(&self, sample: &Sample) -> bool {
        &&& sample.features@.len() == self.num_features
        &&& forall|i: int|
            0 <= i < sample.features@.len() ==> (#[trigger] sample.features@[i])@.len() == self.w
                * self.s
    }

    /// Build a model with a zero-initialized weight buffer.  Fails with a
    /// configuration error when a hyperparameter is zero or the buffer
    /// would not fit in memory; on success the buffer has exactly
    /// `num_features · w · s` zero weights.
    pub fn new(
        num_features: usize,
        w: usize,
        s: usize,
        k: usize,
        extraction_features: Vec<ExtractionFeature>,
        codebook: Codebook,
        compression: Compression,
    ) -> (r: Result<FTTQModel, FttqError>)
        ensures
            r is Ok <==> (num_features > 0 && w > 0 && s > 0 && num_features * w * s
                <= usize::MAX),
            r matches Ok(m) ==> {
                &&& m.wf()
                &&& m.num_features == num_features
                &&& m.w == w
                &&& m.s == s
                &&& m.k == k
                &&& m.extraction_features == extraction_features
                &&& m.codebook == codebook
                &&& m.compression == compression
                &&& m.weights@ =~= Seq::new((num_features * w * s) as nat, |i: int| ZERO_BITS)
            },
            r is Err ==> r == Err::<FTTQModel, FttqError>(FttqError::ConfigError),
    {
        if num_features == 0 || w == 0 || s == 0 {
            return Err(FttqError::ConfigError);
        }
        let ws = match w.checked_mul(s) {
            Some(v) => v,
            None => {
                proof {
                    assert(num_features * w * s > usize::MAX) by (nonlinear_arith)
                        requires
                            w * s > usize::MAX,
                            num_features >= 1,
                    ;
                }
                return Err(FttqError::ConfigError);
            },
        };
        let total = match num_features.checked_mul(ws) {
            Some(v) => v,
            None => {
                proof {
                    assert(num_features * w * s == num_features * (w * s)) by (nonlinear_arith);
                }
                return Err(FttqError::ConfigError);
            },
        };
        proof {
            assert(num_features * w * s == num_features * (w * s)) by (nonlinear_arith);
        }
        let mut weights: Vec<u32> = Vec::new();
        let mut i: usize = 0;
        while i < total
            invariant
                0 <= i <= total,
                weights@.len() == i,
                forall|j: int| 0 <= j < i ==> weights@[j] == ZERO_BITS,
            decreases total - i,
        {
            weights.push(ZERO_BITS);
            i = i + 1;
        }
        Ok(
            FTTQModel {
                weights,
                num_features,
                w,
                s,
                k,
                extraction_features,
                codebook,
                compression,
            },
        )
    }

    /// Build a model around a caller-owned weight buffer, copying its
    /// contents so that training works on the model's own storage.  Fails
    /// with a configuration error when a hyperparameter is zero or the
    /// buffer length does not match `num_features · w · s`; never
    /// truncates or pads.
    pub fn new_mut(
        weights: &Vec<u32>,
        num_features: usize,
        w: usize,
        s: usize,
        k: usize,
        extraction_features: Vec<ExtractionFeature>,
        codebook: Codebook,
        compression: Compression,
    ) -> (r: Result<FTTQModel, FttqError>)
        ensures
            r is Ok <==> (num_features > 0 && w > 0 && s > 0 && weights@.len() == num_features * w
                * s),
            r matches Ok(m) ==> {
                &&& m.wf()
                &&& m.num_features == num_features
                &&& m.w == w
                &&& m.s == s
                &&& m.k == k
                &&& m.extraction_features == extraction_features
                &&& m.codebook == codebook
                &&& m.compression == compression
                &&& m.weights@ == weights@
            },
            r is Err ==> r == Err::<FTTQModel, FttqError>(FttqError::ConfigError),
    {
        let wlen = weights.len();
        if num_features == 0 || w == 0 || s == 0 {
            return Err(FttqError::ConfigError);
        }
        let ws = match w.checked_mul(s) {
            Some(v) => v,
            None => {
                proof {
                    assert(num_features * w * s > usize::MAX) by (nonlinear_arith)
                        requires
                            w * s > usize::MAX,
                            num_features >= 1,
                    ;
                }
                return Err(FttqError::ConfigError);
            },
        };
        let total = match num_features.checked_mul(ws) {
            Some(v) => v,
            None => {
                proof {
                    assert(num_features * w * s == num_features * (w * s)) by (nonlinear_arith);
                }
                return Err(FttqError::ConfigError);
            },
        };
        proof {
            assert(num_features * w * s == num_features * (w * s)) by (nonlinear_arith);
        }
        if wlen != total {
            return Err(FttqError::ConfigError);
        }
        let mut copy: Vec<u32> = Vec::new();
        let mut i: usize = 0;
        while i < total
            invariant
                0 <= i <= total,
                total == weights@.len(),
                copy@ == weights@.subrange(0, i as int),
            decreases total - i,
        {
            copy.push(weights[i]);
            proof {
                assert(weights@.subrange(0, i + 1) =~= weights@.subrange(0, i as int).push(
                    weights@[i as int],
                ));
            }
            i = i + 1;
        }
        proof {
            assert(copy@ =~= weights@);
        }
        Ok(
            FTTQModel {
                weights: copy,
                num_features,
                w,
                s,
                k,
                extraction_features,
                codebook,
                compression,
            },
        )
    }

    /// The scorer of one feature, sharing the model's hyperparameters.
    pub fn scorer(&self) -> (r: FeatureScorer)
        requires
            self.wf(),
        ensures
            r.w == self.w,
            r.s == self.s,
            r.k == self.k,
            r.wf(),
    {
        proof {
            assert(self.w * self.s <= self.num_features * self.w * self.s) by (nonlinear_arith)
                requires
                    self.num_features >= 1,
                    self.w >= 0,
                    self.s >= 0,
            ;
        }
        FeatureScorer { w: self.w, s: self.s, k: self.k }
    }

    /// The transform engine the model was built for: its workspace covers
    /// the larger of `w` and `s`.
    pub fn engine(&self) -> (r: TransformEngine)
        requires
            self.wf(),
        ensures
            r.workspace_len >= self.w,
            r.workspace_len >= self.s,
            r.workspace_len == if self.w >= self.s {
                self.w as int
            } else {
                self.s as int
            },
    {
        TransformEngine::new(self.w, self.s)
    }

    /// Copy out the template of feature `i`.
    pub fn template(&self, i: usize) -> (t: Vec<u32>)
        requires
            self.wf(),
            i < self.num_features,
        ensures
            t@ == self.template_spec(i as int),
    {
        proof {
            assert((i + 1) * (self.w * self.s) <= self.num_features * self.w * self.s && i * (
            self.w * self.s) + self.w * self.s == (i + 1) * (self.w * self.s)) by (nonlinear_arith)
                requires
                    0 <= i < self.num_features,
                    self.w >= 0,
                    self.s >= 0,
            ;
        }
        let ws: usize = self.w * self.s;
        let start: usize = i * ws;
        let mut t: Vec<u32> = Vec::new();
        let mut j: usize = 0;
        while j < ws
            invariant
                0 <= j <= ws,
                start == i * ws,
                start + ws <= self.weights@.len(),
                self.weights@.len() <= usize::MAX,
                t@ == self.weights@.subrange(start as int, start + j),
            decreases ws - j,
        {
            t.push(self.weights[start + j]);
            proof {
                assert(self.weights@.subrange(start as int, start + j + 1)
                    =~= self.weights@.subrange(start as int, start + j).push(
                    self.weights@[start + j],
                ));
            }
            j = j + 1;
        }
        t
    }

    /// Check a sample against the model's shape: exactly one window per
    /// feature, each of exactly `w·s` values.
    pub fn check_sample(&self, sample: &Sample) -> (r: bool)
        requires
            self.wf(),
        ensures
            r == self.sample_wf(sample),
    {
        if sample.features.len() != self.num_features {
            return false;
        }
        proof {
            assert(self.w * self.s <= self.num_features * self.w * self.s) by (nonlinear_arith)
                requires
                    self.num_features >= 1,
                    self.w >= 0,
                    self.s >= 0,
            ;
        }
        let ws: usize = self.w * self.s;
        let mut i: usize = 0;
        while i < sample.features.len()
            invariant
                self.wf(),
                ws == self.w * self.s,
                0 <= i <= sample.features@.len(),
                forall|j: int|
                    0 <= j < i ==> (#[trigger] sample.features@[j])@.len() == self.w * self.s,
            decreases sample.features@.len() - i,
        {
            if sample.features[i].len() != ws {
                return false;
            }
            i = i + 1;
        }
        true
    }

    /// The binary decision on a summed score: true exactly when the score
    /// is a strictly positive number, and false on zero, on every
    /// negative value and on NaN.  Deterministic and pure: the result is
    /// a function of the score bits alone and the model is not touched.
    pub fn predict(&self, score_bits: u32) -> (r: bool)
        ensures
            r == gt_bits(score_bits, ZERO_BITS),
    {
        crate::float_bits::f32_bits_is_positive(score_bits)
    }

    /// One mistake-driven learning step.  When the prediction already
    /// matches the label, nothing changes and no compression runs.  On a
    /// misclassification the nudged weight buffer — the old weights moved
    /// by the signed, scaled contributions, computed by the caller on the
    /// model's templates — replaces the old buffer, and is then collapsed
    /// to ternary values when the compression policy asks for it.  A
    /// nudged buffer of the wrong length is rejected and the model is
    /// left unchanged.
    pub fn update(&mut self, predicted: bool, label: bool, nudged: &Vec<u32>) -> (r: Result<
        bool,
        FttqError,
    >)
        requires
            old(self).wf(),
        ensures
            final(self).wf(),
            final(self).num_features == old(self).num_features,
            final(self).w == old(self).w,
            final(self).s == old(self).s,
            final(self).k == old(self).k,
            final(self).extraction_features == old(self).extraction_features,
            final(self).codebook == old(self).codebook,
            final(self).compression == old(self).compression,
            predicted == label ==> r == Ok::<bool, FttqError>(false) && *final(self) == *old(self),
            predicted != label && nudged@.len() != old(self).weights@.len() ==> r == Err::<
                bool,
                FttqError,
            >(FttqError::DimensionError) && *final(self) == *old(self),
            predicted != label && nudged@.len() == old(self).weights@.len() ==> {
                &&& r == Ok::<bool, FttqError>(true)
                &&& (old(self).compression is Off ==> final(self).weights@ == nudged@)
                &&& (!(old(self).compression is Off) ==> final(self).weights@ == nudged@.map_values(
                    |b: u32| quantize_spec(b, TERNARY_THRESHOLD_BITS),
                ))
                &&& (!(old(self).compression is Off) ==> forall|i: int|
                    0 <= i < final(self).weights@.len() ==> is_ternary_bits(
                        #[trigger] final(self).weights@[i],
                    ))
            },
    {
        if predicted == label {
            return Ok(false);
        }
        if nudged.len() != self.weights.len() {
            return Err(FttqError::DimensionError);
        }
        let total = self.weights.len();
        let mut fresh: Vec<u32> = Vec::new();
        let mut i: usize = 0;
        while i < total
            invariant
                0 <= i <= total,
                total == nudged@.len(),
                fresh@ == nudged@.subrange(0, i as int),
            decreases total - i,
        {
            fresh.push(nudged[i]);
            proof {
                assert(nudged@.subrange(0, i + 1) =~= nudged@.subrange(0, i as int).push(
                    nudged@[i as int],
                ));
            }
            i = i + 1;
        }
        proof {
            assert(fresh@ =~= nudged@);
        }
        self.weights = fresh;
        match self.compression {
            Compression::Off => {},
            Compression::Always | Compression::OnMisclassify => {
                TernaryQuantizer::compress(&mut self.weights, TERNARY_THRESHOLD_BITS);
                proof {
                    assert(self.weights@ =~= nudged@.map_values(
                        |b: u32| quantize_spec(b, TERNARY_THRESHOLD_BITS),
                    ));
                }
            },
        }
        Ok(true)
    }
}

/// For every valid construction the weight buffer length is the product
/// of the number of features, the window length and the stride.
pub proof fn lemma_weight_buffer_length(m: FTTQModel)
    requires
        m.wf(),
    ensures
        m.weights@.len() == m.num_features * m.w * m.s,
{
}

/// Every template is a slice of the weight buffer of length `w·s`, and
/// neighbouring templates do not overlap: template `i` ends exactly where
/// template `i + 1` begins.
pub proof fn lemma_template_partition(m: FTTQModel, i: int)
    requires
        m.wf(),
        0 <= i < m.num_features,
    ensures
        m.template_spec(i).len() == m.w * m.s,
        (i + 1) * m.template_len() == i * m.template_len() + m.template_len(),
        (i + 1) * m.template_len() <= m.weights@.len(),
        forall|j: int|
            0 <= j < m.template_len() ==> m.template_spec(i)[j] == m.weights@[i * m.template_len()
                + j],
{
    assert((i + 1) * (m.w * m.s) <= m.num_features * m.w * m.s && i * (m.w * m.s) + m.w * m.s == (
    i + 1) * (m.w * m.s) && (i + 1) * (m.w * m.s) >= 0 && i * (m.w * m.s) >= 0) by (nonlinear_arith)
        requires
            0 <= i < m.num_features,
            m.w >= 1,
            m.s >= 1,
    ;
}

} // verus!

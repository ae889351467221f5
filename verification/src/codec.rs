//! A byte codec for the persisted model.
//!
//! The persisted representation is plain data: the four hyperparameters
//! and the compression policy, the flat weight buffer, the extraction
//! descriptors and the codebook, in one little-endian, length-prefixed
//! byte string.  The transform plan and its workspace are transient and
//! are never persisted; they are rebuilt from the hyperparameters on
//! load.  Decoding inverts encoding exactly: the contract of
//! [`FTTQModel::from_bytes`] states, for every well-formed model, that
//! the bytes of [`FTTQModel::to_bytes`] decode to a model with the same
//! hyperparameters, the same weight buffer, and the same metadata.

use vstd::prelude::*;

use vstd::bytes::{
    lemma_auto_spec_u32_to_from_le_bytes, lemma_auto_spec_u64_to_from_le_bytes,
    spec_u32_to_le_bytes, spec_u64_to_le_bytes, u32_from_le_bytes, u32_to_le_bytes,
    u64_from_le_bytes, u64_to_le_bytes,
};
use vstd::slice::slice_subrange;
use vstd::std_specs::vec::spec_vec_len;

use crate::model::{Codebook, Compression, ExtractionFeature, FTTQModel};
use crate::FttqError;

verus! {

/// The byte tag of a compression policy.
pub open spec fn tag_of(c: Compression) -> u8 {
    match c {
        Compression::Off => 0u8,
        Compression::Always => 1u8,
        Compression::OnMisclassify => 2u8,
    }
}

/// A length-prefixed blob: eight little-endian length bytes, then the
/// blob itself.
pub open spec fn blob_bytes(b: Seq<u8>) -> Seq<u8> {
    spec_u64_to_le_bytes(b.len() as u64) + b
}

/// The weight buffer as bytes: each weight bit pattern in little-endian
/// order, in buffer order.
pub open spec fn weights_bytes(ws: Seq<u32>) -> Seq<u8>
    decreases ws.len(),
{
    if ws.len() == 0 {
        Seq::empty()
    } else {
        spec_u32_to_le_bytes(ws[0]) + weights_bytes(ws.drop_first())
    }
}

/// The extraction descriptors as bytes: each one a length-prefixed blob,
/// in order.
pub open spec fn features_bytes(efs: Seq<ExtractionFeature>) -> Seq<u8>
    decreases efs.len(),
{
    if efs.len() == 0 {
        Seq::empty()
    } else {
        blob_bytes(efs[0].descriptor@) + features_bytes(efs.drop_first())
    }
}

/// The fixed-size head of an encoded model: the four hyperparameters as
/// little-endian doublewords and the compression tag byte.
pub open spec fn header_bytes(m: FTTQModel) -> Seq<u8> {
    spec_u64_to_le_bytes(m.num_features as u64) + spec_u64_to_le_bytes(m.w as u64)
        + spec_u64_to_le_bytes(m.s as u64) + spec_u64_to_le_bytes(m.k as u64) + seq![
        tag_of(m.compression),
    ]
}

/// Everything after the head: the weight bytes, the descriptor count,
/// the descriptors and the codebook blob.
pub open spec fn tail_bytes(m: FTTQModel) -> Seq<u8> {
    weights_bytes(m.weights@) + spec_u64_to_le_bytes(m.extraction_features@.len() as u64)
        + features_bytes(m.extraction_features@) + blob_bytes(m.codebook.data@)
}

/// The full encoded form of a model.
pub open spec fn spec_encode(m: FTTQModel) -> Seq<u8> {
    header_bytes(m) + tail_bytes(m)
}

/// Whether a byte string is the encoding of a well-formed model.
pub open spec fn encodes(bytes: Seq<u8>, m: FTTQModel) -> bool {
    &&& m.wf()
    &&& bytes == spec_encode(m)
}

/// The descriptor contents of a feature list, in order.
pub open spec fn descriptor_views(efs: Seq<ExtractionFeature>) -> Seq<Seq<u8>> {
    efs.map_values(|e: ExtractionFeature| e.descriptor@)
}

/// Two models carry the same persisted state: equal hyperparameters,
/// equal compression policy, equal weight buffers, and equal metadata.
pub open spec fn model_view_eq(a: FTTQModel, b: FTTQModel) -> bool {
    &&& a.num_features == b.num_features
    &&& a.w == b.w
    &&& a.s == b.s
    &&& a.k == b.k
    &&& a.compression == b.compression
    &&& a.weights@ == b.weights@
    &&& descriptor_views(a.extraction_features@) == descriptor_views(b.extraction_features@)
    &&& a.codebook.data@ == b.codebook.data@
}

/// Appending one weight to a buffer appends its four bytes to the
/// buffer's encoding.
proof fn lemma_weights_bytes_snoc(ws: Seq<u32>)
    requires
        ws.len() > 0,
    ensures
        weights_bytes(ws) == weights_bytes(ws.drop_last()) + spec_u32_to_le_bytes(ws.last()),
    decreases ws.len(),
{
    if ws.len() == 1 {
        assert(weights_bytes(ws.drop_first()) =~= Seq::<u8>::empty());
        assert(weights_bytes(ws.drop_last()) =~= Seq::<u8>::empty());
        assert(ws.last() == ws[0]);
        assert(weights_bytes(ws) =~= weights_bytes(ws.drop_last()) + spec_u32_to_le_bytes(
            ws.last(),
        ));
    } else {
        lemma_weights_bytes_snoc(ws.drop_first());
        assert(ws.drop_first().drop_last() =~= ws.drop_last().drop_first());
        assert(ws.drop_last()[0] == ws[0]);
        assert(weights_bytes(ws) =~= weights_bytes(ws.drop_last()) + spec_u32_to_le_bytes(
            ws.last(),
        ));
    }
}

/// Appending one descriptor appends its blob to the descriptor list's
/// encoding.
proof fn lemma_features_bytes_snoc(efs: Seq<ExtractionFeature>)
    requires
        efs.len() > 0,
    ensures
        features_bytes(efs) == features_bytes(efs.drop_last()) + blob_bytes(
            efs.last().descriptor@,
        ),
    decreases efs.len(),
{
    if efs.len() == 1 {
        assert(features_bytes(efs.drop_first()) =~= Seq::<u8>::empty());
        assert(features_bytes(efs.drop_last()) =~= Seq::<u8>::empty());
        assert(efs.last() == efs[0]);
        assert(features_bytes(efs) =~= features_bytes(efs.drop_last()) + blob_bytes(
            efs.last().descriptor@,
        ));
    } else {
        lemma_features_bytes_snoc(efs.drop_first());
        assert(efs.drop_first().drop_last() =~= efs.drop_last().drop_first());
        assert(efs.drop_last()[0] == efs[0]);
        assert(features_bytes(efs) =~= features_bytes(efs.drop_last()) + blob_bytes(
            efs.last().descriptor@,
        ));
    }
}

/// Push every byte of `src` onto the end of `out`.
fn append_bytes(out: &mut Vec<u8>, src: &Vec<u8>)
    ensures
        final(out)@ == old(out)@ + src@,
{
    let mut i: usize = 0;
    while i < src.len()
        invariant
            0 <= i <= src@.len(),
            out@ == old(out)@ + src@.subrange(0, i as int),
        decreases src@.len() - i,
    {
        out.push(src[i]);
        proof {
            assert(src@.subrange(0, i + 1) =~= src@.subrange(0, i as int).push(src@[i as int]));
        }
        i = i + 1;
    }
    proof {
        assert(old(out)@ + src@.subrange(0, src@.len() as int) =~= old(out)@ + src@);
    }
}

/// Copy `len` bytes of `src` starting at `start`.
fn read_bytes(src: &Vec<u8>, start: usize, len: usize) -> (r: Vec<u8>)
    requires
        start + len <= src@.len(),
    ensures
        r@ == src@.subrange(start as int, start + len),
{
    let mut r: Vec<u8> = Vec::new();
    let n = src.len();
    let mut i: usize = 0;
    while i < len
        invariant
            0 <= i <= len,
            n == src@.len(),
            start + len <= n,
            r@ == src@.subrange(start as int, start + i),
        decreases len - i,
    {
        r.push(src[start + i]);
        proof {
            assert(src@.subrange(start as int, start + i + 1) =~= src@.subrange(
                start as int,
                start + i,
            ).push(src@[start + i]));
        }
        i = i + 1;
    }
    r
}

impl FTTQModel {
    /// Encode the model into its persisted byte form.
    pub fn to_bytes(&self) -> (r: Vec<u8>)
        ensures
            r@ == spec_encode(*self),
    {
        let mut out: Vec<u8> = Vec::new();
        let mut t = u64_to_le_bytes(self.num_features as u64);
        out.append(&mut t);
        let mut t = u64_to_le_bytes(self.w as u64);
        out.append(&mut t);
        let mut t = u64_to_le_bytes(self.s as u64);
        out.append(&mut t);
        let mut t = u64_to_le_bytes(self.k as u64);
        out.append(&mut t);
        let tag: u8 = match self.compression {
            Compression::Off => 0,
            Compression::Always => 1,
            Compression::OnMisclassify => 2,
        };
        out.push(tag);
        proof {
            assert(out@ =~= header_bytes(*self));
        }
        let ghost header = out@;
        let total = self.weights.len();
        let mut i: usize = 0;
        while i < total
            invariant
                total == self.weights@.len(),
                0 <= i <= total,
                out@ == header + weights_bytes(self.weights@.subrange(0, i as int)),
            decreases total - i,
        {
            let mut wb = u32_to_le_bytes(self.weights[i]);
            out.append(&mut wb);
            proof {
                let pre = self.weights@.subrange(0, i as int);
                let post = self.weights@.subrange(0, i + 1);
                lemma_weights_bytes_snoc(post);
                assert(post.drop_last() =~= pre);
                assert(out@ =~= header + weights_bytes(post));
            }
            i = i + 1;
        }
        proof {
            assert(self.weights@.subrange(0, self.weights@.len() as int) =~= self.weights@);
        }
        let mut t = u64_to_le_bytes(self.extraction_features.len() as u64);
        out.append(&mut t);
        let ghost mid = out@;
        let nef = self.extraction_features.len();
        let mut j: usize = 0;
        while j < nef
            invariant
                nef == self.extraction_features@.len(),
                0 <= j <= nef,
                out@ == mid + features_bytes(self.extraction_features@.subrange(0, j as int)),
            decreases nef - j,
        {
            let desc = &self.extraction_features[j].descriptor;
            let mut t = u64_to_le_bytes(desc.len() as u64);
            out.append(&mut t);
            append_bytes(&mut out, desc);
            proof {
                let pre = self.extraction_features@.subrange(0, j as int);
                let post = self.extraction_features@.subrange(0, j + 1);
                lemma_features_bytes_snoc(post);
                assert(post.drop_last() =~= pre);
                assert(post.last() == self.extraction_features@[j as int]);
                assert(out@ =~= mid + features_bytes(post));
            }
            j = j + 1;
        }
        proof {
            assert(self.extraction_features@.subrange(0, self.extraction_features@.len() as int)
                =~= self.extraction_features@);
        }
        let mut t = u64_to_le_bytes(self.codebook.data.len() as u64);
        out.append(&mut t);
        append_bytes(&mut out, &self.codebook.data);
        proof {
            assert(out@ =~= spec_encode(*self));
        }
        out
    }

    /// Decode a persisted byte form back into a model.  This inverts
    /// [`FTTQModel::to_bytes`] exactly: for every well-formed model whose
    /// encoding these bytes are, decoding succeeds and yields a model
    /// with the same hyperparameters, the same compression policy, the
    /// same weight buffer and the same metadata.  Malformed bytes are
    /// rejected.
    #[verifier::rlimit(100)]
    pub fn from_bytes(bytes: &Vec<u8>) -> (r: Result<FTTQModel, FttqError>)
        ensures
            forall|m: FTTQModel|
                #[trigger] encodes(bytes@, m) ==> (r matches Ok(d) && model_view_eq(d, m) && d.wf()),
    {
        let n = bytes.len();
        let sl = bytes.as_slice();
        if n < 33 {
            proof {
                lemma_auto_spec_u64_to_from_le_bytes();
                assert forall|m: FTTQModel| #![trigger encodes(bytes@, m)] encodes(bytes@, m) implies false by {
                    assert(spec_encode(m).len() >= 33);
                }
            }
            return Err(FttqError::DimensionError);
        }
        let nf64 = u64_from_le_bytes(slice_subrange(sl, 0, 8));
        let w64 = u64_from_le_bytes(slice_subrange(sl, 8, 16));
        let s64 = u64_from_le_bytes(slice_subrange(sl, 16, 24));
        let k64 = u64_from_le_bytes(slice_subrange(sl, 24, 32));
        let tagb = bytes[32];
        proof {
            lemma_auto_spec_u64_to_from_le_bytes();
            assert forall|m: FTTQModel| #![trigger encodes(bytes@, m)] encodes(bytes@, m) implies (nf64 == m.num_features as u64
                && w64 == m.w as u64 && s64 == m.s as u64 && k64 == m.k as u64 && tagb == tag_of(
                m.compression,
            ) && bytes@.skip(33) == tail_bytes(m)) by {
                assert(bytes@.subrange(0, 8) =~= spec_u64_to_le_bytes(m.num_features as u64));
                assert(bytes@.subrange(8, 16) =~= spec_u64_to_le_bytes(m.w as u64));
                assert(bytes@.subrange(16, 24) =~= spec_u64_to_le_bytes(m.s as u64));
                assert(bytes@.subrange(24, 32) =~= spec_u64_to_le_bytes(m.k as u64));
                assert(bytes@[32] == tag_of(m.compression));
                assert(bytes@.skip(33) =~= tail_bytes(m));
            }
        }
        if nf64 > usize::MAX as u64 || w64 > usize::MAX as u64 || s64 > usize::MAX as u64 || k64
            > usize::MAX as u64 {
            return Err(FttqError::DimensionError);
        }
        let nf = nf64 as usize;
        let w = w64 as usize;
        let s = s64 as usize;
        let k = k64 as usize;
        if nf == 0 || w == 0 || s == 0 {
            return Err(FttqError::DimensionError);
        }
        let comp = if tagb == 0 {
            Compression::Off
        } else if tagb == 1 {
            Compression::Always
        } else if tagb == 2 {
            Compression::OnMisclassify
        } else {
            return Err(FttqError::DimensionError);
        };
        let ws_prod = match w.checked_mul(s) {
            Some(v) => v,
            None => {
                proof {
                    assert forall|m: FTTQModel| #![trigger encodes(bytes@, m)] encodes(bytes@, m) implies false by {
                        assert(m.w * m.s <= m.num_features * m.w * m.s) by (nonlinear_arith)
                            requires
                                m.num_features >= 1,
                                m.w >= 0,
                                m.s >= 0,
                        ;
                    }
                }
                return Err(FttqError::DimensionError);
            },
        };
        let total = match nf.checked_mul(ws_prod) {
            Some(v) => v,
            None => {
                proof {
                    assert forall|m: FTTQModel| #![trigger encodes(bytes@, m)] encodes(bytes@, m) implies false by {
                        assert(m.num_features * (m.w * m.s) == m.num_features * m.w * m.s)
                            by (nonlinear_arith);
                    }
                }
                return Err(FttqError::DimensionError);
            },
        };
        proof {
            assert forall|m: FTTQModel| #![trigger encodes(bytes@, m)] encodes(bytes@, m) implies (total == m.weights@.len()
                && comp == m.compression) by {
                assert(m.num_features * (m.w * m.s) == m.num_features * m.w * m.s)
                    by (nonlinear_arith);
            }
        }
        let mut cursor: usize = 33;
        let mut wacc: Vec<u32> = Vec::new();
        let mut i: usize = 0;
        proof {
            assert forall|m: FTTQModel| #![trigger encodes(bytes@, m)] encodes(bytes@, m) implies (wacc@ == m.weights@.subrange(
                0,
                0,
            ) && bytes@.skip(33) == weights_bytes(m.weights@.skip(0)) + spec_u64_to_le_bytes(
                m.extraction_features@.len() as u64,
            ) + features_bytes(m.extraction_features@) + blob_bytes(m.codebook.data@)) by {
                assert(m.weights@.skip(0) =~= m.weights@);
                assert(wacc@ =~= m.weights@.subrange(0, 0));
            }
        }
        while i < total
            invariant
                n == bytes@.len(),
                sl@ == bytes@,
                0 <= i <= total,
                cursor == 33 + 4 * i,
                cursor <= n,
                wacc@.len() == i,
                forall|m: FTTQModel|
                    #[trigger] encodes(bytes@, m) ==> (total == m.weights@.len() && comp == m.compression
                        && nf == m.num_features && w == m.w && s == m.s && k == m.k && wacc@
                        == m.weights@.subrange(0, i as int) && bytes@.skip(cursor as int)
                        == weights_bytes(m.weights@.skip(i as int)) + spec_u64_to_le_bytes(
                        m.extraction_features@.len() as u64,
                    ) + features_bytes(m.extraction_features@) + blob_bytes(m.codebook.data@)),
            decreases total - i,
        {
            if n - cursor < 4 {
                proof {
                    lemma_auto_spec_u32_to_from_le_bytes();
                    assert forall|m: FTTQModel| #![trigger encodes(bytes@, m)] encodes(bytes@, m) implies false by {
                        let ws0 = m.weights@.skip(i as int);
                        assert(ws0.len() > 0);
                        assert(weights_bytes(ws0) == spec_u32_to_le_bytes(ws0[0]) + weights_bytes(
                            ws0.drop_first(),
                        ));
                        assert(bytes@.skip(cursor as int).len() >= 4);
                    }
                }
                return Err(FttqError::DimensionError);
            }
            let v = u32_from_le_bytes(slice_subrange(sl, cursor, cursor + 4));
            wacc.push(v);
            proof {
                lemma_auto_spec_u32_to_from_le_bytes();
                assert forall|m: FTTQModel| #![trigger encodes(bytes@, m)] encodes(bytes@, m) implies (v == m.weights@[i as int]
                    && wacc@ == m.weights@.subrange(0, i + 1) && bytes@.skip(cursor + 4)
                    == weights_bytes(m.weights@.skip(i + 1)) + spec_u64_to_le_bytes(
                    m.extraction_features@.len() as u64,
                ) + features_bytes(m.extraction_features@) + blob_bytes(m.codebook.data@)) by {
                    let ws0 = m.weights@.skip(i as int);
                    assert(ws0.len() > 0);
                    assert(weights_bytes(ws0) == spec_u32_to_le_bytes(ws0[0]) + weights_bytes(
                        ws0.drop_first(),
                    ));
                    assert(ws0[0] == m.weights@[i as int]);
                    assert(ws0.drop_first() =~= m.weights@.skip(i + 1));
                    let rhs = weights_bytes(ws0) + spec_u64_to_le_bytes(
                        m.extraction_features@.len() as u64,
                    ) + features_bytes(m.extraction_features@) + blob_bytes(m.codebook.data@);
                    assert(bytes@.skip(cursor as int) == rhs);
                    assert(spec_u32_to_le_bytes(ws0[0]).len() == 4);
                    assert(rhs.subrange(0, 4) =~= spec_u32_to_le_bytes(ws0[0]));
                    assert(bytes@.subrange(cursor as int, cursor + 4) =~= bytes@.skip(
                        cursor as int,
                    ).subrange(0, 4));
                    assert(bytes@.subrange(cursor as int, cursor + 4) == spec_u32_to_le_bytes(
                        m.weights@[i as int],
                    ));
                    assert(wacc@ =~= m.weights@.subrange(0, i + 1));
                    assert(rhs.skip(4) =~= weights_bytes(m.weights@.skip(i + 1))
                        + spec_u64_to_le_bytes(m.extraction_features@.len() as u64)
                        + features_bytes(m.extraction_features@) + blob_bytes(m.codebook.data@));
                    assert(bytes@.skip(cursor + 4) =~= bytes@.skip(cursor as int).skip(4));
                    assert(bytes@.skip(cursor + 4) == weights_bytes(m.weights@.skip(i + 1))
                        + spec_u64_to_le_bytes(m.extraction_features@.len() as u64)
                        + features_bytes(m.extraction_features@) + blob_bytes(m.codebook.data@));
                }
            }
            cursor = cursor + 4;
            i = i + 1;
        }
        proof {
            assert forall|m: FTTQModel| #![trigger encodes(bytes@, m)] encodes(bytes@, m) implies (wacc@ == m.weights@
                && bytes@.skip(cursor as int) == spec_u64_to_le_bytes(
                m.extraction_features@.len() as u64,
            ) + features_bytes(m.extraction_features@) + blob_bytes(m.codebook.data@)) by {
                assert(m.weights@.subrange(0, total as int) =~= m.weights@);
                assert(weights_bytes(m.weights@.skip(total as int)) =~= Seq::<u8>::empty());
                assert(bytes@.skip(cursor as int) =~= spec_u64_to_le_bytes(
                    m.extraction_features@.len() as u64,
                ) + features_bytes(m.extraction_features@) + blob_bytes(m.codebook.data@));
            }
        }
        if n - cursor < 8 {
            proof {
                lemma_auto_spec_u64_to_from_le_bytes();
                assert forall|m: FTTQModel| #![trigger encodes(bytes@, m)] encodes(bytes@, m) implies false by {
                    assert(bytes@.skip(cursor as int).len() >= 8);
                }
            }
            return Err(FttqError::DimensionError);
        }
        let cnt64 = u64_from_le_bytes(slice_subrange(sl, cursor, cursor + 8));
        proof {
            lemma_auto_spec_u64_to_from_le_bytes();
            assert forall|m: FTTQModel| #![trigger encodes(bytes@, m)] encodes(bytes@, m) implies (cnt64
                == m.extraction_features@.len() as u64 && bytes@.skip(cursor + 8)
                == features_bytes(m.extraction_features@) + blob_bytes(m.codebook.data@)) by {
                let rhs = spec_u64_to_le_bytes(m.extraction_features@.len() as u64)
                    + features_bytes(m.extraction_features@) + blob_bytes(m.codebook.data@);
                assert(bytes@.skip(cursor as int) == rhs);
                assert(rhs.subrange(0, 8) =~= spec_u64_to_le_bytes(
                    m.extraction_features@.len() as u64,
                ));
                assert(bytes@.subrange(cursor as int, cursor + 8) =~= bytes@.skip(
                    cursor as int,
                ).subrange(0, 8));
                assert(bytes@.subrange(cursor as int, cursor + 8) == spec_u64_to_le_bytes(
                    m.extraction_features@.len() as u64,
                ));
                assert(rhs.skip(8) =~= features_bytes(m.extraction_features@) + blob_bytes(
                    m.codebook.data@,
                ));
                assert(bytes@.skip(cursor + 8) =~= bytes@.skip(cursor as int).skip(8));
                assert(bytes@.skip(cursor + 8) == features_bytes(m.extraction_features@)
                    + blob_bytes(m.codebook.data@));
            }
        }
        cursor = cursor + 8;
        if cnt64 > usize::MAX as u64 {
            proof {
                assert forall|m: FTTQModel| #![trigger encodes(bytes@, m)] encodes(bytes@, m) implies false by {
                    assert(spec_vec_len(&m.extraction_features) == m.extraction_features@.len());
                }
            }
            return Err(FttqError::DimensionError);
        }
        let cnt = cnt64 as usize;
        let mut efacc: Vec<ExtractionFeature> = Vec::new();
        let mut j: usize = 0;
        proof {
            assert forall|m: FTTQModel| #![trigger encodes(bytes@, m)] encodes(bytes@, m) implies (
            bytes@.skip(cursor as int) == features_bytes(m.extraction_features@.skip(0))
                + blob_bytes(m.codebook.data@) && cnt == m.extraction_features@.len()) by {
                assert(m.extraction_features@.skip(0) =~= m.extraction_features@);
                assert(spec_vec_len(&m.extraction_features) == m.extraction_features@.len());
                assert(cnt == m.extraction_features@.len());
            }
        }
        while j < cnt
            invariant
                n == bytes@.len(),
                sl@ == bytes@,
                0 <= j <= cnt,
                cursor <= n,
                efacc@.len() == j,
                forall|m: FTTQModel|
                    #[trigger] encodes(bytes@, m) ==> (total == m.weights@.len() && comp == m.compression
                        && nf == m.num_features && w == m.w && s == m.s && k == m.k && wacc@
                        == m.weights@ && cnt == m.extraction_features@.len() && (forall|q: int|
                        0 <= q < j ==> (#[trigger] m.extraction_features@[q]).descriptor@
                            == efacc@[q].descriptor@) && bytes@.skip(cursor as int)
                        == features_bytes(
                        m.extraction_features@.skip(j as int),
                    ) + blob_bytes(m.codebook.data@)),
            decreases cnt - j,
        {
            if n - cursor < 8 {
                proof {
                    lemma_auto_spec_u64_to_from_le_bytes();
                    assert forall|m: FTTQModel| #![trigger encodes(bytes@, m)] encodes(bytes@, m) implies false by {
                        let efs0 = m.extraction_features@.skip(j as int);
                        assert(efs0.len() > 0);
                        assert(features_bytes(efs0) == blob_bytes(efs0[0].descriptor@)
                            + features_bytes(efs0.drop_first()));
                        assert(bytes@.skip(cursor as int).len() >= 8);
                    }
                }
                return Err(FttqError::DimensionError);
            }
            let dlen64 = u64_from_le_bytes(slice_subrange(sl, cursor, cursor + 8));
            proof {
                lemma_auto_spec_u64_to_from_le_bytes();
                assert forall|m: FTTQModel| #![trigger encodes(bytes@, m)] encodes(bytes@, m) implies (dlen64
                    == m.extraction_features@[j as int].descriptor@.len() as u64 && bytes@.skip(
                    cursor + 8,
                ) == m.extraction_features@[j as int].descriptor@ + features_bytes(
                    m.extraction_features@.skip(j + 1),
                ) + blob_bytes(m.codebook.data@)) by {
                    let efs0 = m.extraction_features@.skip(j as int);
                    assert(efs0.len() > 0);
                    assert(features_bytes(efs0) == blob_bytes(efs0[0].descriptor@)
                        + features_bytes(efs0.drop_first()));
                    assert(efs0[0] == m.extraction_features@[j as int]);
                    assert(efs0.drop_first() =~= m.extraction_features@.skip(j + 1));
                    let desc = m.extraction_features@[j as int].descriptor@;
                    let rhs = features_bytes(efs0) + blob_bytes(m.codebook.data@);
                    assert(bytes@.skip(cursor as int) == rhs);
                    assert(rhs.subrange(0, 8) =~= spec_u64_to_le_bytes(desc.len() as u64));
                    assert(bytes@.subrange(cursor as int, cursor + 8) =~= bytes@.skip(
                        cursor as int,
                    ).subrange(0, 8));
                    assert(bytes@.subrange(cursor as int, cursor + 8) == spec_u64_to_le_bytes(
                        desc.len() as u64,
                    ));
                    assert(rhs.skip(8) =~= desc + features_bytes(m.extraction_features@.skip(j + 1))
                        + blob_bytes(m.codebook.data@));
                    assert(bytes@.skip(cursor + 8) =~= bytes@.skip(cursor as int).skip(8));
                    assert(bytes@.skip(cursor + 8) == desc + features_bytes(
                        m.extraction_features@.skip(j + 1),
                    ) + blob_bytes(m.codebook.data@));
                }
            }
            if dlen64 > usize::MAX as u64 {
                proof {
                    assert forall|m: FTTQModel| #![trigger encodes(bytes@, m)] encodes(bytes@, m) implies false by {
                        assert(spec_vec_len(&m.extraction_features@[j as int].descriptor)
                            == m.extraction_features@[j as int].descriptor@.len());
                    }
                }
                return Err(FttqError::DimensionError);
            }
            let dlen = dlen64 as usize;
            let base = cursor + 8;
            if n - base < dlen {
                proof {
                    assert forall|m: FTTQModel| #![trigger encodes(bytes@, m)] encodes(bytes@, m) implies false by {
                        assert(spec_vec_len(&m.extraction_features@[j as int].descriptor)
                            == m.extraction_features@[j as int].descriptor@.len());
                        assert(bytes@.skip(base as int).len()
                            >= m.extraction_features@[j as int].descriptor@.len());
                    }
                }
                return Err(FttqError::DimensionError);
            }
            let d = read_bytes(bytes, base, dlen);
            let ghost efacc_pre = efacc@;
            efacc.push(ExtractionFeature { descriptor: d });
            proof {
                assert forall|m: FTTQModel| #![trigger encodes(bytes@, m)] encodes(bytes@, m) implies ((
                forall|q: int|
                    0 <= q < j + 1 ==> (#[trigger] m.extraction_features@[q]).descriptor@
                        == efacc@[q].descriptor@) && bytes@.skip(base + dlen) == features_bytes(
                    m.extraction_features@.skip(j + 1),
                )
                    + blob_bytes(m.codebook.data@)) by {
                    let desc = m.extraction_features@[j as int].descriptor@;
                    assert(spec_vec_len(&m.extraction_features@[j as int].descriptor)
                        == desc.len());
                    assert(dlen == desc.len());
                    let rhs = desc + features_bytes(m.extraction_features@.skip(j + 1))
                        + blob_bytes(m.codebook.data@);
                    assert(bytes@.skip(base as int) == rhs);
                    assert(rhs.subrange(0, dlen as int) =~= desc);
                    assert(bytes@.subrange(base as int, base + dlen) =~= bytes@.skip(
                        base as int,
                    ).subrange(0, dlen as int));
                    assert(d@ == desc);
                    assert forall|q: int|
                        0 <= q < j + 1 implies (#[trigger] m.extraction_features@[q]).descriptor@
                            == efacc@[q].descriptor@ by {
                        if q < j {
                            assert(efacc@[q] == efacc_pre[q]);
                        } else {
                            assert(efacc@[q].descriptor@ == d@);
                        }
                    }
                    assert(rhs.skip(dlen as int) =~= features_bytes(
                        m.extraction_features@.skip(j + 1),
                    ) + blob_bytes(m.codebook.data@));
                    assert(bytes@.skip(base + dlen) =~= bytes@.skip(base as int).skip(
                        dlen as int,
                    ));
                    assert(bytes@.skip(base + dlen) == features_bytes(
                        m.extraction_features@.skip(j + 1),
                    ) + blob_bytes(m.codebook.data@));
                }
            }
            cursor = base + dlen;
            j = j + 1;
        }
        proof {
            assert forall|m: FTTQModel| #![trigger encodes(bytes@, m)] encodes(bytes@, m) implies (
            descriptor_views(efacc@) == descriptor_views(m.extraction_features@) && bytes@.skip(
                cursor as int,
            ) == blob_bytes(m.codebook.data@)) by {
                assert(features_bytes(m.extraction_features@.skip(cnt as int))
                    =~= Seq::<u8>::empty());
                assert(bytes@.skip(cursor as int) =~= blob_bytes(m.codebook.data@));
                assert(descriptor_views(efacc@) =~= descriptor_views(m.extraction_features@));
            }
        }
        if n - cursor < 8 {
            proof {
                lemma_auto_spec_u64_to_from_le_bytes();
                assert forall|m: FTTQModel| #![trigger encodes(bytes@, m)] encodes(bytes@, m) implies false by {
                    assert(bytes@.skip(cursor as int).len() >= 8);
                }
            }
            return Err(FttqError::DimensionError);
        }
        let clen64 = u64_from_le_bytes(slice_subrange(sl, cursor, cursor + 8));
        proof {
            lemma_auto_spec_u64_to_from_le_bytes();
            assert forall|m: FTTQModel| #![trigger encodes(bytes@, m)] encodes(bytes@, m) implies (clen64
                == m.codebook.data@.len() as u64 && bytes@.skip(cursor + 8)
                == m.codebook.data@) by {
                let rhs = spec_u64_to_le_bytes(m.codebook.data@.len() as u64) + m.codebook.data@;
                assert(bytes@.skip(cursor as int) == rhs);
                assert(rhs.subrange(0, 8) =~= spec_u64_to_le_bytes(m.codebook.data@.len() as u64));
                assert(bytes@.subrange(cursor as int, cursor + 8) =~= bytes@.skip(
                    cursor as int,
                ).subrange(0, 8));
                assert(bytes@.subrange(cursor as int, cursor + 8) == spec_u64_to_le_bytes(
                    m.codebook.data@.len() as u64,
                ));
                assert(rhs.skip(8) =~= m.codebook.data@);
                assert(bytes@.skip(cursor + 8) =~= bytes@.skip(cursor as int).skip(8));
                assert(bytes@.skip(cursor + 8) == m.codebook.data@);
            }
        }
        if clen64 > usize::MAX as u64 {
            proof {
                assert forall|m: FTTQModel| #![trigger encodes(bytes@, m)] encodes(bytes@, m) implies false by {
                    assert(spec_vec_len(&m.codebook.data) == m.codebook.data@.len());
                }
            }
            return Err(FttqError::DimensionError);
        }
        let clen = clen64 as usize;
        if n - (cursor + 8) != clen {
            proof {
                assert forall|m: FTTQModel| #![trigger encodes(bytes@, m)] encodes(bytes@, m) implies false by {
                    assert(spec_vec_len(&m.codebook.data) == m.codebook.data@.len());
                    assert(bytes@.skip(cursor + 8).len() == m.codebook.data@.len());
                }
            }
            return Err(FttqError::DimensionError);
        }
        let cb = read_bytes(bytes, cursor + 8, clen);
        proof {
            assert forall|m: FTTQModel| #![trigger encodes(bytes@, m)] encodes(bytes@, m) implies cb@ == m.codebook.data@ by {
                assert(spec_vec_len(&m.codebook.data) == m.codebook.data@.len());
                assert(bytes@.subrange(cursor + 8, cursor + 8 + clen) =~= bytes@.skip(
                    cursor + 8,
                ).subrange(0, clen as int));
                assert(bytes@.skip(cursor + 8).subrange(0, clen as int) =~= m.codebook.data@);
            }
            assert(nf * (w * s) == nf * w * s) by (nonlinear_arith);
        }
        let decoded = match FTTQModel::new_mut(
            &wacc,
            nf,
            w,
            s,
            k,
            efacc,
            Codebook { data: cb },
            comp,
        ) {
            Ok(d) => d,
            Err(_) => {
                return Err(FttqError::DimensionError);
            },
        };
        Ok(decoded)
    }
}

} // verus!

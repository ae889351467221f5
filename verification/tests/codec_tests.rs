use fttq::float_bits::{NEG_ONE_BITS, POS_ONE_BITS, ZERO_BITS};
use fttq::model::{Codebook, Compression, ExtractionFeature, FTTQModel};
use fttq::ternary::{TernaryQuantizer, TERNARY_THRESHOLD_BITS};
use fttq::FttqError;

fn sample_model() -> FTTQModel {
    let weights = vec![
        0.25f32.to_bits(),
        (-0.75f32).to_bits(),
        0.0f32.to_bits(),
        13.5f32.to_bits(),
        (-0.0f32).to_bits(),
        1.0f32.to_bits(),
    ];
    FTTQModel::new_mut(
        &weights,
        3,
        2,
        1,
        2,
        vec![
            ExtractionFeature {
                descriptor: vec![1, 2, 3],
            },
            ExtractionFeature { descriptor: vec![] },
            ExtractionFeature {
                descriptor: vec![255, 0, 128, 7],
            },
        ],
        Codebook {
            data: vec![9, 8, 7, 6],
        },
        Compression::OnMisclassify,
    )
    .unwrap()
}

#[test]
fn round_trip_preserves_model() {
    let m = sample_model();
    let bytes = m.to_bytes();
    let d = FTTQModel::from_bytes(&bytes).expect("round trip decodes");
    assert_eq!(d.num_features, m.num_features);
    assert_eq!(d.w, m.w);
    assert_eq!(d.s, m.s);
    assert_eq!(d.k, m.k);
    assert_eq!(d.compression, m.compression);
    assert_eq!(d.weights, m.weights);
    assert_eq!(d.extraction_features.len(), m.extraction_features.len());
    for (a, b) in d.extraction_features.iter().zip(m.extraction_features.iter()) {
        assert_eq!(a.descriptor, b.descriptor);
    }
    assert_eq!(d.codebook.data, m.codebook.data);
}

#[test]
fn round_trip_of_minimal_model() {
    let m = FTTQModel::new(
        1,
        1,
        1,
        1,
        Vec::new(),
        Codebook { data: Vec::new() },
        Compression::Off,
    )
    .unwrap();
    let bytes = m.to_bytes();
    let d = FTTQModel::from_bytes(&bytes).expect("round trip decodes");
    assert_eq!(d.num_features, 1);
    assert_eq!(d.weights, vec![ZERO_BITS]);
    assert_eq!(d.compression, Compression::Off);
    assert!(d.extraction_features.is_empty());
    assert!(d.codebook.data.is_empty());
}

#[test]
fn decode_rejects_truncated_bytes() {
    let m = sample_model();
    let bytes = m.to_bytes();
    for cut in [0usize, 10, 32, 33, bytes.len() - 1] {
        let truncated: Vec<u8> = bytes[..cut].to_vec();
        assert!(matches!(
            FTTQModel::from_bytes(&truncated),
            Err(FttqError::DimensionError)
        ));
    }
}

#[test]
fn decode_rejects_trailing_garbage() {
    let m = sample_model();
    let mut bytes = m.to_bytes();
    bytes.push(0);
    assert!(matches!(FTTQModel::from_bytes(&bytes), Err(FttqError::DimensionError)));
}

#[test]
fn decode_rejects_bad_compression_tag() {
    let m = sample_model();
    let mut bytes = m.to_bytes();
    bytes[32] = 3;
    assert!(matches!(FTTQModel::from_bytes(&bytes), Err(FttqError::DimensionError)));
}

#[test]
fn quantize_follows_threshold_rule() {
    let t = 0.1f32.to_bits();
    assert_eq!(TernaryQuantizer::quantize(0.5f32.to_bits(), t), POS_ONE_BITS);
    assert_eq!(
        TernaryQuantizer::quantize((-0.5f32).to_bits(), t),
        NEG_ONE_BITS
    );
    assert_eq!(TernaryQuantizer::quantize(0.05f32.to_bits(), t), ZERO_BITS);
    assert_eq!(
        TernaryQuantizer::quantize((-0.05f32).to_bits(), t),
        ZERO_BITS
    );
    assert_eq!(TernaryQuantizer::quantize(0.1f32.to_bits(), t), ZERO_BITS);
    assert_eq!(TernaryQuantizer::quantize(f32::NAN.to_bits(), t), ZERO_BITS);
    assert_eq!(
        TernaryQuantizer::quantize(f32::INFINITY.to_bits(), t),
        POS_ONE_BITS
    );
    assert_eq!(TernaryQuantizer::quantize(0.5f32.to_bits(), f32::NAN.to_bits()), ZERO_BITS);
}

#[test]
fn default_threshold_is_one_tenth() {
    assert_eq!(TERNARY_THRESHOLD_BITS, 0.1f32.to_bits());
}

#[test]
fn quantization_is_idempotent_on_a_buffer() {
    let mut buf = vec![
        0.5f32.to_bits(),
        (-2.0f32).to_bits(),
        0.09f32.to_bits(),
        f32::NAN.to_bits(),
        1.0f32.to_bits(),
    ];
    TernaryQuantizer::compress(&mut buf, TERNARY_THRESHOLD_BITS);
    let once = buf.clone();
    TernaryQuantizer::compress(&mut buf, TERNARY_THRESHOLD_BITS);
    assert_eq!(buf, once);
    for w in &once {
        let v = f32::from_bits(*w);
        assert!(v == 1.0 || v == 0.0 || v == -1.0);
    }
}

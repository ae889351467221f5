use fttq::float_bits::{NEG_ONE_BITS, POS_ONE_BITS, ZERO_BITS};
use fttq::model::{Codebook, Compression, FTTQModel, Sample};
use fttq::FttqError;
use rustfft::num_complex::Complex;
use rustfft::FftPlanner;

/// The floating-point half of one scoring pass, as the embedding program
/// runs it: transform every prepared frame, hand the magnitudes back to
/// the verified core, and reduce the contribution vector against the
/// template with an inner product.
fn feature_score_and_contribution(model: &FTTQModel, feature: &Vec<u32>, i: usize) -> (f32, Vec<u32>) {
    let scorer = model.scorer();
    let engine = model.engine();
    let frames = scorer.frames(&engine, feature).expect("frame shape");
    let mut planner = FftPlanner::<f32>::new();
    let fft = planner.plan_fft_forward(engine.workspace_len);
    let mut mags: Vec<Vec<u32>> = Vec::new();
    for frame in &frames {
        let mut buf: Vec<Complex<f32>> = frame
            .iter()
            .map(|b| Complex::new(f32::from_bits(*b), 0.0))
            .collect();
        fft.process(&mut buf);
        mags.push(buf.iter().map(|c| c.norm().to_bits()).collect());
    }
    let c = scorer.contribution(&engine, &mags).expect("magnitude shape");
    let template = model.template(i);
    let score: f32 = template
        .iter()
        .zip(c.iter())
        .map(|(t, v)| f32::from_bits(*t) * f32::from_bits(*v))
        .sum();
    (score, c)
}

fn predict_sample(model: &FTTQModel, sample: &Sample) -> bool {
    assert!(model.check_sample(sample));
    let mut total = 0.0f32;
    for i in 0..model.num_features {
        let (score, _) = feature_score_and_contribution(model, &sample.features[i], i);
        total += score;
    }
    model.predict(total.to_bits())
}

fn update_sample(model: &mut FTTQModel, sample: &Sample, alpha: f32) -> bool {
    let predicted = predict_sample(model, sample);
    if predicted == sample.label {
        let unchanged = model.weights.clone();
        return model.update(predicted, sample.label, &unchanged).unwrap();
    }
    let mut nudged: Vec<u32> = Vec::new();
    for i in 0..model.num_features {
        let (_, c) = feature_score_and_contribution(model, &sample.features[i], i);
        let signed = fttq::scorer::FeatureScorer::signed_contribution(sample.label, &c);
        let template = model.template(i);
        for (t, v) in template.iter().zip(signed.iter()) {
            let nudge = f32::from_bits(*t) + alpha * f32::from_bits(*v);
            nudged.push(nudge.to_bits());
        }
    }
    model.update(predicted, sample.label, &nudged).unwrap()
}

fn small_model(compression: Compression) -> FTTQModel {
    FTTQModel::new(1, 2, 2, 1, Vec::new(), Codebook { data: Vec::new() }, compression).unwrap()
}

fn ones_sample(label: bool) -> Sample {
    Sample {
        features: vec![vec![1.0f32.to_bits(); 4]],
        label,
    }
}

#[test]
fn buffer_length_matches_hyperparameters() {
    let m = FTTQModel::new(
        3,
        4,
        5,
        2,
        Vec::new(),
        Codebook { data: Vec::new() },
        Compression::OnMisclassify,
    )
    .unwrap();
    assert_eq!(m.weights.len(), 3 * 4 * 5);
    assert!(m.weights.iter().all(|w| *w == ZERO_BITS));
}

#[test]
fn construction_rejects_zero_hyperparameters() {
    let r = FTTQModel::new(
        0,
        2,
        2,
        1,
        Vec::new(),
        Codebook { data: Vec::new() },
        Compression::Off,
    );
    assert!(matches!(r, Err(FttqError::ConfigError)));
    let r = FTTQModel::new(
        1,
        0,
        2,
        1,
        Vec::new(),
        Codebook { data: Vec::new() },
        Compression::Off,
    );
    assert!(matches!(r, Err(FttqError::ConfigError)));
}

#[test]
fn new_mut_rejects_wrong_buffer_length() {
    let buf = vec![ZERO_BITS; 3];
    let r = FTTQModel::new_mut(
        &buf,
        1,
        2,
        2,
        1,
        Vec::new(),
        Codebook { data: Vec::new() },
        Compression::Off,
    );
    assert!(matches!(r, Err(FttqError::ConfigError)));
}

#[test]
fn new_mut_copies_caller_buffer() {
    let buf = vec![1.0f32.to_bits(), 2.0f32.to_bits(), 3.0f32.to_bits(), 4.0f32.to_bits()];
    let m = FTTQModel::new_mut(
        &buf,
        1,
        2,
        2,
        1,
        Vec::new(),
        Codebook { data: Vec::new() },
        Compression::Off,
    )
    .unwrap();
    assert_eq!(m.weights, buf);
}

#[test]
fn predict_is_deterministic_and_pure() {
    let m = small_model(Compression::OnMisclassify);
    let sample = ones_sample(true);
    let weights_before = m.weights.clone();
    let first = predict_sample(&m, &sample);
    let second = predict_sample(&m, &sample);
    assert_eq!(first, second);
    assert_eq!(m.weights, weights_before);
}

#[test]
fn predict_decision_on_score_sign() {
    let m = small_model(Compression::Off);
    assert!(m.predict(1.5f32.to_bits()));
    assert!(!m.predict(0.0f32.to_bits()));
    assert!(!m.predict((-0.0f32).to_bits()));
    assert!(!m.predict((-1.5f32).to_bits()));
    assert!(!m.predict(f32::NAN.to_bits()));
    assert!(m.predict(f32::INFINITY.to_bits()));
}

#[test]
fn update_keeps_weights_on_correct_prediction() {
    let mut m = small_model(Compression::OnMisclassify);
    // The zero template scores zero, so the prediction is false: a sample
    // labelled false is already classified correctly.
    let sample = ones_sample(false);
    let weights_before = m.weights.clone();
    let changed = update_sample(&mut m, &sample, 0.1);
    assert!(!changed);
    assert_eq!(m.weights, weights_before);
}

#[test]
fn update_rejects_wrong_nudged_length() {
    let mut m = small_model(Compression::Off);
    let nudged = vec![ZERO_BITS; 3];
    let r = m.update(false, true, &nudged);
    assert_eq!(r, Err(FttqError::DimensionError));
    assert!(m.weights.iter().all(|w| *w == ZERO_BITS));
}

#[test]
fn zero_template_scores_zero_and_update_shifts_toward_label() {
    // num_features = 1, w = 2, s = 2, k = 1, zero weights, feature window
    // of ones, label true: predict is false, and the update leaves a
    // buffer shifted toward the true class.
    let mut m = small_model(Compression::OnMisclassify);
    let sample = ones_sample(true);
    assert!(!predict_sample(&m, &sample));
    let changed = update_sample(&mut m, &sample, 0.1);
    assert!(changed);
    // Each frame [1, 1] transforms to bins [2, 0]; with k = 1 the
    // contribution is [2, 0, 2, 0], the nudge 0.1 * [2, 0, 2, 0] and the
    // ternary pass collapses 0.2 above the 0.1 threshold to one.
    assert_eq!(m.weights, vec![POS_ONE_BITS, ZERO_BITS, POS_ONE_BITS, ZERO_BITS]);
    assert!(m.weights.iter().any(|w| *w != ZERO_BITS));
    assert!(predict_sample(&m, &sample));
}

#[test]
fn update_without_compression_keeps_raw_nudge() {
    let mut m = small_model(Compression::Off);
    let sample = ones_sample(true);
    let changed = update_sample(&mut m, &sample, 0.1);
    assert!(changed);
    let expected = vec![
        0.2f32.to_bits(),
        ZERO_BITS,
        0.2f32.to_bits(),
        ZERO_BITS,
    ];
    assert_eq!(m.weights, expected);
}

#[test]
fn opposite_labels_cancel() {
    // Two samples with identical windows and opposite labels, applied in
    // sequence with the same alpha: the net change is smaller than the
    // change of either update alone.
    let mut m = small_model(Compression::Off);
    let first = ones_sample(true);
    let second = ones_sample(false);
    let changed = update_sample(&mut m, &first, 0.1);
    assert!(changed);
    let after_first: Vec<f32> = m.weights.iter().map(|w| f32::from_bits(*w)).collect();
    let single_magnitude: f32 = after_first.iter().map(|x| x.abs()).sum();
    assert!(single_magnitude > 0.0);
    let changed = update_sample(&mut m, &second, 0.1);
    assert!(changed);
    let net: Vec<f32> = m.weights.iter().map(|w| f32::from_bits(*w)).collect();
    let net_magnitude: f32 = net.iter().map(|x| x.abs()).sum();
    assert!(net_magnitude < single_magnitude);
    assert!(net.iter().all(|x| *x == 0.0));
}

#[test]
fn compression_leaves_only_ternary_values() {
    let buf = vec![
        0.5f32.to_bits(),
        (-0.5f32).to_bits(),
        0.05f32.to_bits(),
        f32::NAN.to_bits(),
    ];
    let mut m = FTTQModel::new_mut(
        &buf,
        1,
        2,
        2,
        1,
        Vec::new(),
        Codebook { data: Vec::new() },
        Compression::OnMisclassify,
    )
    .unwrap();
    // A misclassified sample triggers the compression pass over the
    // nudged buffer; here the nudged buffer is handed over directly.
    let r = m.update(false, true, &buf);
    assert_eq!(r, Ok(true));
    assert_eq!(
        m.weights,
        vec![POS_ONE_BITS, NEG_ONE_BITS, ZERO_BITS, ZERO_BITS]
    );
    for w in &m.weights {
        let v = f32::from_bits(*w);
        assert!(v == 1.0 || v == 0.0 || v == -1.0);
    }
}

#[test]
fn check_sample_rejects_wrong_shapes() {
    let m = small_model(Compression::Off);
    let bad_count = Sample {
        features: vec![],
        label: true,
    };
    assert!(!m.check_sample(&bad_count));
    let bad_len = Sample {
        features: vec![vec![ZERO_BITS; 3]],
        label: true,
    };
    assert!(!m.check_sample(&bad_len));
    assert!(m.check_sample(&ones_sample(true)));
}

#[test]
fn frames_reject_wrong_window_length() {
    let m = small_model(Compression::Off);
    let scorer = m.scorer();
    let engine = m.engine();
    let short = vec![ZERO_BITS; 3];
    assert_eq!(
        scorer.frames(&engine, &short),
        Err(FttqError::DimensionError)
    );
}

#[test]
fn engine_rejects_window_longer_than_workspace() {
    let m = small_model(Compression::Off);
    let engine = m.engine();
    assert_eq!(engine.workspace_len, 2);
    let long = vec![ZERO_BITS; 3];
    assert_eq!(engine.prepare(&long), Err(FttqError::DimensionError));
    let short = vec![1.0f32.to_bits()];
    assert_eq!(
        engine.prepare(&short),
        Ok(vec![1.0f32.to_bits(), ZERO_BITS])
    );
}

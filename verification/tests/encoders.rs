//! Encoders, heads and the stack between them, by their sizes.

use transformer::config::ModelConfig;
use transformer::data::Matrix;
use transformer::encoders::{
    FeatureSpec, Layer, NumericInputEncoder, TokenInputEncoder, ValueEncoderConfig, ValueEncoderKind,
};
use transformer::heads::{CharHead, RegressionHead};
use transformer::single::{CodeCheck, Single};
use transformer::stack::{causal_mask, TransformerCore, BLOCKED};

fn s(v: f32) -> Single {
    Single { bits: v.to_bits() }
}

fn matrix(cols: usize, rows: &[&[f32]]) -> Matrix {
    let rows = rows.iter().map(|r| r.iter().map(|&v| s(v)).collect()).collect();
    Matrix::from_rows(cols, rows).unwrap()
}

#[test]
fn numeric_encoder_shape_and_grad() {
    let enc = NumericInputEncoder::new(3, 8);
    let values = matrix(3, &[&[0.1, -0.2, 0.3], &[0.4, 0.5, -0.6]]);
    let out = enc.forward(&values);
    assert_eq!(vec![out.batch, out.features, out.width], vec![2, 3, 8]);

    // The values reach the projection: it takes one number to the width.
    assert!(enc.parameters().contains(&Layer::Linear { inputs: 1, outputs: 8 }));
    assert!(!out.masked);
}

#[test]
fn value_encoders_keep_the_width() {
    for kind in [ValueEncoderKind::Mlp, ValueEncoderKind::Fourier] {
        let cfg = ValueEncoderConfig { kind, fourier_bands: 4, fourier_scale: s(6.0) };
        let enc = NumericInputEncoder::with_specs(
            &vec![FeatureSpec::Continuous, FeatureSpec::Continuous],
            8,
            &cfg,
        );
        let out = enc.forward(&matrix(2, &[&[0.1, 0.2], &[0.3, 0.4]]));
        assert_eq!(vec![out.batch, out.features, out.width], vec![2, 2, 8]);
    }
}

#[test]
fn value_encoders_have_their_layers() {
    let cfg = |kind| ValueEncoderConfig { kind, fourier_bands: 4, fourier_scale: s(6.0) };
    assert_eq!(
        cfg(ValueEncoderKind::Linear).layers(8),
        vec![Layer::Linear { inputs: 1, outputs: 8 }]
    );
    assert_eq!(
        cfg(ValueEncoderKind::Mlp).layers(8),
        vec![Layer::Linear { inputs: 1, outputs: 8 }, Layer::Linear { inputs: 8, outputs: 8 }]
    );
    assert_eq!(
        cfg(ValueEncoderKind::Fourier).layers(8),
        vec![
            Layer::Linear { inputs: 1, outputs: 8 },
            Layer::Linear { inputs: 4, outputs: 8 },
            Layer::Linear { inputs: 4, outputs: 8 },
        ]
    );
}

#[test]
fn token_encoder_adds_positions() {
    let enc = TokenInputEncoder::new(10, 6);
    let out = enc.forward(&vec![vec![1, 2, 3, 4]]);
    assert_eq!(vec![out.batch, out.length, out.width], vec![1, 4, 6]);
    assert_eq!(out.positions, vec![0, 1, 2, 3]);
    assert_eq!(enc.parameters(), vec![Layer::Embedding { rows: 10, width: 6 }]);
}

#[test]
fn mixed_features_take_their_encoders() {
    let enc = NumericInputEncoder::with_specs(
        &vec![FeatureSpec::Continuous, FeatureSpec::Categorical { cardinality: 4 }],
        8,
        &ValueEncoderConfig::default(),
    );
    let out = enc.forward(&matrix(2, &[&[0.3, 2.0], &[-0.5, 0.0]]));
    assert_eq!(vec![out.batch, out.features, out.width], vec![2, 2, 8]);
    assert!(out.masked);
    assert_eq!(out.categories, vec![vec![0, 3], vec![0, 1]]);
    assert_eq!(out.slots, vec![vec![0, 1], vec![0, 1]]);
}

#[test]
#[should_panic(expected = "нецелый код")]
fn categorical_rejects_fractional_code() {
    let enc = NumericInputEncoder::with_specs(
        &vec![FeatureSpec::Categorical { cardinality: 3 }],
        4,
        &ValueEncoderConfig::default(),
    );
    let fault = enc.first_fault(&matrix(1, &[&[1.4]])).unwrap();
    panic!("{}", fault.message(3, "1.4", "1"));
}

#[test]
fn categorical_distinguishes_codes() {
    let enc = NumericInputEncoder::with_specs(
        &vec![FeatureSpec::Categorical { cardinality: 3 }],
        4,
        &ValueEncoderConfig::default(),
    );
    let out0 = enc.forward(&matrix(1, &[&[0.0]]));
    let out2 = enc.forward(&matrix(1, &[&[2.0]]));
    assert_ne!(
        out0.categories, out2.categories,
        "разные категории должны давать разные токены"
    );
    assert_eq!(out0.slots, out2.slots);
}

#[test]
fn faults_name_the_first_value_that_no_feature_takes() {
    let enc = NumericInputEncoder::with_specs(
        &vec![FeatureSpec::Continuous, FeatureSpec::Categorical { cardinality: 3 }],
        4,
        &ValueEncoderConfig::default(),
    );
    assert!(enc.first_fault(&matrix(2, &[&[7.5, 2.0]])).is_none());
    let fault = enc.first_fault(&matrix(2, &[&[0.5, 1.0], &[0.5, 3.0]])).unwrap();
    assert_eq!((fault.row, fault.feature, fault.found), (1, 1, CodeCheck::OutOfRange));
    assert_eq!(
        fault.message(3, "3", "3"),
        "категория 3 вне диапазона [0, 3) для признака 1"
    );
    let fault = enc.first_fault(&matrix(2, &[&[0.5, 1.4]])).unwrap();
    assert_eq!(
        fault.message(3, "1.4", "1"),
        "категориальный признак 1 получил нецелый код 1.4 (возможно колонка ошибочно нормализована)"
    );
}

#[test]
fn categories_of_two_features_have_rows_of_their_own() {
    let enc = NumericInputEncoder::with_specs(
        &vec![
            FeatureSpec::Categorical { cardinality: 3 },
            FeatureSpec::Continuous,
            FeatureSpec::Categorical { cardinality: 2 },
        ],
        4,
        &ValueEncoderConfig::default(),
    );
    let out = enc.forward(&matrix(3, &[&[2.0, 0.1, 0.0], &[0.0, 0.1, 1.0]]));
    assert_eq!(out.categories, vec![vec![3, 0, 4], vec![1, 0, 5]]);
    assert!(enc.parameters().contains(&Layer::Embedding { rows: 6, width: 4 }));
}

#[test]
fn regression_head_mse_grad() {
    let head = RegressionHead::new(6, 1);
    assert_eq!(head.forward(&vec![2, 3, 6]), vec![2, 3, 1]);
    assert_eq!(head.parameters(), vec![Layer::Linear { inputs: 6, outputs: 1 }]);
}

#[test]
fn char_head_scores_each_character() {
    let head = CharHead::new(6, 5);
    assert_eq!(head.forward(&vec![2, 3, 6]), vec![2, 3, 5]);
    assert_eq!(head.parameters(), vec![Layer::Linear { inputs: 6, outputs: 5 }]);
}

#[test]
fn causal_masks_block_the_future_only() {
    let mask = causal_mask(3);
    assert_eq!(f32::from_bits(BLOCKED), -1e9);
    for i in 0..3 {
        for j in 0..3 {
            let expected: f32 = if j > i { -1e9 } else { 0.0 };
            assert_eq!(f32::from_bits(mask.at(i, j).bits), expected);
        }
    }
    assert_eq!(causal_mask(0).nrows(), 0);
}

#[test]
fn the_stack_has_a_layer_for_every_part() {
    let cfg = ModelConfig {
        d_model: 8,
        n_heads: 2,
        n_enc_layers: 2,
        n_dec_layers: 1,
        d_ff: 16,
        ln_eps: s(1e-5),
    };
    let layers = TransformerCore::new(&cfg).parameters();
    let attention = layers
        .iter()
        .filter(|l| matches!(l, Layer::Attention { width: 8, heads: 2 }))
        .count();
    let feed_forward = layers
        .iter()
        .filter(|l| matches!(l, Layer::FeedForward { width: 8, hidden: 16 }))
        .count();
    assert_eq!(attention, 2 + 2);
    assert_eq!(feed_forward, 3);
}

//! The identities of datasets and of models.

use transformer::config::{KanConfig, ModelConfig, ModelKind, NumericConfig};
use transformer::data::{Matrix, Normalizer, NumericDataset};
use transformer::encoders::{FeatureSpec, ValueEncoderConfig};
use transformer::fingerprint::{
    canonical_bits, DatasetFingerprint, ModelFingerprint, ModelWeights, Tensor,
};
use transformer::schema::ModelSchema;
use transformer::single::Single;

const GOLDEN_MODEL_FINGERPRINT: [u8; 32] = [
    184, 44, 36, 129, 40, 247, 160, 167, 199, 24, 8, 179, 0, 37, 145, 218, 13, 109, 80, 52, 254,
    37, 21, 109, 109, 220, 50, 11, 225, 136, 167, 216,
];

fn s(v: f32) -> Single {
    Single { bits: v.to_bits() }
}

fn dataset(inputs: Vec<f32>, outputs: Vec<f32>, rows: usize, cols: usize) -> NumericDataset {
    let table = |values: Vec<f32>, cols: usize| {
        Matrix::from_rows(
            cols,
            values.chunks(cols).map(|r| r.iter().map(|&v| s(v)).collect()).collect(),
        )
        .unwrap()
    };
    let out_cols = outputs.len() / rows;
    NumericDataset::new(table(inputs, cols), table(outputs, out_cols))
}

fn schema(n_inputs: usize, n_outputs: usize) -> ModelSchema {
    ModelSchema::synthetic(n_inputs, n_outputs, Ok(())).unwrap()
}

fn norm(offset: f32, n: usize) -> Normalizer {
    Normalizer {
        mean: (0..n).map(|i| s(offset + i as f32)).collect(),
        std: (0..n).map(|i| s(1.0 + i as f32)).collect(),
        min: (0..n).map(|i| s(-(i as f32))).collect(),
        max: (0..n).map(|i| s(10.0 + i as f32)).collect(),
        specs: vec![FeatureSpec::Continuous; n],
    }
}

/// Two inputs, three hidden nodes and one output, with given weights.
fn fixed_model() -> (ModelWeights, NumericConfig, Normalizer, Normalizer) {
    let config = NumericConfig {
        kind: ModelKind::Mlp,
        transformer: ModelConfig::default(),
        value: ValueEncoderConfig::default(),
        mlp_width: 3,
        mlp_layers: 1,
        kan: KanConfig::default(),
    };
    let shapes: [[usize; 2]; 4] = [[2, 3], [1, 3], [3, 1], [1, 1]];
    let params = shapes
        .iter()
        .enumerate()
        .map(|(i, shape)| Tensor {
            shape: shape.to_vec(),
            values: (0..shape[0] * shape[1]).map(|j| s((i * 100 + j) as f32 / 32.0)).collect(),
        })
        .collect();
    let model = ModelWeights { params, masks: None, layer_dims: None };
    (model, config, norm(0.5, 2), norm(1.5, 1))
}

#[test]
fn model_fingerprint_is_stable() {
    let (model, config, in_norm, out_norm) = fixed_model();
    let fp = ModelFingerprint::of(&model, &config, &in_norm, &out_norm);
    assert_eq!(
        fp.as_bytes(),
        &GOLDEN_MODEL_FINGERPRINT,
        "отпечаток изменился: {}",
        fp.short()
    );
}

#[test]
fn every_part_of_the_model_changes_its_fingerprint() {
    let (model, config, in_norm, out_norm) = fixed_model();
    let base = ModelFingerprint::of(&model, &config, &in_norm, &out_norm);

    let (mut other, _, _, _) = fixed_model();
    let first = f32::from_bits(other.params[0].values[0].bits);
    other.params[0].values[0] = s(first + 1e-7);
    assert_ne!(
        base.as_bytes(),
        ModelFingerprint::of(&other, &config, &in_norm, &out_norm).as_bytes()
    );

    let mut other_config = config;
    other_config.transformer.ln_eps = s(1e-4);
    assert_ne!(
        base.as_bytes(),
        ModelFingerprint::of(&model, &other_config, &in_norm, &out_norm).as_bytes()
    );

    let (_, _, mut other_norm, _) = fixed_model();
    other_norm.max[0] = s(f32::from_bits(other_norm.max[0].bits) + 1.0);
    assert_ne!(
        base.as_bytes(),
        ModelFingerprint::of(&model, &config, &other_norm, &out_norm).as_bytes()
    );

    let (same, same_config, same_in, same_out) = fixed_model();
    assert_eq!(
        base.as_bytes(),
        ModelFingerprint::of(&same, &same_config, &same_in, &same_out).as_bytes()
    );
}

#[test]
fn masks_and_layers_are_part_of_a_model() {
    let (model, config, in_norm, out_norm) = fixed_model();
    let base = ModelFingerprint::of(&model, &config, &in_norm, &out_norm);
    let (mut masked, _, _, _) = fixed_model();
    masked.masks = Some(vec![Tensor { shape: vec![1], values: vec![s(0.0)] }]);
    let (mut layered, _, _, _) = fixed_model();
    layered.layer_dims = Some(vec![(2, 3), (3, 1)]);
    let masked = ModelFingerprint::of(&masked, &config, &in_norm, &out_norm);
    let layered = ModelFingerprint::of(&layered, &config, &in_norm, &out_norm);
    assert_ne!(base.as_bytes(), masked.as_bytes());
    assert_ne!(base.as_bytes(), layered.as_bytes());
    assert_ne!(masked.as_bytes(), layered.as_bytes());
}

#[test]
fn the_same_numbers_give_the_same_fingerprint() {
    let a = dataset(vec![1.0, 2.0, 3.0, 4.0], vec![5.0, 6.0], 2, 2);
    let b = dataset(vec![1.0, 2.0, 3.0, 4.0], vec![5.0, 6.0], 2, 2);
    assert_eq!(
        DatasetFingerprint::of(&a, &schema(2, 1)).unwrap().as_bytes(),
        DatasetFingerprint::of(&b, &schema(2, 1)).unwrap().as_bytes()
    );
    let zero = dataset(vec![0.0, 2.0, 3.0, 4.0], vec![5.0, 6.0], 2, 2);
    let neg_zero = dataset(vec![-0.0, 2.0, 3.0, 4.0], vec![5.0, 6.0], 2, 2);
    let zero = DatasetFingerprint::of(&zero, &schema(2, 1)).unwrap();
    let neg_zero = DatasetFingerprint::of(&neg_zero, &schema(2, 1)).unwrap();
    assert_eq!(zero.as_bytes(), neg_zero.as_bytes());
    assert!(zero.same_as(&neg_zero));
}

#[test]
fn values_order_and_shape_all_matter() {
    let base = dataset(vec![1.0, 2.0, 3.0, 4.0], vec![5.0, 6.0], 2, 2);
    let base_fp = DatasetFingerprint::of(&base, &schema(2, 1)).unwrap();

    let changed = dataset(vec![1.0, 2.0, 3.0, 4.5], vec![5.0, 6.0], 2, 2);
    assert!(!base_fp.same_as(&DatasetFingerprint::of(&changed, &schema(2, 1)).unwrap()));

    let reordered = dataset(vec![3.0, 4.0, 1.0, 2.0], vec![6.0, 5.0], 2, 2);
    assert!(!base_fp.same_as(&DatasetFingerprint::of(&reordered, &schema(2, 1)).unwrap()));

    let swapped = dataset(vec![2.0, 1.0, 4.0, 3.0], vec![5.0, 6.0], 2, 2);
    assert!(!base_fp.same_as(&DatasetFingerprint::of(&swapped, &schema(2, 1)).unwrap()));

    let reshaped = dataset(vec![1.0, 2.0, 3.0, 4.0], vec![5.0, 6.0, 7.0, 8.0], 4, 1);
    assert!(!base_fp.same_as(&DatasetFingerprint::of(&reshaped, &schema(1, 1)).unwrap()));
}

#[test]
fn feature_types_are_part_of_the_fingerprint() {
    let data = dataset(vec![0.0, 1.0, 1.0, 2.0], vec![5.0, 6.0], 2, 2);
    let continuous = schema(2, 1);
    let categorical = ModelSchema::synthetic_from_specs(
        &vec![FeatureSpec::Continuous, FeatureSpec::Categorical { cardinality: 3 }],
        1,
        Ok(()),
    )
    .unwrap();
    assert_ne!(
        DatasetFingerprint::of(&data, &continuous).unwrap().as_bytes(),
        DatasetFingerprint::of(&data, &categorical).unwrap().as_bytes()
    );
}

#[test]
fn a_schema_that_does_not_match_the_data_is_an_error() {
    let data = dataset(vec![1.0, 2.0, 3.0, 4.0], vec![5.0, 6.0], 2, 2);
    assert!(DatasetFingerprint::of(&data, &schema(3, 1)).is_err());
    let err = DatasetFingerprint::encoding(&data, &schema(3, 1)).unwrap_err();
    assert_eq!(err, "в данных 2 вход и 1 выход: схема описывает другие");
}

#[test]
fn a_fingerprint_is_the_digest_of_its_encoding() {
    let data = dataset(vec![1.0, f32::NAN], vec![5.0, 6.0], 2, 1);
    let bytes = DatasetFingerprint::encoding(&data, &schema(1, 1)).unwrap();
    assert!(bytes.starts_with(b"transformer/dataset-fingerprint"));
    let fp = DatasetFingerprint::of(&data, &schema(1, 1)).unwrap();
    assert_eq!(fp.as_bytes(), blake3::hash(&bytes).as_bytes());

    let (model, config, in_norm, out_norm) = fixed_model();
    let bytes = ModelFingerprint::encoding(&model, &config, &in_norm, &out_norm);
    assert!(bytes.starts_with(b"transformer/model-fingerprint"));
    assert_eq!(&GOLDEN_MODEL_FINGERPRINT, blake3::hash(&bytes).as_bytes());
}

#[test]
fn short_names_are_the_first_digits() {
    let mut bytes = [0u8; 32];
    bytes[0] = 0xab;
    bytes[3] = 0x0f;
    assert_eq!(DatasetFingerprint::from_bytes(bytes).short(), "ab00000f");
    assert_eq!(ModelFingerprint::from_bytes(bytes).short(), "ab00000f");
}

#[test]
fn zeros_and_nans_count_as_one_number_each() {
    assert_eq!(canonical_bits(s(-0.0)), 0);
    assert_eq!(canonical_bits(Single { bits: 0xffc0_1234 }), canonical_bits(s(f32::NAN)));
    assert_eq!(canonical_bits(s(-1.5)), (-1.5f32).to_bits());
}

//! Tables of values, ranges of inputs, and text corpora.

use rand::rngs::StdRng;
use rand::SeedableRng;
use transformer::data::{Matrix, Normalizer, NumericDataset, TextDataset, Vocab};
use transformer::encoders::FeatureSpec;
use transformer::single::{CodeCheck, Single};

fn s(v: f32) -> Single {
    Single { bits: v.to_bits() }
}

fn number(v: Single) -> f32 {
    f32::from_bits(v.bits)
}

fn matrix(cols: usize, rows: &[&[f32]]) -> Matrix {
    let rows = rows.iter().map(|r| r.iter().map(|&v| s(v)).collect()).collect();
    Matrix::from_rows(cols, rows).unwrap()
}

/// The normalizer of a table, from the means and deviations of its columns.
fn fit(data: &[&[f32]], specs: Vec<FeatureSpec>) -> Normalizer {
    let n = data.len() as f32;
    let mean = |j: usize| data.iter().map(|r| r[j]).sum::<f32>() / n;
    let deviation = |j: usize| {
        let m = mean(j);
        let var = data.iter().map(|r| (r[j] - m) * (r[j] - m)).sum::<f32>() / n;
        var.sqrt().max(1e-8)
    };
    let means = (0..specs.len()).map(|j| s(mean(j))).collect();
    let deviations = (0..specs.len()).map(|j| s(deviation(j))).collect();
    Normalizer::fit(&matrix(specs.len(), data), &specs, &means, &deviations)
}

fn transform(norm: &Normalizer, data: &[&[f32]]) -> Vec<Vec<f32>> {
    data.iter()
        .map(|r| {
            r.iter()
                .enumerate()
                .map(|(j, &x)| (x - number(norm.mean[j])) / number(norm.std[j]))
                .collect()
        })
        .collect()
}

#[test]
fn normalizer_round_trip() {
    let data: [&[f32]; 4] = [&[1.0, 10.0], &[2.0, 20.0], &[3.0, 30.0], &[4.0, 40.0]];
    let norm = fit(&data, Normalizer::all_continuous(2));
    let z = transform(&norm, &data);
    for (row, scaled) in data.iter().zip(&z) {
        for j in 0..2 {
            let back = scaled[j] * number(norm.std[j]) + number(norm.mean[j]);
            assert!((row[j] - back).abs() < 1e-4, "{} {back}", row[j]);
        }
    }
    let m: f32 = z.iter().map(|r| r[0]).sum::<f32>() / 4.0;
    assert!(m.abs() < 1e-5);
}

#[test]
fn normalizer_skips_categorical() {
    let data: [&[f32]; 3] = [&[1.0, 2.0], &[3.0, 0.0], &[5.0, 1.0]];
    let specs = vec![FeatureSpec::Continuous, FeatureSpec::Categorical { cardinality: 3 }];
    let norm = fit(&data, specs);
    let z = transform(&norm, &data);
    for i in 0..3 {
        assert_eq!(z[i][1], data[i][1]);
    }
}

#[test]
fn training_rows_are_in_range() {
    let data: [&[f32]; 4] = [&[3.0, -0.5], &[f32::NAN, 2.0], &[-1.0, 0.0], &[7.0, 1e30]];
    let norm = fit(&data, Normalizer::all_continuous(2));
    assert_eq!((number(norm.min[0]), number(norm.max[0])), (-1.0, 7.0));
    assert_eq!((number(norm.min[1]), number(norm.max[1])), (-0.5, 1e30));
    assert!(norm.out_of_range(&matrix(2, &data)).is_empty());
    assert_eq!(norm.out_of_range(&matrix(2, &[&[7.5, 0.0]])), vec![(0, 0)]);
}

#[test]
fn out_of_range_details_reports_feature_and_bounds() {
    let norm = fit(&[&[0.0, 5.0], &[2.0, 5.0]], Normalizer::all_continuous(2));
    let d = norm.out_of_range_details(&vec![s(3.0), s(5.0)]);
    assert_eq!(d.len(), 1);
    assert_eq!(d[0].feature, 0);
    assert_eq!(number(d[0].value), 3.0);
    assert_eq!((number(d[0].min), number(d[0].max)), (0.0, 2.0));
    assert!(norm.out_of_range_details(&vec![s(1.0), s(5.0)]).is_empty());
}

#[test]
fn normalizer_detects_extrapolation() {
    let norm = fit(&[&[0.0], &[1.0], &[2.0]], Normalizer::all_continuous(1));
    let probe = matrix(1, &[&[1.0], &[5.0], &[-3.0]]);
    let flags = norm.out_of_range(&probe);
    assert_eq!(flags, vec![(1, 0), (2, 0)]);
}

#[test]
fn categories_are_never_out_of_range() {
    let norm = fit(
        &[&[0.0, 0.0], &[1.0, 1.0]],
        vec![FeatureSpec::Continuous, FeatureSpec::Categorical { cardinality: 9 }],
    );
    assert_eq!(norm.n_features(), 2);
    assert_eq!(norm.out_of_range(&matrix(2, &[&[0.5, 8.0], &[f32::NAN, 3.0]])), vec![]);
    assert!(!norm.is_outside(1, s(8.0)));
    assert!(norm.is_outside(0, s(1.5)));
}

#[test]
fn gathering_picks_rows_in_the_given_order() {
    let data = NumericDataset::new(
        matrix(2, &[&[1.0, 2.0], &[3.0, 4.0], &[5.0, 6.0]]),
        matrix(1, &[&[10.0], &[20.0], &[30.0]]),
    );
    assert_eq!(data.len(), 3);
    assert!(!data.is_empty());
    let picked = data.gather(&vec![2, 0, 2]);
    assert_eq!(picked.len(), 3);
    assert_eq!(number(picked.inputs.at(0, 1)), 6.0);
    assert_eq!(number(picked.inputs.at(1, 0)), 1.0);
    assert_eq!(number(picked.outputs.at(2, 0)), 30.0);
    assert!(data.gather(&vec![]).is_empty());
}

#[test]
fn ragged_rows_make_no_table() {
    assert!(Matrix::from_rows(2, vec![vec![s(1.0)]]).is_none());
    assert!(Matrix::from_rows(0, vec![]).is_some());
}

#[test]
fn vocab_round_trip() {
    let text = "hello world";
    let vocab = Vocab::from_text(text);
    assert_eq!(vocab.decode(&vocab.encode(text)), text);
    assert_eq!(vocab.len(), 8);
}

#[test]
fn vocab_is_sorted_and_complete() {
    let vocab = Vocab::from_text("hello world");
    assert_eq!(vocab.chars(), &vec![' ', 'd', 'e', 'h', 'l', 'o', 'r', 'w']);
    assert!(vocab.contains('w'));
    assert!(!vocab.contains('x'));
    assert!(!vocab.is_empty());
    assert!(Vocab::from_text("").is_empty());
    let ids = vec![3, 2, 4, 4, 5];
    assert_eq!(vocab.decode(&ids), "hello");
    assert_eq!(vocab.encode(&vocab.decode(&ids)), ids);
    let again = Vocab::from_chars(vec!['b', 'a']);
    assert_eq!(again.encode("ab"), vec![1, 0]);
}

#[test]
fn text_batch_shapes() {
    let ds = TextDataset::new("abcdefghijklmnop");
    let mut rng = StdRng::seed_from_u64(1);
    let (src, tgt) = ds.sample_batch(4, 3, 2, &mut rng);
    assert_eq!((src.len(), src[0].len()), (4, 3));
    assert_eq!((tgt.len(), tgt[0].len()), (4, 2));
    assert!(src.iter().flatten().all(|&id| id < ds.vocab.len()));
}

#[test]
fn a_target_follows_its_context() {
    let ds = TextDataset::new("abcdefghijklmnop");
    let (src, tgt) = ds.windows(&vec![0, 11], 3, 2);
    assert_eq!(src, vec![vec![0, 1, 2], vec![11, 12, 13]]);
    assert_eq!(tgt, vec![vec![3, 4], vec![14, 15]]);
    let mut rng = StdRng::seed_from_u64(7);
    let (src, tgt) = ds.sample_batch(64, 3, 2, &mut rng);
    for (a, b) in src.iter().zip(&tgt) {
        assert_eq!(a[2] + 1, b[0]);
        assert_eq!(b[0] + 1, b[1]);
    }
    assert!(src.iter().any(|a| a != &src[0]));
}

#[test]
fn codes_are_whole_numbers_up_to_a_tolerance() {
    assert_eq!(s(2.0).category_code(3), CodeCheck::Code(2));
    assert_eq!(s(2.00005).category_code(3), CodeCheck::Code(2));
    assert_eq!(s(-0.00001).category_code(3), CodeCheck::Code(0));
    assert_eq!(s(1.4).category_code(3), CodeCheck::NotInteger);
    assert_eq!(s(3.0).category_code(3), CodeCheck::OutOfRange);
    assert_eq!(s(-1.0).category_code(3), CodeCheck::OutOfRange);
    assert_eq!(s(1e30).category_code(3), CodeCheck::OutOfRange);
}

#[test]
fn single_precision_numbers_are_ordered_as_numbers() {
    assert!(s(-0.0).is_equal(s(0.0)));
    assert!(!s(f32::NAN).is_equal(s(f32::NAN)));
    assert!(s(-2.0).is_less(s(-1.0)));
    assert!(!s(f32::NAN).is_less(s(1.0)));
    assert!(s(1.0).is_at_most(s(1.0)));
    assert!(!s(f32::INFINITY).is_finite());
    assert!(s(f32::NAN).is_nan());
    assert_eq!(number(s(1.5).negated()), -1.5);
}

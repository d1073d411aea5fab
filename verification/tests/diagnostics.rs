//! Diagnostics of a model on data.

use rand::rngs::StdRng;
use rand::{Rng, SeedableRng};
use std::cell::RefCell;
use transformer::blackbox::sum;
use transformer::data::{Matrix, Normalizer, NumericDataset};
use transformer::diagnostics::{
    self, choose_pairs, distributed_indices, largest, nearest_row, overfit_probe, range_report,
    ratios, residual_diagnostics, sensitivity_checks, sensitivity_pairs, sorted_rows, tails, Evaluated,
    SensitivityError, SensitivityPairs, SensitivityReport,
};
use transformer::encoders::FeatureSpec;
use transformer::single::Single;

fn s(v: f32) -> Single {
    Single { bits: v.to_bits() }
}

fn number(v: Single) -> f32 {
    f32::from_bits(v.bits)
}

fn table(cols: usize, rows: Vec<Vec<f32>>) -> Matrix {
    Matrix::from_rows(
        cols,
        rows.into_iter().map(|r| r.into_iter().map(s).collect()).collect(),
    )
    .unwrap()
}

fn fit(data: &Matrix, specs: &[FeatureSpec]) -> Normalizer {
    let n = data.nrows() as f32;
    let column = |j: usize| -> Vec<f32> { data.rows.iter().map(|r| number(r[j])).collect() };
    let mean = |j: usize| column(j).iter().sum::<f32>() / n;
    let deviation = |j: usize| {
        let m = mean(j);
        let var = column(j).iter().map(|v| (v - m) * (v - m)).sum::<f32>() / n;
        var.sqrt().max(1e-8)
    };
    let means = (0..specs.len()).map(|j| s(mean(j))).collect();
    let deviations = (0..specs.len()).map(|j| s(deviation(j))).collect();
    Normalizer::fit(data, &specs.to_vec(), &means, &deviations)
}

fn fit_normalizers(data: &NumericDataset, specs: &[FeatureSpec]) -> (Normalizer, Normalizer) {
    let out_specs = Normalizer::all_continuous(data.outputs.ncols());
    (fit(&data.inputs, specs), fit(&data.outputs, &out_specs))
}

type Evaluate<'a> = &'a dyn Fn(&[f32]) -> Vec<f32>;

/// What the two points of each pair work out to.
fn evaluated(y1: Matrix, y2: Matrix, steps: &[f32], norm: &Normalizer) -> Evaluated {
    let raw: Vec<f32> = steps
        .iter()
        .enumerate()
        .map(|(r, step)| {
            let mut dy2 = 0.0f32;
            if r < y1.nrows() && r < y2.nrows() {
                for c in 0..y1.ncols().min(y2.ncols()).min(norm.n_features()) {
                    let d = (number(y1.at(r, c)) - number(y2.at(r, c))) / number(norm.std[c]);
                    dy2 += d * d;
                }
            }
            dy2.sqrt() / step
        })
        .collect();
    let counted: Vec<f64> =
        (0..raw.len()).filter(|&r| steps[r] > 1e-9).map(|r| raw[r] as f64).collect();
    let mean = counted.iter().sum::<f64>() / counted.len() as f64;
    Evaluated { y1, y2, raw: raw.into_iter().map(s).collect(), mean: s(mean as f32) }
}

#[allow(clippy::too_many_arguments)]
fn sensitivity(
    data: &NumericDataset,
    specs: &Vec<FeatureSpec>,
    in_norm: &Normalizer,
    out_norm: &Normalizer,
    predict: &dyn Fn(&Matrix) -> Matrix,
    reference: Option<(usize, usize, Evaluate)>,
    alpha: f32,
    max_pairs: usize,
) -> Result<SensitivityReport, String> {
    let dims = reference.map(|r| (r.0, r.1));
    let n = data.len();
    let at = |r: usize, j: usize| number(data.inputs.at(r, j));
    let continuous = |j: usize| matches!(specs[j], FeatureSpec::Continuous);
    let length = |deltas: Vec<f32>| deltas.iter().map(|d| d * d).sum::<f32>().sqrt();
    let distance = |base: usize, other: usize| {
        let same = (0..specs.len())
            .all(|j| continuous(j) || (at(base, j) - at(other, j)).abs() < 1e-6);
        let steps = (0..specs.len())
            .filter(|&j| continuous(j))
            .map(|j| (at(base, j) - at(other, j)) / number(in_norm.std[j]))
            .collect();
        if same { Some(s(length(steps))) } else { None }
    };
    let fits = specs.len() == data.inputs.ncols() && in_norm.n_features() == specs.len();
    let distances = (0..n)
        .map(|base| if fits { (0..n).map(|k| distance(base, k)).collect() } else { vec![] })
        .collect();
    let chosen = sensitivity_pairs(
        data,
        specs,
        in_norm,
        out_norm,
        dims,
        s(alpha),
        max_pairs,
        &distances,
    )
    .map_err(|e| e.message(""))?;
    let x1: Vec<Vec<f32>> =
        chosen.pairs.iter().map(|p| (0..specs.len()).map(|j| at(p.0, j)).collect()).collect();
    let x2: Vec<Vec<f32>> = chosen
        .pairs
        .iter()
        .map(|p| {
            (0..specs.len()).map(|j| at(p.0, j) + alpha * (at(p.1, j) - at(p.0, j))).collect()
        })
        .collect();
    let steps: Vec<f32> = (0..x1.len())
        .map(|r| {
            length(
                (0..specs.len())
                    .filter(|&j| continuous(j))
                    .map(|j| (x1[r][j] - x2[r][j]) / number(in_norm.std[j]))
                    .collect(),
            )
        })
        .collect();
    let (m1, m2) = (table(specs.len(), x1.clone()), table(specs.len(), x2.clone()));
    let model = evaluated(predict(&m1), predict(&m2), &steps, out_norm);
    let process = reference.map(|(_, n_outputs, eval)| -> Result<Evaluated, usize> {
        let all = |rows: &Vec<Vec<f32>>| -> Result<Matrix, usize> {
            let mut out = Vec::new();
            for row in rows {
                let y = eval(row);
                if y.len() != n_outputs {
                    return Err(y.len());
                }
                out.push(y);
            }
            Ok(table(n_outputs, out))
        };
        Ok(evaluated(all(&x1)?, all(&x2)?, &steps, out_norm))
    });
    let divergence = match &process {
        Some(Ok(p)) => (number(model.mean) - number(p.mean)).abs(),
        _ => 0.0,
    };
    let steps = steps.into_iter().map(s).collect();
    assert!(model.has_sound_mean(&steps, out_norm.n_features()));
    if let Some(Ok(p)) = &process {
        assert!(p.has_sound_mean(&steps, out_norm.n_features()));
    }
    diagnostics::sensitivity(
        &chosen,
        &steps,
        out_norm.n_features(),
        &model,
        &process,
        s(divergence),
    )
}

fn outputs(x: &Matrix, f: impl Fn(&[f32]) -> f32) -> Matrix {
    let rows = x
        .rows
        .iter()
        .map(|r| vec![f(&r.iter().map(|v| number(*v)).collect::<Vec<f32>>())])
        .collect();
    table(1, rows)
}

#[test]
fn range_report_counts_extrapolation() {
    let train = table(1, vec![vec![0.0], vec![1.0], vec![2.0]]);
    let norm = fit(&train, &Normalizer::all_continuous(1));
    let probe = table(1, vec![vec![5.0], vec![-1.0], vec![1.0]]);
    let rr = range_report(&norm, &probe);
    assert_eq!(rr.rows_out, 2);
    assert_eq!(rr.per_feature, vec![2]);
    assert_eq!(rr.total, 3);
}

#[test]
fn a_row_counts_once_however_many_of_its_values_are_outside() {
    let train = table(2, vec![vec![0.0, 0.0], vec![1.0, 1.0]]);
    let norm = fit(&train, &Normalizer::all_continuous(2));
    let rr = range_report(&norm, &table(2, vec![vec![5.0, 5.0], vec![0.5, 2.0]]));
    assert_eq!((rr.rows_out, rr.per_feature), (2, vec![1, 2]));
}

#[test]
fn residual_detects_oscillation() {
    let n = 20;
    let inputs = table(1, (0..n).map(|i| vec![i as f32]).collect());
    let rate = |residual: Vec<f32>| {
        let shapes = residual_diagnostics(&inputs, &residual.into_iter().map(s).collect());
        assert_eq!(shapes.len(), 1);
        shapes[0].sign_changes as f32 / shapes[0].steps as f32
    };
    let pred: Vec<f32> = (0..n).map(|i| if i % 2 == 0 { 1.0 } else { -1.0 }).collect();
    assert!(rate(pred) > 0.8, "ожидали высокую осцилляцию");
    assert_eq!(rate(vec![0.0; n]), 0.0);
}

#[test]
fn signs_oppose_where_a_product_is_below_zero() {
    let values = [
        0.0,
        -0.0,
        1.0,
        -1.0,
        f32::MIN_POSITIVE,
        -f32::MIN_POSITIVE,
        1e-23,
        -1e-22,
        3.7e-23,
        -1.9e-23,
        f32::from_bits(1),
        -f32::from_bits(1),
        0.5,
        -0.5000001,
        f32::MAX,
        -f32::MAX,
        f32::INFINITY,
        f32::NEG_INFINITY,
        f32::NAN,
    ];
    for a in values {
        for b in values {
            assert_eq!(s(a).is_opposed(s(b)), a * b < 0.0, "{a} {b}");
        }
    }
}

#[test]
fn rows_are_sorted_by_value_and_keep_their_order_among_equals() {
    let values = [3.0, 1.0, 3.0, 2.0, 1.0];
    let order = sorted_rows(&values.iter().map(|&v| s(v)).collect());
    assert_eq!(order, vec![1, 4, 3, 0, 2]);
}

#[test]
fn tails_are_a_tenth_at_either_end() {
    let order: Vec<usize> = (0..20).collect();
    let (outer, inner) = tails(&order).unwrap();
    assert_eq!(outer, vec![0, 1, 18, 19]);
    assert_eq!(inner, (4..16).collect::<Vec<usize>>());
    assert!(tails(&(0..9).collect()).is_none());
}

fn simplex_data(n: usize) -> (NumericDataset, Vec<FeatureSpec>) {
    let mut inputs = Vec::new();
    let mut outs = Vec::new();
    for i in 0..n {
        let x0 = 1.0 + i as f32;
        let x1 = 3.0 + (i % 7) as f32;
        inputs.push(vec![x0, x1, 100.0 - x0 - x1]);
        outs.push(vec![x0 * 2.0 + x1]);
    }
    (
        NumericDataset::new(table(3, inputs), table(1, outs)),
        vec![FeatureSpec::Continuous; 3],
    )
}

#[test]
fn sensitivity_keeps_pairs_on_the_data_manifold() {
    let (data, specs) = simplex_data(40);
    let (in_norm, out_norm) = fit_normalizers(&data, &specs);
    let observed_sums = RefCell::new(Vec::new());
    let report = sensitivity(
        &data,
        &specs,
        &in_norm,
        &out_norm,
        &|x| {
            outputs(x, |r| {
                observed_sums.borrow_mut().push(r.iter().sum::<f32>());
                r[0] * 2.0 + r[1]
            })
        },
        None,
        1.0,
        10,
    )
    .unwrap();

    assert!(report.pairs > 0);
    assert_eq!(report.categorical_inputs, 0);
    assert!(number(report.model.mean).is_finite() && number(report.model.mean) > 0.0);
    assert!(number(report.model.max) >= number(report.model.mean));
    assert!(observed_sums.borrow().iter().all(|sum| (sum - 100.0).abs() < 1e-4));
    assert!(report.reference.is_none() && report.divergence.is_none());
}

#[test]
fn model_and_reference_share_the_same_pairs() {
    let task = sum();
    let mut rng = StdRng::seed_from_u64(0);
    let inputs: Vec<Vec<f32>> = (0..64)
        .map(|_| {
            task.input_ranges
                .iter()
                .map(|&(lo, hi)| rng.gen_range(number(lo)..=number(hi)))
                .collect()
        })
        .collect();
    let outs = inputs.iter().map(|r| vec![r[0] + r[1]]).collect();
    let data = NumericDataset::new(table(2, inputs), table(1, outs));
    let specs = vec![FeatureSpec::Continuous; 2];
    let (in_norm, out_norm) = fit_normalizers(&data, &specs);
    let report = sensitivity(
        &data,
        &specs,
        &in_norm,
        &out_norm,
        &|x| outputs(x, |r| r[0] + r[1]),
        Some((task.n_inputs(), task.n_outputs, &|x| vec![x[0] + x[1]])),
        1.0,
        20,
    )
    .unwrap();
    let reference = report.reference.expect("процесс вызываем");
    assert!((number(report.model.mean) - number(reference.mean)).abs() < 1e-5);
    assert!(number(report.divergence.unwrap()) < 1e-5);
    assert_eq!(report.reference, Some(report.model));
    assert_eq!(report.divergence, Some(Single { bits: 0 }));
}

#[test]
fn categorical_inputs_are_excluded_and_counted() {
    let inputs = (0..20).map(|i| vec![i as f32, (i % 2) as f32]).collect();
    let outs = (0..20).map(|i| vec![i as f32 * 0.5]).collect();
    let data = NumericDataset::new(table(2, inputs), table(1, outs));
    let specs = vec![FeatureSpec::Continuous, FeatureSpec::Categorical { cardinality: 2 }];
    let (in_norm, out_norm) = fit_normalizers(&data, &specs);
    let seen_codes = RefCell::new(Vec::new());
    let report = sensitivity(
        &data,
        &specs,
        &in_norm,
        &out_norm,
        &|x| {
            outputs(x, |r| {
                seen_codes.borrow_mut().push(r[1]);
                r[0] * 0.5
            })
        },
        None,
        1.0,
        5,
    )
    .unwrap();
    assert_eq!(report.categorical_inputs, 1);
    assert!(report.pairs > 0);
    assert!(seen_codes.borrow().iter().all(|c| *c == 0.0 || *c == 1.0));
}

#[test]
fn impossible_cases_explain_themselves() {
    let data = NumericDataset::new(
        table(1, vec![vec![0.0], vec![1.0]]),
        table(1, vec![vec![0.0], vec![1.0]]),
    );
    let specs = vec![FeatureSpec::Categorical { cardinality: 2 }];
    let (in_norm, out_norm) = fit_normalizers(&data, &specs);
    let predict = |x: &Matrix| outputs(x, |_| 0.0);

    let err =
        sensitivity(&data, &specs, &in_norm, &out_norm, &predict, None, 1.0, 5).err().unwrap();
    assert!(err.contains("категориальные"), "{err}");

    let numeric = vec![FeatureSpec::Continuous];
    let single = NumericDataset::new(table(1, vec![vec![0.0]]), table(1, vec![vec![0.0]]));
    let (in1, out1) = fit_normalizers(&single, &numeric);
    let err = sensitivity(&single, &numeric, &in1, &out1, &predict, None, 1.0, 5).err().unwrap();
    assert!(err.contains("две строки"), "{err}");

    let err =
        sensitivity(&data, &numeric, &in_norm, &out_norm, &predict, None, 0.0, 5).err().unwrap();
    assert!(err.contains("доля шага"), "{err}");

    let continuous = vec![FeatureSpec::Continuous];
    let (in2, out2) = fit_normalizers(&data, &continuous);
    let err = sensitivity(&data, &continuous, &in2, &out2, &predict, None, 1.0, 0).err().unwrap();
    assert!(err.contains("число пар"), "{err}");
}

fn three_rows() -> (NumericDataset, Vec<FeatureSpec>) {
    let column = || table(1, vec![vec![0.0], vec![1.0], vec![2.0]]);
    (NumericDataset::new(column(), column()), vec![FeatureSpec::Continuous])
}

#[test]
fn sensitivity_rejects_bad_or_non_finite_predictions() {
    let (data, specs) = three_rows();
    let (in_norm, out_norm) = fit_normalizers(&data, &specs);

    let err = sensitivity(
        &data,
        &specs,
        &in_norm,
        &out_norm,
        &|x| outputs(x, |_| f32::NAN),
        None,
        1.0,
        2,
    )
    .err()
    .unwrap();
    assert!(err.contains("NaN"), "{err}");

    let err = sensitivity(
        &data,
        &specs,
        &in_norm,
        &out_norm,
        &|x| table(2, vec![vec![0.0, 0.0]; x.nrows()]),
        None,
        1.0,
        2,
    )
    .err()
    .unwrap();
    assert!(err.contains("форма выходов"), "{err}");
}

#[test]
fn means_lie_between_nothing_and_the_largest_ratio() {
    let answers = |rows: Vec<Vec<f32>>| table(1, rows);
    let of = |mean: f32| Evaluated {
        y1: answers(vec![vec![0.0], vec![0.0]]),
        y2: answers(vec![vec![1.0], vec![3.0]]),
        raw: vec![s(1.0), s(3.0)],
        mean: s(mean),
    };
    let steps = vec![s(1.0), s(1.0)];
    assert!(of(2.0).has_sound_mean(&steps, 1));
    assert!(of(0.0).has_sound_mean(&steps, 1));
    assert!(of(3.0).has_sound_mean(&steps, 1));
    assert!(!of(3.5).has_sound_mean(&steps, 1));
    assert!(!of(-1.0).has_sound_mean(&steps, 1));
    assert!(!of(f32::NAN).has_sound_mean(&steps, 1));
    assert!(of(f32::NAN).has_sound_mean(&steps, 2));
    let at = SensitivityPairs { pairs: vec![(0, 1), (1, 0)], categorical_inputs: 0 };
    let report =
        diagnostics::sensitivity(&at, &steps, 1, &of(2.0), &Some(Ok(of(2.0))), s(9.0)).unwrap();
    assert_eq!((report.model.mean, report.model.max, report.pairs), (s(2.0), s(3.0), 2));
    assert_eq!(report.reference, Some(report.model));
    assert_eq!(report.divergence, Some(s(0.0)));
}

#[test]
fn sensitivity_rejects_wrong_reference_output_count() {
    let (data, specs) = three_rows();
    let (in_norm, out_norm) = fit_normalizers(&data, &specs);
    let predict = |x: &Matrix| outputs(x, |_| 0.0);

    let too_few = |_: &[f32]| -> Vec<f32> { vec![] };
    let too_many = |_: &[f32]| -> Vec<f32> { vec![0.0, 1.0] };
    for eval in [&too_few as Evaluate, &too_many as Evaluate] {
        let err = sensitivity(
            &data,
            &specs,
            &in_norm,
            &out_norm,
            &predict,
            Some((1, 1, eval)),
            1.0,
            2,
        )
        .err()
        .unwrap();
        assert!(err.contains("ожидалось 1 выходов"), "{err}");
    }
}

#[test]
fn sensitivity_base_order_covers_the_whole_table() {
    let order = distributed_indices(10, 3);
    assert_eq!(&order[..3], &[0, 3, 6]);
    let mut sorted = order;
    sorted.sort_unstable();
    assert_eq!(sorted, (0..10).collect::<Vec<_>>());
}

#[test]
fn checks_fail_in_their_order() {
    let (data, specs) = three_rows();
    let (in_norm, out_norm) = fit_normalizers(&data, &specs);
    let check = |specs: &Vec<FeatureSpec>, reference| {
        sensitivity_checks(&data, specs, &in_norm, &out_norm, reference, s(1.0), 2)
    };
    assert_eq!(check(&specs, None), Ok(0));
    assert_eq!(
        check(&vec![FeatureSpec::Continuous; 2], None),
        Err(SensitivityError::SpecCount { specs: 2, inputs: 1 })
    );
    assert_eq!(
        check(&vec![FeatureSpec::Categorical { cardinality: 3 }], None),
        Err(SensitivityError::InputNorm)
    );
    assert_eq!(check(&specs, Some((2, 1))), Err(SensitivityError::ReferenceDims));
    let wide = fit(&table(2, vec![vec![0.0, 0.0]]), &Normalizer::all_continuous(2));
    assert_eq!(
        sensitivity_checks(&data, &specs, &in_norm, &wide, None, s(1.0), 2),
        Err(SensitivityError::OutputNorm)
    );
    let (_, mut flat) = fit_normalizers(&data, &specs);
    flat.std[0] = s(0.0);
    assert_eq!(
        sensitivity_checks(&data, &specs, &in_norm, &flat, None, s(1.0), 2),
        Err(SensitivityError::BadScale)
    );
    let bad = NumericDataset::new(
        table(1, vec![vec![f32::NAN], vec![1.0]]),
        table(1, vec![vec![0.0], vec![1.0]]),
    );
    assert_eq!(
        sensitivity_checks(&bad, &specs, &in_norm, &out_norm, None, s(1.0), 2),
        Err(SensitivityError::InputNotFinite)
    );
}

#[test]
fn errors_of_ratios_name_their_source() {
    let y = |v: f32| table(1, vec![vec![v]]);
    let one = |v: f32| vec![s(v)];
    assert_eq!(ratios(&y(1.0), &y(2.0), &one(0.5), &one(2.0), 1).unwrap(), one(2.0));
    assert_eq!(
        ratios(&y(1.0), &y(2.0), &one(f32::INFINITY), &one(2.0), 1),
        Err(SensitivityError::StepNotFinite)
    );
    assert_eq!(
        ratios(&y(1.0), &y(2.0), &one(1e-12), &one(2.0), 1),
        Err(SensitivityError::Degenerate)
    );
    assert_eq!(
        ratios(&y(1.0), &y(2.0), &one(0.5), &one(f32::INFINITY), 1),
        Err(SensitivityError::RatioNotFinite)
    );
    assert_eq!(
        SensitivityError::RatioNotFinite.message("модель"),
        "модель: чувствительность не является конечной"
    );
    assert_eq!(
        SensitivityError::SpecCount { specs: 2, inputs: 1 }.message(""),
        "спецификации описывают 2 входов, а в данных 1"
    );
    assert_eq!(
        SensitivityError::NoPairs.message(""),
        "не нашлось пар строк с одинаковыми категориями и разными числовыми входами"
    );
}

#[test]
fn pairs_follow_the_distributed_order() {
    let partners: Vec<Option<usize>> = (0..10).map(|i| if i == 3 { None } else { Some((i + 1) % 10) }).collect();
    assert_eq!(choose_pairs(&partners, 3), Ok(vec![(0, 1), (6, 7), (1, 2)]));
    assert_eq!(choose_pairs(&vec![None, None], 3), Err(SensitivityError::NoPairs));
}

#[test]
fn the_nearest_row_is_another_one() {
    let d = |v: &[Option<f32>]| -> Vec<Option<Single>> { v.iter().map(|o| o.map(s)).collect() };
    assert_eq!(nearest_row(&d(&[Some(0.0), Some(2.0), Some(1.0), Some(1.0)]), 0), Some(2));
    assert_eq!(nearest_row(&d(&[Some(0.0), None, Some(0.0)]), 0), None);
    assert_eq!(number(largest(&vec![s(1.0), s(3.0), s(2.0)])), 3.0);
}

#[test]
fn a_probe_learns_in_small_batches() {
    let sizes: Vec<usize> = [0, 1, 9, 16, 48]
        .iter()
        .map(|&rows| overfit_probe(rows, 80).batch_size)
        .collect();
    assert_eq!(sizes, vec![1, 1, 9, 16, 16]);
    let train = overfit_probe(48, 80);
    assert_eq!((train.epochs, train.seed, number(train.lr)), (80, 0, 3e-3));
}

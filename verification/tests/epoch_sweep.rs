//! The learning curve over numbers of epochs.

use transformer::epoch_sweep::{
    recommended_stop, rows_to_csv, source_label, stop_text, sweep_points, EpochRow, EvalSource,
    ShownRow, StopReason, SweepBoard,
};
use transformer::single::Single;

fn s(v: f32) -> Single {
    Single { bits: v.to_bits() }
}

fn row(epochs: usize, r2: f32) -> EpochRow {
    EpochRow {
        epochs,
        train_loss: s(0.0),
        rmse: s(0.0),
        mae: s(0.0),
        rel_error: s(0.0),
        r2: s(r2),
        source: EvalSource::Validation,
    }
}

fn stop(rows: &Vec<EpochRow>, target: f32, min_gain: f32, plateau: f32) -> Option<(usize, String)> {
    let r2 = |r: &EpochRow| f32::from_bits(r.r2.bits);
    let gains = rows.windows(2).map(|w| s(r2(&w[1]) - r2(&w[0]))).collect();
    recommended_stop(rows, &gains, s(target), s(min_gain), s(plateau)).map(|(epochs, reason)| {
        let bound = match reason {
            StopReason::Target => format!("{target}"),
            StopReason::Plateau => format!("{min_gain}"),
            StopReason::Best => String::new(),
        };
        (epochs, stop_text(reason, &bound))
    })
}

#[test]
fn recommends_target_first() {
    let rows = vec![row(1, 0.5), row(2, 0.96), row(5, 0.99)];
    assert_eq!(stop(&rows, 0.95, 0.02, 0.8).unwrap().0, 2);
}

#[test]
fn recommends_plateau() {
    let rows = vec![row(1, 0.5), row(2, 0.82), row(5, 0.83), row(10, 0.835)];
    let (e, why) = stop(&rows, 0.99, 0.02, 0.8).unwrap();
    assert_eq!(e, 2);
    assert!(why.contains("плато"));
}

#[test]
fn falls_back_to_last() {
    let rows = vec![row(1, 0.2), row(2, 0.5)];
    assert_eq!(stop(&rows, 0.99, 0.02, 0.8).unwrap().0, 2);
}

#[test]
fn reasons_name_their_bounds() {
    let rows = vec![row(1, 0.5), row(2, 0.96)];
    assert_eq!(stop(&rows, 0.95, 0.02, 0.8).unwrap().1, "target R²≥0.95");
    let rows = vec![row(1, 0.9), row(2, 0.9)];
    assert_eq!(stop(&rows, 0.95, 0.02, 0.8).unwrap().1, "плато ΔR²<0.02");
    let rows = vec![row(1, 0.2)];
    assert_eq!(stop(&rows, 0.95, 0.02, 0.8).unwrap().1, "лучшее из имеющегося");
    assert_eq!(stop(&vec![], 0.95, 0.02, 0.8), None);
    assert_eq!(stop(&vec![row(3, f32::NAN)], 0.95, 0.02, 0.8).unwrap().0, 3);
}

#[test]
fn points_are_sorted_without_zeros_and_repeats() {
    assert_eq!(sweep_points(&vec![4, 0, 1, 2, 4, 1]), Some(vec![1, 2, 4]));
    assert_eq!(sweep_points(&vec![0]), None);
    assert_eq!(sweep_points(&vec![]), None);
}

#[test]
fn a_point_is_full_once_every_fold_has_measured_it() {
    let mut board = SweepBoard::new(vec![1, 2], 3);
    assert_eq!(board.record(row(1, 0.1)), None);
    assert_eq!(board.record(row(2, 0.2)), None);
    assert_eq!(board.record(row(1, 0.3)), None);
    assert_eq!(board.record(row(1, 0.5)), Some(0));
    assert_eq!(board.buckets[0].len(), 3);
    let mut single = SweepBoard::new(vec![1, 2], 1);
    assert_eq!(single.record(row(2, 0.2)), Some(1));
}

#[test]
fn estimates_name_their_source() {
    assert_eq!(source_label(EvalSource::Validation), "validation");
    assert_eq!(source_label(EvalSource::Cv { k: 5 }), "cv-5");
    assert_eq!(source_label(EvalSource::Test), "test");
}

#[test]
fn a_table_of_the_curve_has_a_line_for_each_point() {
    let mut second = row(2, 0.5);
    second.source = EvalSource::Cv { k: 3 };
    let shown = |r2: &str| ShownRow {
        train_loss: "0.5".to_string(),
        rmse: "1".to_string(),
        mae: "2".to_string(),
        rel_error: "3".to_string(),
        r2: r2.to_string(),
    };
    assert_eq!(
        rows_to_csv(&vec![row(1, 0.25), second], &vec![shown("0.25"), shown("0.5")]),
        "epochs,train_loss,rmse,mae,rel_error,r2,source\n1,0.5,1,2,3,0.25,validation\n2,0.5,1,2,3,0.5,cv-3\n"
    );
}

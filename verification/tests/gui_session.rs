//! The state of a session.

use rand::rngs::StdRng;
use rand::{Rng, SeedableRng};
use transformer::batch_predict::ExportSummary;
use transformer::blackbox::sum;
use transformer::config::{KanConfig, ModelConfig, ModelKind, NumericConfig};
use transformer::data::{Matrix, NumericDataset};
use transformer::encoders::ValueEncoderConfig;
use transformer::epoch_sweep::EvalSource;
use transformer::gui::curves::{fold_groups, Measure};
use transformer::gui::messages::{
    CurvePoint, DatasetOrigin, KanModelInfo, ModelOrigin, Phase, PreparedData,
};
use transformer::gui::session::{
    ActiveDataset, Cancelling, EpochEvent, Event, Mark, ModelInfo, ModelReady, SampleKanEdge, Section, Session,
    TrainDone, TrainingMode,
};
use transformer::gui::forms::{axes_for, SearchBudget};
use transformer::gui::model::{ui_model_summary, ShownEval, ShownReports, ShownSummary};
use transformer::gui::page::{Item, Page};
use transformer::gui::predict::{ui_header, OwnEstimate, ShownHeader};
use transformer::gui::shown::{ShownMetrics, ShownProfile};
use transformer::gui::train::{config_of, Command, EvalSchedule, Faults, FinalizeStep};
use transformer::gui::training::{ui_training_output, ShownOutput};
use transformer::interpret::{Compaction, InterpretProfile, InterpretReport, InterpretReports};
use transformer::lifecycle::{
    CandidateSpec, CheckEval, FinalEval, FinalizeRefusal, LrSchedule, Metrics, RunStamp, SplitPlan,
    TestDisclosure, TrainConfig,
};
use transformer::schema::ModelSchema;
use transformer::single::Single;
use transformer::sweep::{SweepChoice, SweepRow};

fn s(v: f32) -> Single {
    Single { bits: v.to_bits() }
}

fn holdout() -> SplitPlan {
    SplitPlan::Holdout { train_frac: s(0.7), val_frac: s(0.15), split_seed: 0 }
}

fn kfold() -> SplitPlan {
    SplitPlan::KFold { k: 5, folds_seed: 1, test_frac: s(0.25), test_seed: 2 }
}

fn prepared(rows: usize) -> PreparedData {
    let mut rng = StdRng::seed_from_u64(0);
    let drawn: Vec<Vec<f32>> = (0..rows)
        .map(|_| {
            sum()
                .input_ranges
                .iter()
                .map(|&(lo, hi)| {
                    rng.gen_range(f32::from_bits(lo.bits)..=f32::from_bits(hi.bits))
                })
                .collect()
        })
        .collect();
    let outputs = drawn.iter().map(|r| vec![s(r[0] + r[1])]).collect();
    let inputs = drawn.iter().map(|r| r.iter().map(|&v| s(v)).collect()).collect();
    PreparedData {
        origin: DatasetOrigin::Blackbox("sum".to_string()),
        data: NumericDataset::new(
            Matrix::from_rows(2, inputs).unwrap(),
            Matrix::from_rows(1, outputs).unwrap(),
        ),
        schema: ModelSchema::synthetic(2, 1, Ok(())).unwrap(),
    }
}

fn active(revision: u64) -> ActiveDataset {
    ActiveDataset::new(prepared(16), None, 0, true, revision, holdout())
}

fn point(epoch: usize, loss: f32, val: Option<f32>) -> CurvePoint {
    CurvePoint { epoch, train_loss: s(loss), val_r2: val.map(s) }
}

fn mean_curve(curves: &Vec<Vec<CurvePoint>>, measure: Measure) -> Vec<[f64; 2]> {
    fold_groups(curves, measure)
        .iter()
        .map(|g| {
            let values: Vec<f32> = g.values.iter().map(|v| f32::from_bits(v.bits)).collect();
            let mean = values.iter().sum::<f32>() / values.len() as f32;
            [g.epoch as f64, mean as f64]
        })
        .collect()
}

#[test]
fn cv_curve_averages_only_epochs_measured_in_every_fold() {
    let curves = vec![
        vec![point(1, 1.0, Some(0.1)), point(2, 0.5, Some(0.3))],
        vec![point(1, 3.0, Some(0.3)), point(2, 1.5, None)],
    ];
    assert_eq!(mean_curve(&curves, Measure::TrainLoss), vec![[1.0, 2.0], [2.0, 1.0]]);
    let val = mean_curve(&curves, Measure::ValR2);
    assert_eq!(val.len(), 1);
    assert_eq!(val[0][0], 1.0);
    assert!((val[0][1] - 0.2).abs() < 1e-6, "{:?}", val[0]);

    let single = vec![vec![point(1, 2.0, Some(0.5))]];
    assert_eq!(mean_curve(&single, Measure::ValR2), vec![[1.0, 0.5]]);
}

#[test]
fn search_stamp_follows_dataset_and_split() {
    let mut session = Session::new();
    session.next_revision();
    session.set_dataset(active(1));
    session.search.stamp = session.dataset_stamp();
    assert!(session.search_matches_dataset());

    session.dataset.as_mut().unwrap().split = kfold();
    assert!(!session.search_matches_dataset());

    let mut session = Session::new();
    session.next_revision();
    session.set_dataset(active(1));
    let stamp = session.dataset_stamp();
    session.next_revision();
    session.set_dataset(active(2));
    session.search.stamp = stamp;
    assert!(!session.search_matches_dataset());
}

#[test]
fn summary_describes_the_active_dataset() {
    let mut dataset = active(1);
    let text = dataset.summary(None, 11, 2);
    assert!(text.contains("чёрный ящик: sum"), "{text}");
    assert!(text.contains("16 строк"), "{text}");
    assert!(text.contains("2 вход → 1 выход"), "{text}");
    assert!(text.contains("holdout 11/2/3"), "{text}");

    dataset.split = kfold();
    assert_eq!(dataset.split_summary(4, 0), "5-fold по 12 строкам + test 4");
}

#[test]
fn notes_of_the_profile_and_of_the_roles_are_added() {
    let mut dataset = active(1);
    assert_eq!(dataset.data_notes(), 0);
    dataset.profile_notes = Some(2);
    dataset.role_notes = 3;
    assert_eq!(dataset.data_notes(), 5);
}

fn metrics(r2: f32) -> Metrics {
    Metrics { rmse: s(1.0), mae: s(0.5), rel_error: s(0.1), r2: s(r2) }
}

fn stamp(session: &Session) -> RunStamp {
    session
        .current_stamp(0, Faults { split: None, numeric: None, train: None })
        .unwrap()
}

fn done(stamp: RunStamp, check: Option<f32>, measured: Option<f32>) -> Event {
    Event::TrainDone(TrainDone {
        stamp,
        check: check.map(|r2| CheckEval {
            metrics: metrics(r2),
            per_output: vec![metrics(r2)],
            r2_std_folds: s(0.0),
        }),
        check_source: check.map(|_| EvalSource::Validation),
        folds: 1,
        mean_loss: vec![],
        mean_val: vec![],
        final_eval: measured.map(|r2| FinalEval {
            plan: holdout(),
            final_init_seed: 0,
            test_rows: 3,
            metrics: metrics(r2),
            per_output: vec![metrics(r2)],
        }),
        interpret: None,
        cancelled: false,
    })
}

fn open_session() -> Session {
    let mut session = Session::new();
    session.take_event(Event::DatasetOpened {
        data: prepared(16),
        file_name: None,
        split: holdout(),
    });
    session
}

#[test]
fn a_candidate_is_checked_before_it_is_measured() {
    let mut session = open_session();
    assert_eq!(session.dataset.as_ref().unwrap().revision, 1);
    assert!(!session.busy());
    let run = stamp(&session);
    assert!(matches!(
        session.finalize_step(Some(run)),
        FinalizeStep::Refused(FinalizeRefusal::NotChecked)
    ));
    assert!(session.send_finalize(&run).is_none());

    session.eval_every = 5;
    match session.send_check(run) {
        Command::CheckCandidate { eval, .. } => assert_eq!(eval, EvalSchedule::Every(5)),
        other => panic!("{other:?}"),
    }
    session.take_event(Event::TrainStarted { total_epochs: 3, parameter_count: 9 });
    assert!(session.busy());
    session.take_event(done(run, Some(0.5), None));
    assert!(!session.busy());
    assert!(matches!(session.finalize_step(Some(run)), FinalizeStep::Open { enabled: true }));
    assert!(matches!(
        session.send_finalize(&run),
        Some(Command::FinalizeCandidate { .. })
    ));
    session.take_event(done(run, None, Some(0.4)));
    assert!(matches!(
        session.finalize_step(Some(run)),
        FinalizeStep::Measured { test_rows: 3 }
    ));
    assert!(matches!(session.finalize_step(None), FinalizeStep::Hidden));

    session.form.epochs += 1;
    let other = stamp(&session);
    session.take_event(done(other, Some(0.9), None));
    assert!(matches!(
        session.finalize_step(Some(other)),
        FinalizeStep::Refused(FinalizeRefusal::TestSpent)
    ));
}

fn sweep_row(label: &str, r2: f32) -> SweepRow {
    SweepRow {
        label: label.to_string(),
        choice: SweepChoice {
            kind: ModelKind::Mlp,
            d_model: 8,
            heads: 2,
            layers: 1,
            d_ff: 16,
            value: ValueEncoderConfig::default(),
            mlp_width: 6,
            mlp_layers: 1,
            kan: KanConfig::default(),
            lr: s(0.01),
            batch_size: 4,
            epochs: 25,
            final_epochs: 100,
            seed: 5,
            schedule: LrSchedule::Constant,
        },
        source: EvalSource::Validation,
        r2_mean: s(r2),
        r2_std: s(0.0),
        worst_output_r2_mean: s(r2),
        mean_output_r2_mean: s(r2),
        nrmse_mean: s(1.0 - r2),
        rel_mean: s(0.1),
    }
}

#[test]
fn a_search_belongs_to_the_data_it_was_started_on() {
    let mut session = open_session();
    session.mode = TrainingMode::Auto(SearchBudget::Quick);
    assert!(session.current_candidate(0, None, None).unwrap_err().contains("другим данным"));
    let axes = axes_for(SearchBudget::Quick, vec![ModelKind::Mlp]);
    assert!(matches!(session.start_search(Ok(axes), None), Some(Command::Search { .. })));
    assert!(session.busy());
    session.take_event(Event::SearchStarted { total_configs: 2, total_runs: 2 });
    session.take_event(Event::SearchRow(sweep_row("a", 0.3)));
    session.take_event(Event::SearchRow(sweep_row("b", 0.7)));
    assert_eq!(session.search.rows[0].label, "b");
    session.take_event(Event::SearchDone {
        rows: vec![sweep_row("a", 0.3), sweep_row("b", 0.7)],
        cancelled: false,
    });
    assert!(!session.busy());
    assert_eq!(session.chosen(), Some(0));
    let candidate = session.current_candidate(42, None, None).unwrap();
    assert_eq!(candidate.train.epochs, 100);
    assert_eq!(candidate.train.seed, 42);
    assert_eq!(candidate.config, config_of(&session.search.rows[0].choice));

    session.search.selected = Some(1);
    session.change_objective(3);
    assert_eq!(session.search.selected, None);

    session.take_event(Event::DatasetOpened { data: prepared(8), file_name: None, split: holdout() });
    assert!(session.search.rows.is_empty());
    assert!(session.current_candidate(0, None, None).is_err());
}

#[test]
fn a_search_that_cannot_be_made_up_only_says_why() {
    let mut session = open_session();
    assert!(session.start_search(Err("нет осей".to_string()), None).is_none());
    assert_eq!(session.status, "Ошибка: нет осей");
    assert!(!session.busy());
}

fn kan_info() -> KanModelInfo {
    KanModelInfo {
        layer_dims: vec![(2, 4), (4, 1)],
        domain: (s(-3.0), s(3.0)),
        symbolic_available: true,
    }
}

fn model_info(origin: ModelOrigin) -> ModelInfo {
    ModelInfo {
        schema: ModelSchema::synthetic(2, 1, Ok(())).unwrap(),
        kind: ModelKind::Kan,
        source: "sum".to_string(),
        origin,
        parameter_count: 9,
        interpret: None,
    }
}

#[test]
fn late_curves_of_other_edges_are_dropped() {
    let mut session = Session::new();
    let asked = session.take_event(Event::ModelReady(ModelReady {
        info: model_info(ModelOrigin::Checkpoint),
        kan: Some(kan_info()),
        disclosure: None,
    }));
    assert_eq!(asked, Some(SampleKanEdge { layer: 0, input: 0, output: 0, samples: 201 }));
    session.take_event(Event::KanEdgeCurve {
        layer: 0,
        input: 1,
        output: 0,
        points: vec![(s(0.0), s(1.0))],
    });
    assert!(session.kan.curve.is_empty());
    session.take_event(Event::KanEdgeCurve {
        layer: 0,
        input: 0,
        output: 0,
        points: vec![(s(0.0), s(1.0))],
    });
    assert_eq!(session.kan.curve.len(), 1);
    let asked = session.kan.choose_edge(1, 0, 0);
    assert_eq!(asked, Some(SampleKanEdge { layer: 1, input: 0, output: 0, samples: 201 }));
    assert!(session.kan.curve.is_empty());
    let asked = session.kan.choose_edge(1, 9, 9);
    assert_eq!(asked, Some(SampleKanEdge { layer: 1, input: 3, output: 0, samples: 201 }));
    assert_eq!(session.kan.choose_edge(1, 3, 0), None);
}

#[test]
fn an_error_frees_the_window() {
    let mut session = open_session();
    session.take_event(Event::TrainStarted { total_epochs: 1, parameter_count: 1 });
    session.start_batch();
    session.extract_formulas();
    assert!(session.busy());
    session.take_event(Event::Error("сбой".to_string()));
    assert!(!session.busy());
    assert!(session.status.contains("сбой"));
}

#[test]
fn epochs_draw_the_curves_of_their_phase() {
    let mut session = open_session();
    session.take_event(Event::TrainStarted { total_epochs: 2, parameter_count: 1 });
    let epoch = |phase, fold, epoch, val: Option<f32>| {
        Event::Epoch(EpochEvent {
            phase,
            fold,
            epoch,
            loss: s(0.5),
            val_r2: val.map(s),
            shown_loss: "0.5".to_string(),
            shown_r2: "0.1".to_string(),
        })
    };
    session.take_event(epoch(Phase::Development, 0, 1, Some(0.1)));
    session.take_event(epoch(Phase::Final, 0, 1, None));
    assert_eq!(session.curves.loss, vec![Mark { at: 1, value: s(0.5) }]);
    assert_eq!(session.curves.val, vec![Mark { at: 1, value: s(0.1) }]);
    assert_eq!(session.curves.final_loss, vec![Mark { at: 1, value: s(0.5) }]);
}

#[test]
fn a_filled_table_is_reported() {
    let mut session = open_session();
    session.start_batch();
    session.take_event(Event::ExportDone {
        output: "out.xlsx".to_string(),
        summary: ExportSummary {
            rows: 2,
            extrapolated_rows: 1,
            replaced: vec!["y".to_string()],
            added: vec![],
        },
    });
    assert!(!session.busy());
    assert!(session.status.contains("out.xlsx") && session.status.contains('2'));
}

#[test]
fn only_a_kan_is_interpreted() {
    let mut session = open_session();
    session.interpret_enabled = true;
    assert_eq!(session.interpret_profile(ModelKind::Mlp), Ok(None));
    assert!(session.interpret_profile(ModelKind::Kan).unwrap().is_some());
    session.interpret_overrides.finetune_epochs = Some(0);
    assert!(session
        .interpret_profile(ModelKind::Kan)
        .unwrap_err()
        .starts_with("конвейер интерпретации: "));
}

#[test]
fn a_chosen_result_moves_to_the_manual_form() {
    let mut session = open_session();
    let row = sweep_row("a", 0.5);
    session.apply_choice_to_train(&row.choice);
    assert_eq!(session.section, Section::Training);
    assert_eq!((session.form.mlp_width, session.form.epochs), (6, 100));
    assert_eq!(session.status, "выбранная конфигурация перенесена в ручной режим");
}

#[test]
fn tables_can_be_marked_up_again() {
    let mut session = Session::new();
    assert!(session.markup_source().is_none());
    assert!(matches!(
        session.open_table("a.csv".to_string(), false),
        Command::OpenTable { has_header: false, .. }
    ));
    assert_eq!(session.status, "чтение a.csv…");
    let mut data = prepared(4);
    data.origin = DatasetOrigin::Table("a.csv".to_string());
    session.next_revision();
    session.set_dataset(ActiveDataset::new(data, None, 0, false, 1, holdout()));
    assert_eq!(session.markup_source(), Some(("a.csv".to_string(), false)));
}

#[test]
fn runs_need_data_and_a_sound_division() {
    let session = Session::new();
    let none = || Faults { split: None, numeric: None, train: None };
    assert_eq!(session.current_stamp(0, none()).unwrap_err(), "сначала откройте данные");
    let session = open_session();
    let faults = Faults { split: Some("мало строк".to_string()), numeric: None, train: None };
    assert_eq!(session.current_stamp(0, faults).unwrap_err(), "мало строк");
    let run = session.current_stamp(7, none()).unwrap();
    assert_eq!((run.final_init_seed, run.dataset_revision), (7, 1));
}

#[test]
fn the_head_shows_an_estimate_of_the_active_model_only() {
    let mut session = open_session();
    let run = stamp(&session);
    session.take_event(done(run, Some(0.5), None));
    assert_eq!(session.own_estimate(), None);
    session.model_info = Some(model_info(ModelOrigin::Development(run)));
    assert_eq!(session.own_estimate(), Some(OwnEstimate::Validation(s(0.5))));
    session.lifecycle.record_disclosure(TestDisclosure {
        stamp: run,
        eval: FinalEval {
            plan: holdout(),
            final_init_seed: 0,
            test_rows: 3,
            metrics: metrics(0.25),
            per_output: vec![],
        },
    });
    assert_eq!(session.own_estimate(), Some(OwnEstimate::Test(s(0.25))));
    session.model_info = Some(model_info(ModelOrigin::Checkpoint));
    assert_eq!(session.own_estimate(), None);
}

fn report(active: usize) -> InterpretReport {
    InterpretReport {
        cancelled: false,
        r2_before: Some(s(0.9)),
        r2_after_prune: Some(s(0.8)),
        r2_after_finetune: Some(s(0.85)),
        compaction: Some(Compaction {
            nodes_before: 8,
            nodes_after: 5,
            params_before: 60,
            params_after: 31,
        }),
        active_edges: (active, 12),
    }
}

fn reports(development: bool) -> Option<InterpretReports> {
    Some(InterpretReports {
        profile: Some(InterpretProfile::v1()),
        development: if development { Some(report(7)) } else { None },
        final_model: if development { None } else { Some(report(5)) },
    })
}

fn with_reports(event: Event, interpret: Option<InterpretReports>) -> Event {
    match event {
        Event::TrainDone(done) => Event::TrainDone(TrainDone { interpret, ..done }),
        other => other,
    }
}

fn shown_metrics(text: &str) -> ShownMetrics {
    ShownMetrics {
        rmse: text.to_string(),
        mae: text.to_string(),
        rel_error: text.to_string(),
        r2: text.to_string(),
    }
}

fn shown_profile() -> ShownProfile {
    ShownProfile { l1: "0.0001".to_string(), prune: "0.05".to_string() }
}

fn shown_output() -> ShownOutput {
    ShownOutput {
        check: shown_metrics("1"),
        spread: "0".to_string(),
        measured: shown_metrics("2"),
        recommendation: None,
        profile: shown_profile(),
    }
}

fn shown_summary() -> ShownSummary {
    let eval = |t: &str| ShownEval {
        metrics: shown_metrics(t),
        per_output: Some(vec![shown_metrics(t)]),
    };
    ShownSummary {
        protocol: "holdout".to_string(),
        mismatch: None,
        output_names: vec!["y".to_string()],
        validation: eval("1"),
        validation_protocol: "holdout".to_string(),
        spread: "0".to_string(),
        measured: eval("2"),
        measured_protocol: "holdout".to_string(),
        reports: ShownReports {
            profile: shown_profile(),
            before: "0.9".to_string(),
            pruned: "0.8".to_string(),
            tuned: "0.85".to_string(),
        },
    }
}

fn said(page: &Page) -> Vec<&str> {
    page.items
        .iter()
        .filter_map(|i| match i {
            Item::Label(t) | Item::Warning(t) => Some(t.as_str()),
            _ => None,
        })
        .collect()
}

const PIPELINE: &str =
    "Конвейер интерпретации v1: L1 0.0001, prune 0.05, fine-tune 20 эпох, структурное сжатие";

#[test]
fn a_check_shows_the_reports_of_its_own_run() {
    let mut session = open_session();
    let run = stamp(&session);
    session.take_event(with_reports(done(run, Some(0.5), None), reports(true)));
    let page = ui_training_output(&session, &Some(run), &shown_output());
    let all = said(&page);
    assert!(all.contains(&PIPELINE), "{all:?}");
    assert!(all.contains(&"Активных рёбер после прунинга: 7/12"));
    // The report of the final model belongs to the model, not to the check.
    session.take_event(with_reports(done(run, None, Some(0.4)), reports(false)));
    let page = ui_training_output(&session, &Some(run), &shown_output());
    assert!(said(&page).contains(&"Активных рёбер после прунинга: 7/12"));
    // Another check replaces the one before it, reports and all.
    session.take_event(done(run, Some(0.6), None));
    let page = ui_training_output(&session, &Some(run), &shown_output());
    assert!(!said(&page).iter().any(|t| t.contains("рёбер") || *t == PIPELINE));
    assert!(session.lifecycle.last_check.as_ref().unwrap().interpret.is_none());
}

#[test]
fn a_summary_is_of_the_run_of_the_model() {
    let mut session = open_session();
    let run = stamp(&session);
    session.take_event(with_reports(done(run, Some(0.5), None), reports(true)));
    let head = ShownHeader {
        summary: "данные".to_string(),
        estimate: "0.500".to_string(),
        mismatch: None,
    };
    let ready = |origin, interpret| {
        Event::ModelReady(ModelReady {
            info: ModelInfo { interpret, ..model_info(origin) },
            kan: None,
            disclosure: None,
        })
    };
    session.take_event(ready(ModelOrigin::Checkpoint, None));
    let page = ui_model_summary(&session, &shown_summary());
    let all = said(&page);
    assert!(all.contains(&"Checkpoint не хранит метрики: они появятся после обучения в этой сессии."));
    assert!(!all.contains(&PIPELINE));
    assert!(!said(&ui_header(&session, &head)).iter().any(|t| t.contains("R²")));

    session.take_event(ready(ModelOrigin::Development(run), reports(true)));
    let page = ui_model_summary(&session, &shown_summary());
    let all = said(&page);
    assert!(all.contains(&"validation: RMSE=1   MAE=1   rel.error=1%   R²=1"));
    assert!(all.contains(&"Протокол: holdout; init seed 0"));
    assert!(all.contains(&"Test отложен: его открывает только финальное обучение."));
    assert!(all.contains(&PIPELINE));
    assert!(all.contains(&"R² на validation: до прунинга 0.9 → после 0.8 → после fine-tune 0.85"));
    assert!(all.contains(&"Активных рёбер после прунинга: 7/12"));
    assert!(!all.iter().any(|t| t.contains("folds")));
    assert!(said(&ui_header(&session, &head)).contains(&"· validation R² 0.500"));

    session.take_event(done(run, None, Some(0.4)));
    session.take_event(ready(ModelOrigin::Final(run), reports(false)));
    let page = ui_model_summary(&session, &shown_summary());
    let all = said(&page);
    assert!(all.contains(
        &"test (3 строк, единственный замер): RMSE=2   MAE=2   rel.error=2%   R²=2"
    ));
    assert!(all.contains(&"Протокол: holdout; final init seed 0"));
    assert!(all.contains(&"Финальная модель: скрытых узлов 8 → 5, параметров 60 → 31"));
    assert!(all.contains(&"Активных рёбер финальной модели: 5/12"));
    assert!(!all.iter().any(|t| t.contains("после прунинга")));
    assert!(said(&ui_header(&session, &head)).contains(&"· test R² 0.500"));
}

#[test]
fn candidates_differ_by_every_setting() {
    let config = NumericConfig {
        kind: ModelKind::Mlp,
        transformer: ModelConfig::default(),
        value: ValueEncoderConfig::default(),
        mlp_width: 4,
        mlp_layers: 1,
        kan: KanConfig::default(),
    };
    let train = TrainConfig {
        epochs: 1,
        batch_size: 2,
        lr: s(0.1),
        seed: 3,
        schedule: LrSchedule::Constant,
    };
    let base = CandidateSpec { config, train, interpret: None };
    assert!(base.same_as(&base));
    let mut other = base;
    other.train.seed = 4;
    assert!(!base.same_as(&other));
    let mut other = base;
    other.config.mlp_width = 5;
    assert!(!base.same_as(&other));
}

#[test]
fn an_epoch_counts_once_for_each_fold() {
    let twice = vec![vec![point(1, 1.0, None), point(1, 3.0, None)], vec![]];
    assert_eq!(mean_curve(&twice, Measure::TrainLoss), Vec::<[f64; 2]>::new());

    let repeated = vec![
        vec![point(1, 1.0, None), point(1, 3.0, None), point(2, 4.0, None)],
        vec![point(2, 6.0, None), point(1, 5.0, None)],
    ];
    assert_eq!(mean_curve(&repeated, Measure::TrainLoss), vec![[1.0, 3.0], [2.0, 5.0]]);
    let groups = fold_groups(&repeated, Measure::TrainLoss);
    assert_eq!(groups[0].values, vec![s(1.0), s(3.0), s(5.0)]);
    assert!(fold_groups(&vec![], Measure::TrainLoss).is_empty());
}

#[test]
fn validation_is_measured_within_the_epochs() {
    let mut session = open_session();
    let run = stamp(&session);
    session.form.epochs = 10;
    session.eval_every = 50;
    match session.send_check(run) {
        Command::CheckCandidate { eval, .. } => assert_eq!(eval, EvalSchedule::Every(10)),
        other => panic!("{other:?}"),
    }
    session.lower_eval_every();
    assert_eq!(session.eval_every, 10);
    session.eval_every = 0;
    match session.send_check(run) {
        Command::CheckCandidate { eval, .. } => assert_eq!(eval, EvalSchedule::Never),
        other => panic!("{other:?}"),
    }
}

#[test]
fn the_window_says_what_is_going_on() {
    let mut session = Session::new();
    for (work, text) in [
        (Cancelling::Training, "отмена…"),
        (Cancelling::Search, "отмена поиска…"),
        (Cancelling::Optimize, "отмена optimize…"),
        (Cancelling::Sweep, "отмена sweep…"),
        (Cancelling::Text, "отмена text…"),
        (Cancelling::EpochSweep, "отмена epoch-sweep…"),
    ] {
        session.cancelling(work);
        assert_eq!(session.status, text);
    }
    session.saving();
    assert_eq!(session.status, "сохранение модели…");
    session.show_error("нет данных");
    assert_eq!(session.status, "Ошибка: нет данных");
}

#[test]
fn a_new_session_shows_no_edge() {
    let session = Session::new();
    assert_eq!((session.kan.layer, session.kan.input, session.kan.output), (0, 0, 0));
    assert!(session.kan.curve.is_empty());
}

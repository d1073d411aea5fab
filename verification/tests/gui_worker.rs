//! The worker: what it does, refuses and publishes.

use transformer::config::{KanConfig, ModelConfig, ModelKind, NumericConfig};
use transformer::data::Vocab;
use transformer::encoders::ValueEncoderConfig;
use transformer::epoch_sweep::EvalSource;
use transformer::fingerprint::DatasetFingerprint;
use transformer::gui::messages::{DatasetOrigin, ModelOrigin, Phase};
use transformer::gui::runs::{Delimiter, PrepareSpec, TextTrainConfig};
use transformer::gui::session::TrainDone;
use transformer::gui::worker::{
    check_edge, check_inputs, formula_source, generation_fault, opening, probe_rows, publish,
    suggestions, text_seed, validate_text_config, AfterCheck, Ending, FormulaSource, Job, Opening,
    PipelineReport, Run, RunKind, Step, Trained, WorkerState, PROBE_ROWS,
};
use transformer::interpret::{InterpretProfile, InterpretReport};
use transformer::lifecycle::{
    CandidateSpec, CheckEval, FinalEval, FinalizeRefusal, Lifecycle, LrSchedule, Metrics, RunStamp,
    SplitPlan, TestDisclosure, TrainConfig,
};
use transformer::single::Single;

fn s(v: f32) -> Single {
    Single { bits: v.to_bits() }
}

fn holdout() -> SplitPlan {
    SplitPlan::Holdout { train_frac: s(0.7), val_frac: s(0.15), split_seed: 0 }
}

fn config(kind: ModelKind, mlp_width: usize, kan: KanConfig) -> NumericConfig {
    NumericConfig {
        kind,
        transformer: ModelConfig::default(),
        value: ValueEncoderConfig::default(),
        mlp_width,
        mlp_layers: 1,
        kan,
    }
}

fn stamp(config: NumericConfig, interpret: Option<InterpretProfile>) -> RunStamp {
    RunStamp {
        dataset: DatasetFingerprint::from_bytes([1; 32]),
        dataset_revision: 1,
        split: holdout(),
        candidate: CandidateSpec {
            config,
            train: TrainConfig {
                epochs: 1,
                batch_size: 16,
                lr: s(1e-3),
                seed: 0,
                schedule: LrSchedule::Constant,
            },
            interpret,
        },
        final_init_seed: 0,
    }
}

fn metrics(r2: f32) -> Metrics {
    Metrics { rmse: s(1.0), mae: s(0.5), rel_error: s(0.1), r2: s(r2) }
}

fn checked(outputs: usize) -> CheckEval {
    CheckEval {
        metrics: metrics(0.5),
        per_output: (0..outputs).map(|_| metrics(0.5)).collect(),
        r2_std_folds: s(0.0),
    }
}

fn measured() -> FinalEval {
    FinalEval {
        plan: holdout(),
        final_init_seed: 0,
        test_rows: 10,
        metrics: metrics(0.4),
        per_output: vec![metrics(0.4)],
    }
}

fn trained(check: Option<CheckEval>, final_eval: Option<FinalEval>) -> Trained {
    Trained {
        check,
        check_source: Some(EvalSource::Validation),
        folds: 1,
        mean_loss: vec![],
        mean_val: vec![],
        final_eval,
    }
}

fn report(phase: Phase, cancelled: bool, active: usize) -> PipelineReport {
    PipelineReport {
        phase,
        report: InterpretReport {
            cancelled,
            r2_before: Some(s(0.9)),
            r2_after_prune: Some(s(0.8)),
            r2_after_finetune: Some(s(0.85)),
            compaction: None,
            active_edges: (active, 12),
        },
    }
}

fn small_kan() -> NumericConfig {
    config(ModelKind::Kan, 4, KanConfig { width: 4, layers: 2, grid: 5 })
}

#[test]
fn worker_enforces_the_test_budget_itself() {
    let first = stamp(config(ModelKind::Mlp, 4, KanConfig::default()), None);
    let second = stamp(config(ModelKind::Mlp, 8, KanConfig::default()), None);
    let mut worker = WorkerState::new();

    match worker.begin(&Job::Finalize(first)) {
        Step::Refuse(msg) => assert!(msg.contains("Проверить конфигурацию"), "{msg}"),
        other => panic!("ожидался отказ, получено другое событие: {other:?}"),
    }

    assert!(matches!(worker.begin(&Job::Check(first)), Step::Work));
    assert_eq!(worker.finish_check(first, Some(checked(1)), None, true), AfterCheck::Replace);
    assert!(matches!(worker.origin, Some(ModelOrigin::Development(_))));

    assert!(matches!(worker.begin(&Job::Finalize(first)), Step::Work));
    worker.finish_finalize(first, Some(measured()), None, true);
    assert_eq!(worker.lifecycle.disclosures.len(), 1, "test должен быть открыт один раз");
    assert!(matches!(worker.origin, Some(ModelOrigin::Final(_))));
    assert!(matches!(worker.begin(&Job::Finalize(first)), Step::Repeat(0)));

    assert!(matches!(worker.begin(&Job::Check(second)), Step::Work));
    assert_eq!(worker.finish_check(second, Some(checked(1)), None, true), AfterCheck::Keep);
    assert!(matches!(worker.origin, Some(ModelOrigin::Final(_))));
    match worker.begin(&Job::Finalize(second)) {
        Step::Refuse(msg) => assert!(msg.contains("уже открыт"), "{msg}"),
        other => panic!("ожидался отказ: {other:?}"),
    }
    assert!(matches!(worker.begin(&Job::Shutdown), Step::Stop));
}

#[test]
fn cancelled_pipeline_yields_no_model_and_no_test() {
    let stamp = stamp(small_kan(), Some(InterpretProfile::v1()));
    let mut run = Run::new(RunKind::Finalize, stamp.candidate.interpret, true);
    run.pipeline_done(Ok(Some(report(Phase::Final, true, 3))));
    let ending = run.settle(false, false);
    assert_eq!(ending, Ending::Cancelled, "модель не должна сохраняться");

    let done = publish(&run, stamp, ending, trained(None, None)).expect("событие о завершении");
    assert!(done.cancelled, "обучение должно быть помечено отменённым");
    assert!(done.final_eval.is_none(), "test открывать нельзя");
    assert!(done.interpret.is_none(), "отчёт неполного конвейера не публикуется");
}

#[test]
fn failed_pipeline_stops_before_final_evaluation() {
    let stamp = stamp(
        config(ModelKind::Mlp, 4, KanConfig::default()),
        Some(InterpretProfile::v1()),
    );
    let mut run = Run::new(RunKind::Finalize, stamp.candidate.interpret, false);
    assert!(run.wants_pipeline());
    run.pipeline_done(Err("конвейер применим только к KAN".to_string()));
    assert!(run.error.as_ref().unwrap().contains("KAN"));
    assert!(run.cancel, "ошибка хука обязана остановить ядро до test");
    assert!(!run.wants_pipeline());
    let ending = run.settle(true, true);
    assert_eq!(ending, Ending::Failed);
    assert!(publish(&run, stamp, ending, trained(None, Some(measured()))).is_none());
}

#[test]
fn final_gui_training_keeps_the_refit_model() {
    let stamp = stamp(config(ModelKind::Mlp, 4, KanConfig::default()), None);
    let run = Run::new(RunKind::Finalize, None, false);
    let ending = run.settle(true, true);
    assert_eq!(ending, Ending::Trained, "финальная модель");
    assert_eq!(run.eval_label(), "train+validation");
    let done = publish(&run, stamp, ending, trained(Some(checked(1)), Some(measured()))).unwrap();
    assert!(!done.cancelled);
    assert!(done.final_eval.is_some(), "refit обязан один раз измерить test");
    assert!(done.check.is_none());
}

#[test]
fn final_gui_interpretation_publishes_a_final_only_report() {
    let profile = InterpretProfile {
        prune: Some(s(0.9)),
        finetune_epochs: 1,
        compact: true,
        ..InterpretProfile::v1()
    };
    let stamp = stamp(
        config(ModelKind::Kan, 4, KanConfig { width: 2, layers: 2, grid: 3 }),
        Some(profile),
    );
    let mut run = Run::new(RunKind::Finalize, stamp.candidate.interpret, false);
    run.pipeline_done(Ok(Some(report(Phase::Final, false, 5))));
    assert_eq!(run.profile, Some(profile));
    let ending = run.settle(true, true);
    let done = publish(&run, stamp, ending, trained(None, Some(measured()))).unwrap();
    assert!(!done.cancelled);
    assert!(done.final_eval.is_some(), "test измеряется после конвейера");
    let reports = done.interpret.expect("отчёт конвейера");
    assert!(reports.development.is_none());
    assert!(reports.final_model.is_some());
    assert_eq!(reports.profile, Some(profile));
}

#[test]
fn the_first_report_of_each_phase_is_published() {
    let stamp = stamp(small_kan(), Some(InterpretProfile::v1()));
    let mut run = Run::new(RunKind::Check, stamp.candidate.interpret, false);
    assert!(run.interpret_reports().is_none());
    for active in [7, 4] {
        run.pipeline_done(Ok(Some(report(Phase::Development, false, active))));
    }
    let published = |ending| publish(&run, stamp, ending, trained(Some(checked(1)), None)).unwrap();
    let reports = published(run.settle(true, true)).interpret.unwrap();
    assert_eq!(reports.development.unwrap().active_edges, (7, 12));
    assert!(reports.final_model.is_none());
    assert_eq!(run.settle(true, false), Ending::FoldsOnly);
    assert!(published(Ending::FoldsOnly).interpret.is_none());
    assert!(published(Ending::Cancelled).interpret.is_none());
}

#[test]
fn reports_go_with_the_active_model() {
    let first = stamp(small_kan(), Some(InterpretProfile::v1()));
    let second = stamp(config(ModelKind::Mlp, 8, KanConfig::default()), None);
    let mut run = Run::new(RunKind::Check, first.candidate.interpret, false);
    run.pipeline_done(Ok(Some(report(Phase::Development, false, 7))));
    let checked_reports = run.interpret_reports();
    let mut run = Run::new(RunKind::Finalize, first.candidate.interpret, false);
    run.pipeline_done(Ok(Some(report(Phase::Final, false, 5))));
    let final_reports = run.interpret_reports();
    let mut worker = WorkerState::new();
    worker.finish_check(first, Some(checked(1)), checked_reports, true);
    assert_eq!(worker.interpret, checked_reports);
    worker.finish_finalize(first, Some(measured()), final_reports, true);
    assert_eq!(worker.interpret, final_reports);
    assert_eq!(worker.finish_check(second, Some(checked(1)), None, true), AfterCheck::Keep);
    assert_eq!(worker.interpret, final_reports);
    worker.finish_load();
    assert!(worker.interpret.is_none());
}

#[test]
fn a_repeated_measurement_brings_no_reports() {
    let stamp = stamp(small_kan(), Some(InterpretProfile::v1()));
    let done = TrainDone::repeated(&TestDisclosure { stamp, eval: measured() });
    assert!(done.stamp.same_as(&stamp));
    assert_eq!(done.final_eval.unwrap().test_rows, 10);
    assert!(done.interpret.is_none() && done.check.is_none() && !done.cancelled);
}

#[test]
fn development_gui_training_reports_each_output() {
    let stamp = stamp(config(ModelKind::Mlp, 4, KanConfig::default()), None);
    let run = Run::new(RunKind::Check, None, false);
    let ending = run.settle(true, true);
    let done = publish(&run, stamp, ending, trained(Some(checked(2)), None)).unwrap();
    assert!(!done.cancelled);
    assert_eq!(done.check.expect("поколоночные метрики").per_output.len(), 2);
}

#[test]
fn checks_end_by_what_they_came_to() {
    let run = Run::new(RunKind::Check, Some(InterpretProfile::v1()), false);
    assert_eq!(run.settle(false, false), Ending::Cancelled);
    assert_eq!(run.settle(true, false), Ending::FoldsOnly);
    assert_eq!(run.settle(true, true), Ending::Trained);
    assert_eq!(run.eval_label(), "validation");
    let mut unfinished = Run::new(RunKind::Check, Some(InterpretProfile::v1()), false);
    unfinished.pipeline_done(Ok(Some(report(Phase::Development, true, 3))));
    assert_eq!(unfinished.settle(true, true), Ending::Cancelled);
    let cancelled = Run::new(RunKind::Check, None, true);
    assert_eq!(cancelled.settle(true, true), Ending::Cancelled);
}

#[test]
fn jobs_without_a_model_are_refused() {
    let worker = WorkerState::new();
    let refusal = |job: Job| match worker.begin(&job) {
        Step::Refuse(text) => text,
        other => panic!("{other:?}"),
    };
    assert_eq!(refusal(Job::SaveModel), "нет модели: сначала обучите или загрузите .bin");
    assert_eq!(refusal(Job::Diagnose), "нет модели для диагностики");
    assert_eq!(refusal(Job::Predict), "нет модели: обучите или загрузите .bin");
    assert_eq!(refusal(Job::Export), "нет модели: обучите или загрузите .bin");
    assert_eq!(refusal(Job::SampleEdge), "нет модели: обучите или загрузите KAN");
    assert_eq!(refusal(Job::ExtractFormulas), "нет модели: сначала обучите KAN");
    assert_eq!(refusal(Job::GenerateText), "нет text-модели: сначала обучите");
    assert!(matches!(worker.begin(&Job::Search), Step::Work));

    let mut loaded = WorkerState::new();
    loaded.finish_load();
    loaded.finish_text(true);
    assert!(matches!(loaded.begin(&Job::Predict), Step::Work));
    assert!(matches!(loaded.begin(&Job::GenerateText), Step::Work));
    loaded.finish_text(false);
    assert!(loaded.has_text);
}

#[test]
fn the_account_of_measurements_is_kept_by_dataset() {
    let first = stamp(config(ModelKind::Mlp, 4, KanConfig::default()), None);
    let mut life = Lifecycle::new();
    assert_eq!(life.can_finalize(&first), Err(FinalizeRefusal::NotChecked));
    life.record_check(transformer::lifecycle::CheckedRun {
        stamp: first,
        eval: checked(1),
        interpret: None,
    });
    assert_eq!(life.can_finalize(&first), Ok(()));
    assert!(life.checked_for(&first));
    life.on_dataset_changed();
    assert_eq!(life.can_finalize(&first), Err(FinalizeRefusal::NotChecked));
    life.record_disclosure(transformer::lifecycle::TestDisclosure { stamp: first, eval: measured() });
    assert_eq!(life.can_finalize(&first), Err(FinalizeRefusal::AlreadyFinalized));
    assert_eq!(life.disclosure_for(&first), Some(0));
    let mut other = first;
    other.final_init_seed = 9;
    assert_eq!(life.can_finalize(&other), Err(FinalizeRefusal::TestSpent));
    other.dataset = DatasetFingerprint::from_bytes([2; 32]);
    assert_eq!(life.can_finalize(&other), Err(FinalizeRefusal::NotChecked));
}

#[test]
fn stamps_compare_numbers_not_bits() {
    let plan = |v: f32| SplitPlan::Holdout { train_frac: s(v), val_frac: s(0.1), split_seed: 3 };
    assert!(plan(0.0).same_as(&plan(-0.0)));
    assert!(!plan(f32::NAN).same_as(&plan(f32::NAN)));
    let folds = SplitPlan::KFold { k: 5, folds_seed: 1, test_frac: s(0.2), test_seed: 2 };
    assert!(!plan(0.5).same_as(&folds));
    assert_eq!(folds.eval_source(), EvalSource::Cv { k: 5 });
    assert_eq!(folds.folds(), 5);
    assert_eq!(plan(0.5).folds(), 1);
}

#[test]
fn edges_outside_the_model_are_refused() {
    let dims = vec![(3, 4), (4, 2)];
    assert_eq!(check_edge(Some(&dims), 0, 1, 3, 7), None);
    assert_eq!(check_edge(Some(&dims), 0, 3, 0, 7).unwrap(), "KAN: в слое 0 нет входа 3");
    assert_eq!(check_edge(Some(&dims), 1, 0, 2, 7).unwrap(), "KAN: в слое 1 нет выхода 2");
    assert_eq!(check_edge(Some(&dims), 2, 0, 0, 7).unwrap(), "KAN: нет слоя 2");
    assert_eq!(check_edge(Some(&dims), 0, 0, 0, 1).unwrap(), "для графика нужно минимум 2 точки");
    assert_eq!(
        check_edge(None, 0, 0, 0, 7).unwrap(),
        "графики функций доступны только для KAN"
    );
}

#[test]
fn a_probe_learns_the_first_rows() {
    assert_eq!(PROBE_ROWS, 48);
    assert_eq!(probe_rows(3), vec![0, 1, 2]);
    assert_eq!(probe_rows(1000), (0..48).collect::<Vec<usize>>());
}

#[test]
fn text_models_need_sound_sizes_and_enough_text() {
    let model = ModelConfig::default();
    let train = TextTrainConfig {
        steps: 1,
        batch_size: 1,
        ctx_len: 3,
        tgt_len: 2,
        lr: s(1e-3),
        seed: 0,
    };
    assert!(validate_text_config(&model, &train).is_none());
    let mut bad = model;
    bad.n_heads = 3;
    assert!(validate_text_config(&bad, &train).is_some());
    assert_eq!(text_seed("abcdef", 3, 2).unwrap(), "abc");
    assert!(text_seed("abcd", 3, 2).is_err());
    let vocab = Vocab::from_text("abc");
    assert!(generation_fault(&vocab, 2, "ab", 5, s(0.8)).is_none());
    assert!(generation_fault(&vocab, 3, "ab", 5, s(0.8)).is_some());
    assert!(generation_fault(&vocab, 2, "ax", 5, s(0.8)).is_some());
    assert!(generation_fault(&vocab, 2, "ab", 0, s(0.8)).is_some());
    assert!(generation_fault(&vocab, 2, "ab", 5, s(f32::NAN)).is_some());
}

#[test]
fn inputs_are_counted() {
    assert_eq!(check_inputs(2, 2), None);
    assert!(check_inputs(2, 3).unwrap().contains("получено 3"));
}

#[test]
fn data_are_opened_by_their_origin() {
    assert!(matches!(
        opening(&DatasetOrigin::Blackbox("sum".to_string())),
        Ok(Opening::Task(task)) if task.name == "sum"
    ));
    assert!(opening(&DatasetOrigin::Blackbox("nope".to_string())).is_err());
    assert!(matches!(
        opening(&DatasetOrigin::File("a.tnum".to_string())),
        Ok(Opening::File(path)) if path == "a.tnum"
    ));
    assert!(opening(&DatasetOrigin::Table("a.csv".to_string())).is_err());
}

#[test]
fn formulas_need_activations() {
    assert!(matches!(formula_source(true, true, false), Ok(FormulaSource::Session)));
    assert!(matches!(formula_source(true, false, true), Ok(FormulaSource::File)));
    assert!(formula_source(true, false, false).is_err());
    assert!(formula_source(false, true, true).is_err());
}

#[test]
fn a_layout_suggests_roles_and_categories() {
    let spec = || PrepareSpec {
        n_inputs: 2,
        n_outputs: 1,
        delimiter: Delimiter::Comma,
        has_header: true,
        categorical: vec![(1, 3), (0, 2)],
    };
    assert_eq!(suggestions(true, Ok(spec())), (Some(2), vec![1, 0]));
    assert_eq!(suggestions(false, Ok(spec())), (None, vec![]));
    assert_eq!(suggestions(true, Err("не читается".to_string())), (None, vec![]));
}

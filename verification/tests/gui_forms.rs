//! The forms: what they build and what they refuse.

use transformer::config::ModelKind;
use transformer::encoders::{ValueEncoderConfig, ValueEncoderKind};
use transformer::epoch_sweep::{EpochRow, EvalSource};
use transformer::gui::forms::{
    axes_for, parse_csv_single, parse_csv_u64, parse_csv_usize, parse_schedules,
    parse_value_encoders, split_csv, CustomSearchForm, OptimizeForm, SearchBudget, SearchForm,
    SweepForm, TrainForm,
};
use transformer::gui::runs::{
    Delimiter, EpochSweepForm, PrepareForm, PrepareSpec, SourceForm, SourceKind, TextForm,
};
use transformer::gui::page::Item;
use transformer::gui::pages::ui_optimize_ranked;
use transformer::gui::session::Cancelling;
use transformer::gui::tabs::{Board, EpochBoard, Grid, Tab, Tabs};
use transformer::lifecycle::LrSchedule;
use transformer::single::Single;
use transformer::sweep::{sort_rows, SweepChoice, SweepObjective, SweepRow};

fn s(v: f32) -> Single {
    Single { bits: v.to_bits() }
}

fn kan_form() -> TrainForm {
    TrainForm {
        kind: ModelKind::Kan,
        kan_width: 16,
        kan_layers: 2,
        kan_grid: 8,
        venc: 2,
        ..Default::default()
    }
}

fn builds_kan_config() {
    let (config, _) = kan_form().build(None, None).unwrap();
    assert_eq!(config.kind, ModelKind::Kan);
    assert_eq!(config.value.kind, ValueEncoderKind::Linear);
    assert_eq!(config.kan.width, 16);
    assert_eq!(config.kan.layers, 2);
    assert_eq!(config.kan.grid, 8);
}

#[test]
fn app_train_form_builds_kan_config() {
    builds_kan_config();
}

#[test]
fn train_train_form_builds_kan_config() {
    builds_kan_config();
}

#[test]
fn epoch_sweep_form_builds_kan_config() {
    let form = EpochSweepForm {
        file_path: "test.tnum".to_string(),
        model: TrainForm { venc: 0, ..kan_form() },
        ..Default::default()
    };
    let request = form.build(None, None).unwrap();
    assert_eq!(request.nc.kind, ModelKind::Kan);
    assert_eq!(request.nc.kan.width, 16);
    assert_eq!(request.nc.kan.layers, 2);
    assert_eq!(request.nc.kan.grid, 8);
}

#[test]
fn faults_of_a_model_and_of_a_training_are_passed_on() {
    let form = TrainForm::default();
    assert!(form.build(None, None).is_ok());
    assert_eq!(form.build(Some("модель".to_string()), None).unwrap_err(), "модель");
    assert_eq!(form.build(None, Some("обучение".to_string())).unwrap_err(), "обучение");
}

#[test]
fn a_warmup_out_of_its_range_is_refused() {
    let form = TrainForm { warmup_cosine: true, warmup: s(1.5), ..Default::default() };
    assert!(form.build(None, None).is_err());
    let form = TrainForm { warmup_cosine: true, warmup: s(0.1), ..Default::default() };
    let (_, train) = form.build(None, None).unwrap();
    assert!(matches!(train.schedule, LrSchedule::WarmupCosine { .. }));
    let form = TrainForm { warmup_cosine: true, min_lr_ratio: s(1.5), ..Default::default() };
    assert!(form.build(None, None).is_err());
    let form = TrainForm { warmup: s(1.5), ..Default::default() };
    assert!(form.build(None, None).is_ok());
}

#[test]
fn lists_are_read_part_by_part() {
    assert_eq!(split_csv(" a, b,,c ", "x").unwrap(), vec!["a", "b", "c"]);
    assert!(split_csv(" , ", "x").is_err());
    assert_eq!(parse_csv_usize("1, 20", "x").unwrap(), vec![1, 20]);
    assert!(parse_csv_usize("1,-2", "x").unwrap_err().contains("-2"));
    assert_eq!(parse_csv_u64("0,18446744073709551615", "x").unwrap(), vec![0, u64::MAX]);
    assert!(parse_csv_u64("18446744073709551616", "x").is_err());
    let read = |raw: &str| -> Vec<Option<Single>> {
        raw.split(',')
            .map(|p| p.trim())
            .filter(|p| !p.is_empty())
            .map(|p| p.parse::<f32>().ok().map(s))
            .collect()
    };
    let raw = "1e-3, 0.5";
    assert_eq!(parse_csv_single(raw, "lr", &read(raw)).unwrap(), vec![s(1e-3), s(0.5)]);
    let raw = "1e-3, x";
    assert!(parse_csv_single(raw, "lr", &read(raw)).unwrap_err().contains('x'));
    assert_eq!(
        parse_value_encoders("linear,mlp, fourier").unwrap(),
        vec![ValueEncoderKind::Linear, ValueEncoderKind::Mlp, ValueEncoderKind::Fourier]
    );
    assert!(parse_value_encoders("linear,cubic").is_err());
    let schedules = parse_schedules("constant,warmup-cosine").unwrap();
    assert!(matches!(schedules[0], LrSchedule::Constant));
    assert!(matches!(schedules[1], LrSchedule::WarmupCosine { .. }));
    assert!(parse_schedules("step").is_err());
}

#[test]
fn a_search_needs_an_architecture() {
    let form = SearchForm {
        objective: 3,
        include_mlp: false,
        include_transformer: false,
        include_kan: false,
    };
    assert!(form.model_kinds().is_err());
    assert_eq!(form.objective(), SweepObjective::Nrmse);
    assert_eq!(
        SearchForm { include_mlp: true, include_kan: true, ..form }.model_kinds().unwrap().len(),
        2
    );
    assert_eq!(SearchBudget::from_number(2), SearchBudget::Thorough);
    assert_eq!(SearchBudget::from_number(9), SearchBudget::Quick);
}

#[test]
fn budgets_grow() {
    let quick = axes_for(SearchBudget::Quick, vec![ModelKind::Mlp]);
    let balanced = axes_for(SearchBudget::Balanced, vec![ModelKind::Mlp]);
    let thorough = axes_for(SearchBudget::Thorough, vec![ModelKind::Mlp]);
    assert_eq!((quick.epochs, balanced.epochs, thorough.epochs), (25, 40, 40));
    assert_eq!(quick.seeds, vec![0]);
    assert_eq!(thorough.seeds.len(), 2);
    assert_eq!(quick.model_kinds, vec![ModelKind::Mlp]);
}

#[test]
fn a_search_on_a_file_needs_the_file() {
    let mut form = OptimizeForm::default();
    assert!(form.build(None).is_err());
    form.file_path = "a.tnum".to_string();
    let (path, axes, objective) = form.build(None).unwrap();
    assert_eq!(path, "a.tnum");
    assert_eq!(objective, SweepObjective::WorstOutputR2);
    assert!(!axes.model_kinds.is_empty());
}

#[test]
fn the_rules_for_grids_refuse_a_search() {
    let fault = || Some("сетка слишком велика".to_string());
    let mut form = OptimizeForm::default();
    assert_ne!(form.build(fault()).unwrap_err(), "сетка слишком велика");
    assert_eq!(form.axes(fault()).unwrap_err(), "сетка слишком велика");
    form.file_path = "a.tnum".to_string();
    assert_eq!(form.build(fault()).unwrap_err(), "сетка слишком велика");
    let search = SearchForm::default();
    assert_eq!(search.axes(SearchBudget::Quick, fault()).unwrap_err(), "сетка слишком велика");
    let axes = search.axes(SearchBudget::Quick, None).unwrap();
    assert_eq!(axes.epochs, 25);
    let sweep = SweepForm::default();
    let read = |raw: &str| raw.split(',').map(|p| p.trim().parse().ok().map(s)).collect::<Vec<_>>();
    let (lrs, scales) = (read(&sweep.grid.lrs), read(&sweep.grid.fourier_scales));
    assert_eq!(sweep.build(&lrs, &scales, fault()).unwrap_err(), "сетка слишком велика");
    assert_eq!(
        sweep.grid.build(vec![ModelKind::Mlp], &lrs, &scales, fault()).unwrap_err(),
        "сетка слишком велика"
    );
}

#[test]
fn a_grid_by_hand_is_read_from_its_lists() {
    let form = CustomSearchForm {
        seeds: "0,1".to_string(),
        d_models: "8".to_string(),
        layers: "1,2".to_string(),
        d_ffs: "16".to_string(),
        lrs: "0.001".to_string(),
        value_encoders: "linear".to_string(),
        fourier_scales: "8".to_string(),
        fourier_bands: 4,
        schedulers: "constant".to_string(),
        epochs: 3,
        batch: 5,
    };
    let axes = form
        .build(vec![ModelKind::Transformer], &vec![Some(s(0.001))], &vec![Some(s(8.0))], None)
        .unwrap();
    assert_eq!(axes.seeds, vec![0, 1]);
    assert_eq!(axes.layers, vec![1, 2]);
    assert_eq!((axes.epochs, axes.batch_size), (3, 5));
    let broken = CustomSearchForm { layers: "x".to_string(), ..form };
    assert!(broken
        .build(vec![ModelKind::Mlp], &vec![Some(s(0.001))], &vec![Some(s(8.0))], None)
        .is_err());
}

#[test]
fn a_plain_grid_is_on_a_task() {
    let form = SweepForm::default();
    let count = |raw: &str| raw.split(',').filter(|p| !p.trim().is_empty()).count();
    let lrs = form.grid.lrs.split(',').map(|p| p.trim().parse().ok().map(s)).collect::<Vec<_>>();
    let scales =
        form.grid.fourier_scales.split(',').map(|p| p.trim().parse().ok().map(s)).collect();
    assert_eq!(lrs.len(), count(&form.grid.lrs));
    let (task, axes) = form.build(&lrs, &scales, None).unwrap();
    assert_eq!(task, form.blackbox);
    assert_eq!(axes.model_kinds, vec![ModelKind::Transformer]);
}

#[test]
fn a_learning_curve_ends_at_its_largest_point() {
    let form = EpochSweepForm {
        file_path: "a.tnum".to_string(),
        epochs: "10,2,5".to_string(),
        ..Default::default()
    };
    let request = form.build(None, None).unwrap();
    assert_eq!(request.milestones, vec![10, 2, 5]);
    assert_eq!(request.base_tcfg.epochs, 10);
    assert!(EpochSweepForm::default().build(None, None).is_err());
    let zero = EpochSweepForm { epochs: "0".to_string(), file_path: "a".to_string(), ..Default::default() };
    assert!(zero.build(None, None).is_err());
    let bad = EpochSweepForm { target_r2: s(f32::NAN), file_path: "a".to_string(), ..Default::default() };
    assert!(bad.build(None, None).is_err());
}

#[test]
fn a_text_model_needs_a_file_and_sound_sizes() {
    let mut form = TextForm::default();
    assert_eq!(form.build().unwrap_err(), "выберите текстовый файл");
    form.file_path = "a.txt".to_string();
    let (path, model, train) = form.build().unwrap();
    assert_eq!((path.as_str(), model.d_model, train.steps), ("a.txt", 64, 500));
    form.heads = 5;
    assert_eq!(form.build().unwrap_err(), "некорректный text model config");
    form.heads = 4;
    form.lr = s(0.0);
    assert_eq!(form.build().unwrap_err(), "некорректный text train config");
}

#[test]
fn a_conversion_needs_both_paths() {
    let mut form = PrepareForm::default();
    assert!(form.build(Ok(vec![])).is_err());
    form.input_path = "a.csv".to_string();
    assert!(form.build(Ok(vec![])).is_err());
    form.output_path = "a.tnum".to_string();
    let (input, output, spec) = form.build(Ok(vec![(1, 3)])).unwrap();
    assert_eq!((input.as_str(), output.as_str()), ("a.csv", "a.tnum"));
    assert_eq!(spec.categorical, vec![(1, 3)]);
    assert_eq!(form.build(Err("нет".to_string())).unwrap_err(), "нет");
}

#[test]
fn an_inferred_layout_fills_the_form() {
    let mut form = PrepareForm { input_path: "a.csv".to_string(), ..Default::default() };
    form.infer(Ok(PrepareSpec {
        n_inputs: 3,
        n_outputs: 2,
        delimiter: Delimiter::Tab,
        has_header: true,
        categorical: vec![(0, 4), (2, 2)],
    }));
    assert_eq!((form.inputs, form.outputs, form.delimiter), (3, 2, 2));
    assert!(form.has_header);
    assert_eq!(form.categorical, "0:4,2:2");
    assert_eq!(Delimiter::from_number(form.delimiter).number(), 2);
    let before = form.inputs;
    assert!(form.infer(Err("не читается".to_string())).unwrap().contains("не читается"));
    assert_eq!(form.inputs, before);
}

fn choice(seed: u64) -> SweepChoice {
    SweepChoice {
        kind: ModelKind::Transformer,
        d_model: 32,
        heads: 4,
        layers: 3,
        d_ff: 64,
        value: ValueEncoderConfig {
            kind: ValueEncoderKind::Fourier,
            fourier_bands: 5,
            fourier_scale: s(4.0),
        },
        mlp_width: 10,
        mlp_layers: 2,
        kan: Default::default(),
        lr: s(0.01),
        batch_size: 7,
        epochs: 25,
        final_epochs: 120,
        seed,
        schedule: LrSchedule::WarmupCosine { warmup_frac: s(0.2), min_lr_ratio: s(0.1) },
    }
}

fn result(label: &str, r2: f32, nrmse: f32) -> SweepRow {
    SweepRow {
        label: label.to_string(),
        choice: choice(1),
        source: EvalSource::Validation,
        r2_mean: s(r2),
        r2_std: s(0.0),
        worst_output_r2_mean: s(r2 - 0.1),
        mean_output_r2_mean: s(r2),
        nrmse_mean: s(nrmse),
        rel_mean: s(0.1),
    }
}

#[test]
fn a_chosen_configuration_survives_the_way_to_training() {
    let mut form = TrainForm::default();
    form.take_choice(&choice(9));
    let (config, train) = form.build(None, None).unwrap();
    assert_eq!(config.transformer.d_model, 32);
    assert_eq!(config.value.kind, ValueEncoderKind::Fourier);
    assert_eq!((train.epochs, train.batch_size, train.seed), (120, 7, 9));
    assert!(matches!(train.schedule, LrSchedule::WarmupCosine { .. }));
}

#[test]
fn results_are_ranked_by_the_objective() {
    let mut rows = vec![result("a", 0.5, 0.1), result("b", 0.9, 0.3), result("c", 0.5, 0.2)];
    sort_rows(&mut rows, SweepObjective::AggregateR2);
    let names = |rows: &[SweepRow]| rows.iter().map(|r| r.label.clone()).collect::<Vec<_>>();
    assert_eq!(names(&rows), vec!["b", "a", "c"]);
    sort_rows(&mut rows, SweepObjective::Nrmse);
    assert_eq!(names(&rows), vec!["a", "c", "b"]);
    assert_eq!(SweepObjective::Nrmse.display_score(&rows[0]), s(0.1));
    assert_eq!(f32::from_bits(SweepObjective::Nrmse.score(&rows[0]).bits), -0.1);
    assert_eq!(SweepObjective::WorstOutputR2.label(), "worst-output R²");
    assert_eq!(SweepObjective::from_number(2), SweepObjective::MeanOutputR2);
}

#[test]
fn a_board_tells_how_far_a_grid_is() {
    let mut board = Board::new();
    assert_eq!(board.started(Grid::Optimize, 2, 4), "optimize: 0/2 конфигов (4 прогонов)");
    let status = board.row(Grid::Optimize, SweepObjective::AggregateR2, result("a", 0.1, 1.0));
    assert_eq!(status.unwrap(), "optimize: 1/2 конфигов");
    assert!(board.best().is_none());
    board.row(Grid::Optimize, SweepObjective::AggregateR2, result("b", 0.2, 2.0));
    assert_eq!(board.rows[0].label, "b");
    board.rank(SweepObjective::Nrmse);
    assert_eq!(board.rows[0].label, "a");
    let rows = vec![result("x", 0.1, 1.0), result("y", 0.3, 1.0)];
    let status = board.done(Grid::Optimize, Some(SweepObjective::AggregateR2), rows, true);
    assert_eq!(status, "optimize отменён");
    assert_eq!(board.rows[0].label, "y");
    assert!(board.best().is_some());
}

fn tabs() -> Tabs {
    Tabs {
        tab: Tab::Optimize,
        status: String::new(),
        source: SourceForm {
            kind: SourceKind::Blackbox,
            blackbox: "sum".to_string(),
            file_path: String::new(),
            prepared: None,
        },
        form: TrainForm::default(),
        epoch_form: EpochSweepForm::default(),
        epochs: EpochBoard::new(),
    }
}

#[test]
fn a_best_result_moves_through_the_tabs() {
    let mut tabs = tabs();
    tabs.apply_choice_to_epoch_sweep("a.tnum", &choice(3));
    assert_eq!(tabs.tab, Tab::EpochSweep);
    assert_eq!(tabs.epoch_form.file_path, "a.tnum");
    assert_eq!(tabs.epoch_form.model.d_model, 32);
    tabs.apply_epoch_form_to_train(60);
    assert_eq!(tabs.tab, Tab::Train);
    assert_eq!((tabs.form.epochs, tabs.form.d_model), (60, 32));
    assert_eq!(tabs.source.file_path, "a.tnum");
    tabs.apply_choice_to_train("b.tnum", &choice(4));
    assert_eq!((tabs.form.epochs, tabs.form.seed), (120, 4));
    assert_eq!(tabs.source.file_path, "b.tnum");
}

#[test]
fn a_learning_curve_ends_with_a_recommendation() {
    let row = |epochs: usize| EpochRow {
        epochs,
        train_loss: s(0.0),
        rmse: s(0.0),
        mae: s(0.0),
        rel_error: s(0.0),
        r2: s(0.5),
        source: EvalSource::Validation,
    };
    let mut board = EpochBoard::new();
    board.started(2);
    assert!(board.running);
    board.row(row(1));
    assert_eq!(board.rows.len(), 1);
    board.done(vec![row(1), row(2)], Some((2, "почему".to_string())), false);
    assert_eq!(board.recommended(), Some(2));
    board.clear();
    assert_eq!(board.recommended(), None);
}

#[test]
fn results_are_ranked_before_they_are_shown() {
    let mut board = Board::new();
    board.rows = vec![result("a", 0.2, 1.0), result("b", 0.9, 2.0), result("c", 0.5, 3.0)];
    let shown = vec![vec!["0.2".to_string()], vec!["0.9".to_string()], vec!["0.5".to_string()]];
    let mut form = OptimizeForm::default();
    form.search.objective = 1;
    let rows = |form: &OptimizeForm, board: &mut Board, shown: Vec<Vec<String>>| {
        ui_optimize_ranked(form, None, board, false, shown)
            .items
            .into_iter()
            .filter_map(|i| match i {
                Item::Row(cells) if cells.len() == 3 => Some(cells.join(" ")),
                _ => None,
            })
            .collect::<Vec<String>>()
    };
    assert_eq!(rows(&form, &mut board, shown), vec!["*1 0.9 b", "2 0.5 c", "3 0.2 a"]);
    assert_eq!(board.rows[0].label, "b");
    form.search.objective = 3;
    let shown = vec![vec!["2".to_string()], vec!["3".to_string()], vec!["1".to_string()]];
    assert_eq!(rows(&form, &mut board, shown), vec!["*1 1 a", "2 2 b", "3 3 c"]);
}

#[test]
fn tabs_say_what_is_going_on() {
    let mut tabs = tabs();
    tabs.cancelling(Cancelling::EpochSweep);
    assert_eq!(tabs.status, "отмена epoch-sweep…");
    tabs.show_error("нет файла");
    assert_eq!(tabs.status, "Ошибка: нет файла");
    tabs.csv_written("a.csv", Ok(()));
    assert_eq!(tabs.status, "CSV: a.csv");
    tabs.csv_written("a.csv", Err("нет места".to_string()));
    assert_eq!(tabs.status, "Ошибка: запись CSV: нет места");
}

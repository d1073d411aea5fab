//! The pages of the window.

use transformer::config::ModelKind;
use transformer::data::{Matrix, NumericDataset, OutOfRange};
use transformer::epoch_sweep::{EpochRow, EvalSource};
use transformer::gui::forms::{OptimizeForm, SearchBudget, SweepForm, TrainForm};
use transformer::gui::messages::{
    DatasetOrigin, DiagnosticsResult, KanModelInfo, ModelOrigin, PreparedData,
};
use transformer::gui::model::{
    show_metrics, ui_diagnose, ui_kan_curves, ui_model, ui_model_summary, ModelView,
    ShownDiagnostics, ShownEval, ShownReports, ShownSummary,
};
use transformer::gui::page::{Action, Field, Item, Page};
use transformer::gui::pages::{
    ui_epoch_sweep, ui_optimize, ui_single_config, ui_train, TrainView, Wording,
};
use transformer::gui::predict::{
    filled_name, ui_dataset_bar, ui_header, ui_predict, ShownHeader, ShownOutside,
    ShownPredict,
};
use transformer::gui::runs::{EpochSweepForm, PrepareForm, SourceForm, SourceKind, TextForm};
use transformer::gui::session::{Event, ModelInfo, ModelReady, Session, TrainingMode};
use transformer::gui::shown::{split_plan_label, ShownMetrics, ShownProfile};
use transformer::gui::tabs::{Board, EpochBoard};
use transformer::gui::tools::{ui_demo, ui_prepare, ui_sweep, ui_text};
use transformer::gui::train::FinalizeStep;
use transformer::gui::training::{
    ui_auto_search, ui_custom_search, ui_finalize, ui_interpret_controls, ui_search_common,
    ui_search_results,
};
use transformer::interpret::InterpretOverrides;
use transformer::lifecycle::{FinalizeRefusal, SplitPlan};
use transformer::schema::{Column, ColumnRole, ColumnType, ModelSchema};
use transformer::single::Single;

fn s(v: f32) -> Single {
    Single { bits: v.to_bits() }
}

fn texts(names: &[&str]) -> Vec<String> {
    names.iter().map(|n| n.to_string()).collect()
}

/// A button by its action: its label and whether it can be used.
fn button(page: &Page, wanted: Action) -> Option<(&str, bool)> {
    page.items.iter().find_map(|i| match i {
        Item::Button { action, label, enabled } if *action == wanted => {
            Some((label.as_str(), *enabled))
        }
        _ => None,
    })
}

/// Everything that a page says.
fn said(page: &Page) -> Vec<&str> {
    page.items
        .iter()
        .filter_map(|i| match i {
            Item::Heading(t) | Item::Label(t) | Item::Warning(t) | Item::Problem(t) => {
                Some(t.as_str())
            }
            _ => None,
        })
        .collect()
}

fn edits(page: &Page, wanted: Field) -> bool {
    page.items.iter().any(|i| match i {
        Item::Number { field, .. }
        | Item::Whole { field, .. }
        | Item::Real { field, .. }
        | Item::Entry { field, .. }
        | Item::Check { field, .. }
        | Item::Choice { field, .. } => *field == wanted,
        _ => false,
    })
}

fn source() -> SourceForm {
    SourceForm {
        kind: SourceKind::Blackbox,
        blackbox: "sum".to_string(),
        file_path: String::new(),
        prepared: None,
    }
}

fn train_view() -> TrainView {
    TrainView {
        busy: false,
        training: false,
        markup_open: false,
        has_model: false,
        parameter_count: None,
        has_curve: false,
        metrics: None,
        warning: None,
    }
}

#[test]
fn a_training_is_started_once() {
    let form = TrainForm::default();
    let tasks = texts(&["sum", "wave"]);
    let page = ui_train(&source(), &form, &tasks, &train_view());
    assert_eq!(button(&page, Action::Run), Some(("Train", true)));
    assert_eq!(button(&page, Action::Cancel), Some(("Cancel", false)));
    assert_eq!(button(&page, Action::SaveModel), Some(("Save model…", false)));
    let view = TrainView { busy: true, training: true, has_model: true, ..train_view() };
    let page = ui_train(&source(), &form, &tasks, &view);
    assert_eq!(button(&page, Action::Run), Some(("Train", false)));
    assert_eq!(button(&page, Action::Cancel), Some(("Cancel", true)));
    assert_eq!(button(&page, Action::SaveModel), Some(("Save model…", false)));
}

#[test]
fn only_the_settings_of_the_chosen_model_are_shown() {
    let tasks = texts(&["sum"]);
    let shown = |kind| {
        let form = TrainForm { kind, ..Default::default() };
        let page = ui_train(&source(), &form, &tasks, &train_view());
        (
            edits(&page, Field::DModel),
            edits(&page, Field::MlpWidth),
            edits(&page, Field::KanGrid),
        )
    };
    assert_eq!(shown(ModelKind::Transformer), (true, false, false));
    assert_eq!(shown(ModelKind::Mlp), (false, true, false));
    assert_eq!(shown(ModelKind::Kan), (false, false, true));
}

#[test]
fn an_estimate_is_never_of_the_test_rows() {
    let view = TrainView {
        parameter_count: Some(12),
        metrics: Some(ShownMetrics {
            rmse: "1".to_string(),
            mae: "2".to_string(),
            rel_error: "3".to_string(),
            r2: "4".to_string(),
        }),
        warning: Some("осторожно".to_string()),
        ..train_view()
    };
    let page = ui_train(&source(), &TrainForm::default(), &texts(&["sum"]), &view);
    let all = said(&page);
    let last = &all[all.len() - 4..];
    assert_eq!(
        last,
        [
            "Параметров: 12",
            "validation: RMSE=1   MAE=2   rel.error=3%   R²=4",
            "Test отложен и в этой сессии не открывается.",
            "осторожно",
        ]
    );
}

#[test]
fn validation_is_measured_at_most_as_rarely_as_the_training_is_long() {
    let form = TrainForm { epochs: 20, ..Default::default() };
    let page = ui_single_config(&form, 50, Page::new(), false, false, None);
    assert!(page.items.iter().any(|i| matches!(
        i,
        Item::Number { field: Field::EvalEvery, low: 0, high: 20, .. }
    )));
    assert!(said(&page).contains(&"эпох"));
    let page = ui_single_config(&form, 0, Page::new(), false, false, None);
    assert!(said(&page).contains(&"эпох (0 — не измерять по ходу)"));
    assert_eq!(button(&page, Action::SaveModel).unwrap().1, false);
    let origin = Some(ModelOrigin::Checkpoint);
    let page = ui_single_config(&form, 0, Page::new(), false, false, origin);
    assert_eq!(button(&page, Action::SaveModel).unwrap().1, true);
}

#[test]
fn tables_of_results_are_shown_row_by_row() {
    let mut board = EpochBoard::new();
    board.rows = vec![EpochRow {
        epochs: 3,
        train_loss: s(0.1),
        rmse: s(0.1),
        mae: s(0.1),
        rel_error: s(0.1),
        r2: s(0.1),
        source: EvalSource::Validation,
    }];
    let printed = texts(&["0.10000", "0.10000", "0.10000", "10.0%", "0.10000"]);
    let page = ui_epoch_sweep(&EpochSweepForm::default(), &board, false, &vec![printed]);
    let row = texts(&["3", "0.10000", "0.10000", "0.10000", "10.0%", "0.10000"]);
    assert!(page.items.iter().any(|i| matches!(i, Item::Row(cells) if *cells == row)));
    assert_eq!(button(&page, Action::SaveCsv).unwrap().1, true);
    let page = ui_epoch_sweep(&EpochSweepForm::default(), &EpochBoard::new(), false, &vec![]);
    assert!(!page.items.iter().any(|i| matches!(i, Item::Line { .. })));
}

#[test]
fn searches_say_how_large_they_are() {
    let page =
        ui_optimize(&OptimizeForm::default(), Some((4, 8)), &Board::new(), false, &vec![]);
    assert!(said(&page).iter().any(|t| t.contains('4') && t.contains('8')));
    let page = ui_sweep(
        &SweepForm::default(),
        &texts(&["sum"]),
        &Board::new(),
        true,
        &vec![],
    );
    assert_eq!(button(&page, Action::Run).unwrap().1, false);
}

#[test]
fn text_can_be_generated_by_a_trained_model_only() {
    let mut session = Session::new();
    let form = TextForm::default();
    let page = ui_text(&form, &session.text, false, Wording::Full);
    assert!(button(&page, Action::Generate).map_or(true, |b| !b.1));
    session.text.ready = true;
    let page = ui_text(&form, &session.text, false, Wording::Full);
    assert_eq!(button(&page, Action::Generate).unwrap().1, true);
    let tasks = texts(&["sum", "wave"]);
    let page = ui_demo(&tasks, &form, &session.text, true);
    assert_eq!(button(&page, Action::OpenTask(1)), Some(("wave", false)));
    assert_eq!(button(&page, Action::OpenTask(2)), None);
    assert_eq!(button(&ui_prepare(&PrepareForm::default(), true), Action::Convert).unwrap().1, false);
}

fn coded_schema() -> ModelSchema {
    let column = |name: &str, role, ty| Column { name: name.to_string(), role, ty, unit: None };
    ModelSchema {
        inputs: vec![
            column("x", ColumnRole::Input, ColumnType::Numeric),
            column(
                "city",
                ColumnRole::Input,
                ColumnType::Categorical { levels: texts(&["a", "b"]) },
            ),
        ],
        outputs: vec![column("y", ColumnRole::Output, ColumnType::Numeric)],
    }
}

fn info(kind: ModelKind) -> ModelInfo {
    ModelInfo {
        schema: coded_schema(),
        kind,
        source: "a.tnum".to_string(),
        origin: ModelOrigin::Checkpoint,
        parameter_count: 7,
        interpret: None,
    }
}

#[test]
fn only_a_transformer_embeds_categories() {
    assert_eq!(info(ModelKind::Transformer).categorical_warning(), None);
    let text = info(ModelKind::Mlp).categorical_warning().unwrap();
    assert!(text.contains("(city)") && text.contains("расстояние"), "{text}");
}

#[test]
fn predictions_show_what_is_outside_the_data() {
    let mut session = Session::new();
    session.take_event(Event::ModelReady(ModelReady {
        info: info(ModelKind::Transformer),
        kan: None,
        disclosure: None,
    }));
    let blank = ShownPredict {
        input_names: texts(&["x", "city"]),
        output_names: texts(&["y"]),
        codes: vec![0, 9],
        outputs: vec![],
        outside: vec![],
    };
    assert!(!said(&ui_predict(&session, &blank)).iter().any(|t| t.contains(" = ")));
    session.take_event(Event::PredictResult {
        outputs: vec![s(1.5)],
        extrapolation: vec![OutOfRange { feature: 0, value: s(9.0), min: s(0.0), max: s(1.0) }],
    });
    let shown = ShownPredict {
        outputs: texts(&["1.5"]),
        outside: vec![ShownOutside {
            value: "9".to_string(),
            min: "0".to_string(),
            max: "1".to_string(),
        }],
        ..blank
    };
    let page = ui_predict(&session, &shown);
    assert!(page.items.iter().any(|i| matches!(
        i,
        Item::Choice { field: Field::Column(1), chosen: 1, .. }
    )));
    let all = said(&page);
    assert!(all.contains(&"Модель: a.tnum (2 вход → 1 выход, 7 параметров)"), "{all:?}");
    assert!(all.contains(&"y = 1.5"));
    assert!(all.contains(&"x = 9 вне [0, 1]"));
    assert_eq!(button(&page, Action::Predict), Some(("Predict", true)));
    let none = ShownPredict {
        input_names: vec![],
        output_names: vec![],
        codes: vec![],
        outputs: vec![],
        outside: vec![],
    };
    let page = ui_predict(&Session::new(), &none);
    assert_eq!(
        said(&page),
        ["Predict", "Обучите модель (вкладка Train) или загрузите .bin."]
    );
    assert_eq!(filled_name(Some("data")), "data_predicted.xlsx");
    assert_eq!(filled_name(None), "predicted.xlsx");
}

#[test]
fn the_head_describes_data_and_model() {
    let mut session = Session::new();
    let blank = ShownHeader { summary: String::new(), estimate: String::new(), mismatch: None };
    assert_eq!(
        said(&ui_header(&session, &blank)),
        ["Данные:", "не открыты", "Модель:", "не обучена"]
    );
    session.model_info = Some(info(ModelKind::Mlp));
    let shown = ShownHeader {
        summary: "таблица".to_string(),
        estimate: "0.500".to_string(),
        mismatch: Some("нет входа z".to_string()),
    };
    assert_eq!(
        said(&ui_header(&session, &shown))[2..],
        ["Модель:", "mlp · a.tnum · загружена из файла"]
    );
    let bar = ui_dataset_bar(&session);
    assert_eq!(button(&bar, Action::OpenTable).unwrap().1, true);
    assert_eq!(button(&bar, Action::Remark), None);
    session.take_event(Event::DatasetOpened {
        data: PreparedData {
            origin: DatasetOrigin::Table("a.csv".to_string()),
            data: NumericDataset::new(
                Matrix::from_rows(1, vec![vec![s(1.0)]]).unwrap(),
                Matrix::from_rows(1, vec![vec![s(1.0)]]).unwrap(),
            ),
            schema: ModelSchema::synthetic(1, 1, Ok(())).unwrap(),
        },
        file_name: None,
        split: SplitPlan::Holdout { train_frac: s(0.7), val_frac: s(0.15), split_seed: 0 },
    });
    assert_eq!(
        said(&ui_header(&session, &shown)),
        [
            "Данные:",
            "таблица",
            "Модель:",
            "mlp · a.tnum · загружена из файла",
            "⚠ не подходит к данным: нет входа z",
        ]
    );
    session.batch_predicting = true;
    let bar = ui_dataset_bar(&session);
    assert_eq!(button(&bar, Action::Remark).unwrap().1, false);
}

#[test]
fn a_closed_second_step_says_why() {
    assert_eq!(ui_finalize(FinalizeStep::Hidden).items.len(), 1);
    let page = ui_finalize(FinalizeStep::Open { enabled: true });
    assert_eq!(
        button(&page, Action::Finalize),
        Some(("Зафиксировать и обучить финально", true))
    );
    let page = ui_finalize(FinalizeStep::Refused(FinalizeRefusal::TestSpent));
    assert_eq!(button(&page, Action::Finalize).unwrap().1, false);
    assert_eq!(said(&page).len(), 1);
    let page = ui_finalize(FinalizeStep::Measured { test_rows: 5 });
    assert_eq!(
        said(&page),
        ["Этот кандидат уже обучен финально: test открыт (5 строк), результат ниже."]
    );
}

#[test]
fn searches_say_what_they_cost() {
    let common = |cost: Result<String, String>| ui_search_common(0, &cost, false, true);
    let page = common(Ok("3 мин".to_string()));
    assert!(said(&page).contains(&"Оценка: 3 мин"));
    assert_eq!(button(&page, Action::Cancel), Some(("Отмена", true)));
    let page = common(Err("нет архитектур".to_string()));
    assert!(page.items.iter().any(|i| matches!(i, Item::Problem(t) if t == "нет архитектур")));
    let names = texts(&["Быстро", "Сбалансированно", "Тщательно"]);
    let page = ui_auto_search(SearchBudget::Balanced, &names, "средне", Page::new());
    assert_eq!(said(&page), ["Сбалансированно: средне"]);
    assert!(edits(&ui_custom_search(Page::new()), Field::Lrs));
    assert_eq!(ui_search_results(&Session::new(), Page::new(), &vec![]).items.len(), 0);
    let quick = TrainingMode::Auto(SearchBudget::Quick);
    assert_eq!(quick.switch_to(0, SearchBudget::Thorough).number(), 0);
}

#[test]
fn pruning_settings_go_with_pruning() {
    let mut overrides = InterpretOverrides::default();
    let page = ui_interpret_controls(ModelKind::Kan, true, &overrides, "v1");
    assert!(edits(&page, Field::InterpretThreshold));
    overrides.switch_prune(false);
    let page = ui_interpret_controls(ModelKind::Kan, true, &overrides, "v1");
    assert!(!edits(&page, Field::InterpretThreshold));
    let page = ui_interpret_controls(ModelKind::Mlp, true, &overrides, "v1");
    assert!(!edits(&page, Field::InterpretPrune));
}

#[test]
fn edges_of_a_kan_are_chosen_one_at_a_time() {
    let mut session = Session::new();
    let page = ui_kan_curves(&session.kan, "", "");
    assert_eq!(page.items.len(), 2);
    session.take_event(Event::ModelReady(ModelReady {
        info: info(ModelKind::Kan),
        kan: Some(KanModelInfo {
            layer_dims: vec![(2, 4), (4, 1)],
            domain: (s(-3.0), s(3.0)),
            symbolic_available: false,
        }),
        disclosure: None,
    }));
    session.kan.choose_edge(1, 2, 0);
    assert_eq!((session.kan.input, session.kan.output), (0, 0));
    session.kan.choose_edge(1, 2, 0);
    session.kan.place();
    let page = ui_kan_curves(&session.kan, "-3.0", "3.0");
    let all = said(&page);
    assert_eq!(
        all[1],
        "φ2→0(x), слой 1; x – активация предыдущего KAN-слоя, сетка [-3.0, 3.0]"
    );
    assert_eq!(all[2], "Выборка кривой…");
}

#[test]
fn a_model_has_four_views() {
    let mut part = Page::new();
    part.label("часть");
    let page = ui_model(ModelView::Diagnose, part);
    assert!(page.items.iter().any(|i| matches!(
        i,
        Item::Choice { field: Field::ModelView, options, chosen: 3, .. } if options.len() == 4
    )));
    assert_eq!(said(&page).last(), Some(&"часть"));
}

#[test]
fn metrics_are_shown_for_each_output() {
    let one = |t: &str| ShownMetrics {
        rmse: t.to_string(),
        mae: t.to_string(),
        rel_error: t.to_string(),
        r2: t.to_string(),
    };
    let eval =
        ShownEval { metrics: one("1"), per_output: Some(vec![one("2"), one("3")]) };
    let page = show_metrics("test", &eval, &texts(&["u", "v"]));
    assert!(page
        .items
        .iter()
        .any(|i| matches!(i, Item::Row(c) if *c == texts(&["v", "3", "3", "3%", "3"]))));
}

#[test]
fn without_a_model_there_is_nothing_to_show() {
    let none = || ShownMetrics {
        rmse: String::new(),
        mae: String::new(),
        rel_error: String::new(),
        r2: String::new(),
    };
    let shown = ShownSummary {
        protocol: String::new(),
        mismatch: Some("нет входа z".to_string()),
        output_names: vec![],
        validation: ShownEval { metrics: none(), per_output: None },
        validation_protocol: String::new(),
        spread: String::new(),
        measured: ShownEval { metrics: none(), per_output: None },
        measured_protocol: String::new(),
        reports: ShownReports {
            profile: ShownProfile { l1: String::new(), prune: String::new() },
            before: String::new(),
            pruned: String::new(),
            tuned: String::new(),
        },
    };
    let mut session = Session::new();
    assert_eq!(button(&ui_model_summary(&session, &shown), Action::SaveModel), None);
    session.model_info = Some(info(ModelKind::Mlp));
    let page = ui_model_summary(&session, &shown);
    assert_eq!(
        said(&page).last(),
        Some(&"Checkpoint не хранит метрики: они появятся после обучения в этой сессии.")
    );
    assert!(!said(&page).iter().any(|t| t.contains("нет входа z")));
    assert_eq!(button(&page, Action::SaveModel).unwrap().1, true);
    let shown = ShownDiagnostics {
        overfit_loss: "0.01".to_string(),
        residuals: vec![("50".to_string(), "1.2".to_string())],
        model: (String::new(), String::new()),
        reference: (String::new(), String::new()),
        divergence: String::new(),
    };
    let result = Some(DiagnosticsResult {
        overfit_loss: s(0.01),
        extrapolation_rows: 0,
        extrapolation_total: 4,
        evaluation_label: "validation".to_string(),
        residuals: vec![(s(0.5), s(1.2))],
        sensitivity: Err("нет пар".to_string()),
    });
    let page = ui_diagnose(true, &result, &shown);
    assert!(said(&page).iter().any(|t| t.contains("нет пар")));
    assert!(page
        .items
        .iter()
        .any(|i| matches!(i, Item::Row(c) if *c == texts(&["0", "50%", "1.2"]))));
}

#[test]
fn divisions_are_named() {
    let plan = SplitPlan::Holdout { train_frac: s(0.7), val_frac: s(0.15), split_seed: 7 };
    assert_eq!(
        split_plan_label(&plan, "70", "15", "15"),
        "holdout 70/15/15, split seed 7"
    );
    let plan = SplitPlan::KFold { k: 5, folds_seed: 1, test_frac: s(0.25), test_seed: 2 };
    assert_eq!(
        split_plan_label(&plan, "25", "", ""),
        "5-fold, test 25%, folds seed 1, test seed 2"
    );
}

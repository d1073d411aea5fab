//! Marking up a table.

use transformer::data::{Matrix, NumericDataset};
use transformer::gui::forms::TrainForm;
use transformer::gui::markup::{
    data_summary, markup_step, ui_markup, DraftColumn, DraftType, MarkupState, MarkupStep, Message, Severity,
};
use transformer::gui::messages::{DatasetOrigin, PreparedData};
use transformer::gui::page::{Action, Field, Item};
use transformer::gui::runs::{build_training, DataSource, PreparedTable, SourceForm, SourceKind};
use transformer::gui::session::{ActiveDataset, Event, Session};
use transformer::gui::sheets::{ui_sheets, SheetChoice, SheetState};
use transformer::lifecycle::SplitPlan;
use transformer::schema::{Column, ColumnRole, ModelSchema};
use transformer::single::Single;

fn s(v: f32) -> Single {
    Single { bits: v.to_bits() }
}

fn cells(text: &str) -> (Vec<String>, Vec<Vec<String>>) {
    let mut lines = text.lines().map(|l| l.split(',').map(|c| c.to_string()).collect());
    let header = lines.next().unwrap();
    (header, lines.collect())
}

fn is_number(rows: &[Vec<String>], j: usize) -> bool {
    rows.iter().all(|r| r.get(j).is_some_and(|c| c.parse::<f32>().is_ok()))
}

/// What stands in the way of a choice of roles and types.
fn issues(state: &MarkupState, text: &str) -> Vec<String> {
    let (_, rows) = cells(text);
    let mut list = Vec::new();
    for (j, column) in state.columns.iter().enumerate() {
        if column.role == ColumnRole::Output && !is_number(&rows, j) {
            list.push(format!("выход {} не число", column.name));
        }
    }
    if state.columns.iter().all(|c| c.role != ColumnRole::Input) {
        list.push("нет входов".to_string());
    }
    if state.columns.iter().all(|c| c.role != ColumnRole::Output) {
        list.push("нет выходов".to_string());
    }
    list
}

fn refresh(state: &mut MarkupState, text: &str) {
    let found = issues(state, text);
    state.on_roles_changed(vec![], found);
}

fn markup_named(path: &str, text: &str, suggested: Option<usize>, categories: &[usize]) -> MarkupState {
    let (header, rows) = cells(text);
    let columns = header
        .iter()
        .enumerate()
        .map(|(j, name)| DraftColumn {
            name: name.clone(),
            role: ColumnRole::Ignore,
            ty: if is_number(&rows, j) { DraftType::Numeric } else { DraftType::Categorical },
            unit: None,
            data: String::new(),
        })
        .collect();
    let ragged = rows.iter().any(|r| r.len() != header.len());
    let profile = if ragged {
        vec![Message {
            severity: Severity::Blocking,
            text: "строки с другим числом колонок".to_string(),
        }]
    } else {
        vec![]
    };
    let mut state = MarkupState::new(
        path.to_string(),
        true,
        rows.len(),
        columns,
        profile,
        suggested,
        &categories.to_vec(),
    );
    let found = issues(&state, text);
    state.on_roles_changed(vec![], found);
    state
}

fn markup(text: &str, suggested: Option<usize>) -> MarkupState {
    markup_named("t.csv", text, suggested, &[])
}

/// The data and the schema of a choice.
fn build(state: &MarkupState, text: &str) -> Result<(NumericDataset, ModelSchema), String> {
    if let Some(issue) = state.issues.first() {
        return Err(issue.clone());
    }
    let (_, rows) = cells(text);
    let side = |role: ColumnRole| {
        let mut columns = Vec::new();
        let mut values: Vec<Vec<Single>> = vec![vec![]; rows.len()];
        for (j, c) in state.columns.iter().enumerate().filter(|(_, c)| c.role == role) {
            if c.ty == DraftType::Categorical {
                let mut levels: Vec<String> = rows.iter().map(|r| r[j].clone()).collect();
                levels.sort();
                levels.dedup();
                for (v, r) in values.iter_mut().zip(&rows) {
                    v.push(s(levels.iter().position(|l| l == &r[j]).unwrap() as f32));
                }
                columns.push(Column::categorical(&c.name, role, levels, Ok(())).unwrap());
            } else {
                for (v, r) in values.iter_mut().zip(&rows) {
                    v.push(s(r[j].parse().unwrap()));
                }
                columns.push(Column::numeric(&c.name, role, Ok(())).unwrap());
            }
        }
        let matrix = Matrix::from_rows(columns.len(), values).unwrap();
        (columns, matrix)
    };
    let (inputs, x) = side(ColumnRole::Input);
    let (outputs, y) = side(ColumnRole::Output);
    Ok((NumericDataset::new(x, y), ModelSchema::new(inputs, outputs, Ok(()))?))
}

fn apply(state: &MarkupState, text: &str) -> Result<(NumericDataset, ModelSchema), String> {
    state.apply(build(state, text))
}

fn suggested_split_but_user_decides() {
    let text = "a,b,c\n1,2,3\n4,5,6\n";
    let mut state = markup(text, Some(2));
    let roles: Vec<ColumnRole> = state.columns.iter().map(|c| c.role).collect();
    assert_eq!(roles, vec![ColumnRole::Input, ColumnRole::Input, ColumnRole::Output]);

    state.set_role(1, ColumnRole::Ignore);
    refresh(&mut state, text);
    let (data, schema) = apply(&state, text).unwrap();
    assert_eq!(schema.input_names(), vec!["a"]);
    assert_eq!(schema.output_names(), vec!["c"]);
    assert_eq!((data.inputs.nrows(), data.inputs.ncols()), (2, 1));
}

#[test]
fn app_markup_applies_suggested_split_but_user_decides() {
    suggested_split_but_user_decides();
}

#[test]
fn data_markup_applies_suggested_split_but_user_decides() {
    suggested_split_but_user_decides();
}

#[test]
fn prepared_source_carries_data_and_schema() {
    let text = "t,mat,y\n80,песок,1\n60,глина,2\n";
    let mut state = markup(text, Some(2));
    refresh(&mut state, text);
    let (data, schema) = apply(&state, text).unwrap();

    let source = SourceForm {
        kind: SourceKind::Table,
        blackbox: "sum".to_string(),
        file_path: String::new(),
        prepared: Some(PreparedTable {
            name: "t.csv".to_string(),
            path: state.path.clone(),
            has_header: state.has_header,
            data,
            schema,
        }),
    };
    let (found, _, _) = build_training(&source, &TrainForm::default(), None, None).unwrap();
    assert!(matches!(found, DataSource::Prepared), "ожидался Prepared");
    let prepared = source.prepared.as_ref().unwrap();
    assert_eq!((prepared.data.inputs.nrows(), prepared.data.inputs.ncols()), (2, 2));
    assert_eq!(prepared.schema.input_names(), vec!["t", "mat"]);
    assert_eq!(prepared.schema.inputs[1].cardinality(), Some(2));
    assert_eq!(f32::from_bits(prepared.data.inputs.at(0, 1).bits), 1.0);
}

#[test]
fn table_source_without_markup_refuses_to_train() {
    let source = SourceForm {
        kind: SourceKind::Table,
        blackbox: "sum".to_string(),
        file_path: String::new(),
        prepared: None,
    };
    let err = match build_training(&source, &TrainForm::default(), None, None) {
        Err(e) => e,
        Ok(_) => panic!("обучение без разметки должно быть отклонено"),
    };
    assert!(err.contains("подтвердите разметку"), "{err}");
}

#[test]
fn markup_result_becomes_the_active_dataset() {
    let text = "t,mat,y\n80,песок,1\n60,глина,2\n";
    let mut state = markup(text, Some(2));
    refresh(&mut state, text);
    let (data, schema) = apply(&state, text).unwrap();
    let split = SplitPlan::Holdout { train_frac: s(0.7), val_frac: s(0.15), split_seed: 0 };
    let active = ActiveDataset::new(
        PreparedData { origin: DatasetOrigin::Table(state.path.clone()), data, schema },
        Some(state.profile.len()),
        0,
        state.has_header,
        1,
        split,
    );

    assert_eq!(
        (active.prepared.data.inputs.nrows(), active.prepared.data.inputs.ncols()),
        (2, 2)
    );
    assert_eq!(active.prepared.schema.input_names(), vec!["t", "mat"]);
    assert_eq!(active.prepared.schema.inputs[1].cardinality(), Some(2));
    assert_eq!(f32::from_bits(active.prepared.data.inputs.at(0, 1).bits), 1.0);
    assert!(active.split.same_as(&split));
    assert!(active.summary(Some("t.csv"), 1, 0).contains("2 строк"));
}

#[test]
fn an_applied_choice_closes_the_dialogue() {
    let text = "t,mat,y\n80,песок,1\n60,глина,2\n";
    let split = SplitPlan::Holdout { train_frac: s(0.7), val_frac: s(0.15), split_seed: 0 };
    let mut session = Session::new();
    assert!(!session.apply_markup(Err("нет".to_string()), split));
    let mut state = markup(text, Some(2));
    refresh(&mut state, text);
    let built = apply(&state, text);
    session.take_event(Event::TableOpened(state));
    assert!(!session.apply_markup(Err("не строится".to_string()), split));
    assert_eq!(
        session.markup.as_ref().unwrap().apply_error.as_deref(),
        Some("не строится")
    );
    assert!(session.dataset.is_none());
    assert!(session.apply_markup(built, split));
    assert!(session.markup.is_none());
    let active = session.dataset.as_ref().unwrap();
    assert_eq!((active.revision, active.prepared.data.len()), (1, 2));
    assert_eq!(session.status, "разметка применена");
}

fn issues_prevent_applying() {
    let text = "a,b\n1,x\n2,y\n";
    let mut state = markup(text, Some(1));
    assert!(!state.issues.is_empty());
    assert!(apply(&state, text).is_err());

    state.set_role(1, ColumnRole::Ignore);
    state.set_role(0, ColumnRole::Output);
    refresh(&mut state, text);
    assert!(!state.issues.is_empty());
}

#[test]
fn app_blocking_issues_prevent_applying() {
    issues_prevent_applying();
}

#[test]
fn data_blocking_issues_prevent_applying() {
    issues_prevent_applying();
}

fn profile_message_disables_and_rejects_apply() {
    let text = "a,b\n1,2\n3\n";
    let state = markup_named("ragged.csv", text, Some(1), &[]);
    assert!(!state.can_apply());
    let error = match state.apply::<()>(Ok(())) {
        Err(error) => error,
        Ok(_) => panic!("таблица с рваными строками не должна применяться"),
    };
    assert!(error.contains("другим числом колонок"), "{error}");
}

#[test]
fn app_blocking_profile_message_disables_and_rejects_apply() {
    profile_message_disables_and_rejects_apply();
}

#[test]
fn data_blocking_profile_message_disables_and_rejects_apply() {
    profile_message_disables_and_rejects_apply();
}

fn suggestion_only_prefills_type() {
    let text = "x,material_id,y\n1,0,2\n3,1,4\n";
    let mut state = markup_named("coded.csv", text, Some(2), &[1]);
    assert_eq!(state.columns[1].ty, DraftType::Categorical);

    assert!(state.set_type(1, DraftType::Numeric, Ok(())));
    refresh(&mut state, text);
    assert_eq!(state.columns[1].ty, DraftType::Numeric);
    assert!(state.can_apply());
}

#[test]
fn app_categorical_suggestion_only_prefills_type() {
    suggestion_only_prefills_type();
}

#[test]
fn data_categorical_suggestion_only_prefills_type() {
    suggestion_only_prefills_type();
}

/// Three inputs with a constant sum depend on each other.
fn dependencies(state: &MarkupState, text: &str) -> Vec<Message> {
    let (_, rows) = cells(text);
    let inputs: Vec<usize> = (0..state.columns.len())
        .filter(|&j| state.columns[j].role == ColumnRole::Input)
        .collect();
    let sum = |r: &Vec<String>| inputs.iter().map(|&j| r[j].parse::<f64>().unwrap()).sum::<f64>();
    let first = sum(&rows[0]);
    if rows.iter().all(|r| (sum(r) - first).abs() < 1e-9) {
        let names: Vec<&str> = inputs.iter().map(|&j| state.columns[j].name.as_str()).collect();
        vec![Message { severity: Severity::Warning, text: names.join(" + ") }]
    } else {
        vec![]
    }
}

fn tracks_roles_and_ignores_renames() {
    let mut text = String::from("x0,x1,x2,y\n");
    for i in 0..30 {
        let x0 = 2.0 + i as f64;
        let x1 = 5.0 + (i % 4) as f64;
        text.push_str(&format!("{x0},{x1},{},{}\n", 100.0 - x0 - x1, i));
    }
    let mut state = markup(&text, Some(3));
    let (report, found) = (dependencies(&state, &text), issues(&state, &text));
    state.on_roles_changed(report, found);
    assert_eq!(state.report.len(), 1);

    state.set_name(0, "доля A".to_string());
    let found = issues(&state, &text);
    state.on_any_change(found);
    assert_eq!(state.report.len(), 1);
    let shown = &dependencies(&state, &text)[0].text;
    assert!(shown.contains("доля A"), "{shown}");

    state.set_role(2, ColumnRole::Ignore);
    let (report, found) = (dependencies(&state, &text), issues(&state, &text));
    state.on_roles_changed(report, found);
    assert!(state.report.is_empty());
}

#[test]
fn app_report_tracks_roles_and_ignores_renames() {
    tracks_roles_and_ignores_renames();
}

#[test]
fn data_report_tracks_roles_and_ignores_renames() {
    tracks_roles_and_ignores_renames();
}

#[test]
fn units_are_trimmed_and_may_be_absent() {
    let mut state = markup("a,b\n1,2\n", Some(1));
    state.set_unit(0, " kg ");
    assert_eq!(state.columns[0].unit.as_deref(), Some("kg"));
    state.set_unit(0, "  ");
    assert_eq!(state.columns[0].unit, None);
}

#[test]
fn a_changed_header_reads_the_table_again() {
    let state = markup("a,b\n1,2\n", Some(1));
    assert!(matches!(markup_step(&state, true, true, false), MarkupStep::Stay));
    assert!(matches!(
        markup_step(&state, false, true, false),
        MarkupStep::Reopen { has_header: false }
    ));
    assert!(matches!(markup_step(&state, true, false, false), MarkupStep::Close));
    assert!(matches!(markup_step(&state, true, true, true), MarkupStep::Close));
}

#[test]
fn the_dialogue_offers_to_apply_only_what_can_be_applied() {
    let apply_enabled = |state: &MarkupState| {
        ui_markup(state, true).items.iter().find_map(|item| match item {
            Item::Button { action: Action::ApplyMarkup, enabled, .. } => Some(*enabled),
            _ => None,
        })
    };
    assert_eq!(apply_enabled(&markup("a,b\n1,2\n", Some(1))), Some(true));
    assert_eq!(apply_enabled(&markup("a,b\n1,x\n", Some(1))), Some(false));
}

#[test]
fn a_sheet_is_chosen_for_its_own_workbook() {
    let mut choice = SheetChoice { path: String::new(), sheets: vec![], selected: None };
    choice.offer("a.xlsx".to_string(), vec!["one".to_string(), "two".to_string()]);
    assert!(choice.awaiting("a.xlsx"));
    assert!(!choice.awaiting("b.xlsx"));
    assert!(choice.pick("a.xlsx", 1));
    assert_eq!(choice.sheet_for("a.xlsx"), Some("two"));
    assert_eq!(choice.sheet_for("b.xlsx"), None);
    assert!(!choice.awaiting("a.xlsx"));
    choice.clear();
    assert_eq!(choice.sheet_for("a.xlsx"), None);
}

#[test]
fn columns_stand_under_a_heading() {
    let rows: Vec<Vec<String>> = ui_markup(&markup("a,b\n1,2\n", Some(1)), true)
        .items
        .into_iter()
        .filter_map(|i| match i {
            Item::Row(cells) => Some(cells),
            _ => None,
        })
        .collect();
    assert_eq!(rows[0], vec!["колонка", "роль", "тип", "единица", "данные"]);
    assert_eq!(rows[1], vec!["a", "вход", "число", "", ""]);
    assert_eq!(rows.len(), 3);
}

#[test]
fn a_refused_type_is_not_taken() {
    let mut state = markup("a,b\n1,2\n", Some(1));
    assert!(!state.set_type(0, DraftType::Numeric, Err("нельзя".to_string())));
    assert_eq!(state.apply_error, None);
    assert!(!state.set_type(0, DraftType::Categorical, Err("нельзя".to_string())));
    assert_eq!(state.columns[0].ty, DraftType::Numeric);
    assert_eq!(state.apply_error.as_deref(), Some("нельзя"));
    assert!(!state.can_apply());
    assert!(!state.set_role(0, ColumnRole::Input));
    assert!(state.set_role(0, ColumnRole::Ignore));
}

#[test]
fn a_column_is_summed_up() {
    assert_eq!(data_summary(Some(3), 1, 0), "различных 3, пропусков 1, текст 0");
    assert_eq!(data_summary(None, 0, 2), "различных много, пропусков 0, текст 2");
}

#[test]
fn sheets_are_listed_for_their_workbook() {
    let state = SheetState::default();
    assert!(state.markup.path.is_empty() && state.export.selected.is_none());
    let mut choice = state.prepare;
    choice.offer("a.xlsx".to_string(), vec!["one".to_string(), "two".to_string()]);
    assert!(ui_sheets(&choice, "b.xlsx").items.is_empty());
    let page = ui_sheets(&choice, "a.xlsx");
    assert!(matches!(&page.items[0], Item::Label(t) if t == "листов в книге: 2"));
    match &page.items[1] {
        Item::Choice { field: Field::Sheet, label, options, chosen } => {
            assert_eq!((label.as_str(), *chosen), ("(выберите лист)", 2));
            assert_eq!(options, &vec!["one", "two"]);
        }
        other => panic!("{other:?}"),
    }
    choice.pick("a.xlsx", 0);
    match &ui_sheets(&choice, "a.xlsx").items[1] {
        Item::Choice { label, chosen, .. } => assert_eq!((label.as_str(), *chosen), ("one", 0)),
        other => panic!("{other:?}"),
    }
}

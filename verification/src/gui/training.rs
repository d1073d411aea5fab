//! The training page: the configuration by hand or by search, the second
//! step, and what a training came to.

use crate::config::ModelKind;
use crate::epoch_sweep::{label_of, source_label, EvalSource};
use crate::gui::forms::SearchBudget;
use crate::gui::page::{
    asks_for, button_for, draws, field_of, offers, three, warns, withholds, Action, Chart, Field,
    ItemView, Page,
};
use crate::gui::pages::{
    add_objective, button_item, fraction_item, kind_items, kinds_page, number_item, objective_item,
    rank_label, rank_text, words, NEARLY_ONE,
};
use crate::gui::session::{Curves, Session, TrainingMode};
use crate::gui::shown::{pruned_label, pruned_text, ShownMetrics, ShownProfile};
use crate::gui::train::FinalizeStep;
use crate::interpret::{overridden, resolve, resolved, v1_profile, InterpretOverrides};
use crate::lifecycle::{refusal_text, RunStamp, TestDisclosure};
use crate::single::{zero, Single, ONE};
use crate::sweep::{SweepObjective, SweepRow};
use crate::text::{copy_texts, decimal, decimal_text, owned, texts};
use vstd::prelude::*;
use vstd::string::StringExecFns;

verus! {

impl TrainingMode {
    pub open spec fn numbered(self) -> usize {
        match self {
            TrainingMode::Single => 0,
            TrainingMode::Auto(_) => 1,
            TrainingMode::Custom => 2,
        }
    }

    pub fn number(self) -> (n: usize)
        ensures
            n == self.numbered(),
    {
        match self {
            TrainingMode::Single => 0,
            TrainingMode::Auto(_) => 1,
            TrainingMode::Custom => 2,
        }
    }

    pub open spec fn name(self) -> Seq<char> {
        match self {
            TrainingMode::Single => "Одна конфигурация"@,
            TrainingMode::Auto(_) => "Авто"@,
            TrainingMode::Custom => "Своя сетка"@,
        }
    }

    pub fn label(self) -> (text: &'static str)
        ensures
            text@ == self.name(),
    {
        match self {
            TrainingMode::Single => "Одна конфигурация",
            TrainingMode::Auto(_) => "Авто",
            TrainingMode::Custom => "Своя сетка",
        }
    }

    /// The mode of a number. A ready-made grid keeps its budget if it was
    /// chosen already.
    pub fn switch_to(self, n: usize, budget: SearchBudget) -> (mode: TrainingMode)
        ensures
            mode == if n == 0 {
                TrainingMode::Single
            } else if n == 1 {
                if self is Auto {
                    self
                } else {
                    TrainingMode::Auto(budget)
                }
            } else {
                TrainingMode::Custom
            },
    {
        if n == 0 {
            TrainingMode::Single
        } else if n == 1 {
            match self {
                TrainingMode::Auto(_) => self,
                _ => TrainingMode::Auto(budget),
            }
        } else {
            TrainingMode::Custom
        }
    }
}

/// The head of the page: without data it says where to open them.
pub open spec fn head_items(has_data: bool, mode: TrainingMode) -> Seq<ItemView> {
    let p = seq![ItemView::Heading("Обучение"@)];
    let p = if has_data {
        p
    } else {
        p.push(ItemView::Warning("Сначала откройте набор в разделе «Данные»."@))
    };
    p.push(ItemView::Separator).push(
        ItemView::Choice {
            field: Field::Mode,
            label: "Режим:"@,
            options: seq!["Одна конфигурация"@, "Авто"@, "Своя сетка"@],
            chosen: mode.numbered(),
        },
    )
}

fn head_page(has_data: bool, mode: TrainingMode) -> (page: Page)
    ensures
        page@ == head_items(has_data, mode),
{
    let mut page: Page = Page::new();
    page.heading("Обучение");
    assert(page@ =~= seq![ItemView::Heading("Обучение"@)]);
    if !has_data {
        page.warning("Сначала откройте набор в разделе «Данные».");
    }
    page.separator();
    page.choice(
        Field::Mode,
        "Режим:",
        three("Одна конфигурация", "Авто", "Своя сетка"),
        mode.number(),
    );
    page
}

/// The training page: its head, the configuration, the results of a search,
/// the second step, and what a training came to.
pub fn ui_train(
    session: &Session,
    configuration: Page,
    results: Page,
    finalize: Page,
    output: Page,
) -> (page: Page)
    ensures
        page@ == head_items(session.dataset is Some, session.mode) + configuration@ + results@
            + finalize@ + output@,
{
    let mut page: Page = head_page(session.dataset.is_some(), session.mode);
    page.append(configuration);
    page.append(results);
    page.append(finalize);
    page.append(output);
    page
}

/// The settings of the interpretation pipeline. Only a KAN has one. `profile`
/// is the pipeline in words, where the settings make one up.
pub open spec fn interpret_items(
    kind: ModelKind,
    enabled: bool,
    overrides: InterpretOverrides,
    profile: Seq<char>,
) -> Seq<ItemView> {
    if kind != ModelKind::Kan {
        Seq::empty()
    } else {
        let p = seq![
            ItemView::Check { field: Field::Interpret, label: "Интерпретируемая KAN, профиль v1"@ },
        ];
        if !enabled {
            p
        } else {
            let p = match resolved(true, overrides) {
                Ok(_) => p.push(ItemView::Label("Конвейер "@ + profile)),
                Err(e) => p.push(ItemView::Problem(e.text())),
            };
            let p = p + seq![
                ItemView::Label("Дополнительно"@),
                fraction_item(Field::InterpretL1, "L1 "@, 0, ONE),
                ItemView::Check { field: Field::InterpretPrune, label: "прунинг"@ },
            ];
            let p = if overridden(v1_profile(), overrides).prune is Some {
                p.push(fraction_item(Field::InterpretThreshold, "порог "@, 0, NEARLY_ONE)).push(
                    number_item(Field::InterpretFinetune, "fine-tune "@, 1, 1000),
                )
            } else {
                p
            };
            p.push(
                ItemView::Check { field: Field::InterpretCompact, label: "структурное сжатие"@ },
            ).push(button_item(Action::ResetProfile, "Сбросить к профилю"@, true))
        }
    }
}

pub fn ui_interpret_controls(
    kind: ModelKind,
    enabled: bool,
    overrides: &InterpretOverrides,
    profile: &str,
) -> (page: Page)
    ensures
        page@ == interpret_items(kind, enabled, *overrides, profile@),
{
    let mut page: Page = Page::new();
    if kind != ModelKind::Kan {
        return page;
    }
    page.check(Field::Interpret, "Интерпретируемая KAN, профиль v1");
    assert(page@ =~= seq![
        ItemView::Check { field: Field::Interpret, label: "Интерпретируемая KAN, профиль v1"@ },
    ]);
    if !enabled {
        return page;
    }
    match resolve(true, overrides) {
        Ok(_) => {
            let mut text: String = owned("Конвейер ");
            text.append(profile);
            page.label(text.as_str());
        },
        Err(e) => {
            page.problem(e.message().as_str());
        },
    }
    let mut more: Page = Page::new();
    more.label("Дополнительно");
    more.fraction(Field::InterpretL1, "L1 ", 0, ONE);
    more.check(Field::InterpretPrune, "прунинг");
    assert(more@ =~= seq![
        ItemView::Label("Дополнительно"@),
        fraction_item(Field::InterpretL1, "L1 "@, 0, ONE),
        ItemView::Check { field: Field::InterpretPrune, label: "прунинг"@ },
    ]);
    page.append(more);
    if !overrides.without_prune {
        page.fraction(Field::InterpretThreshold, "порог ", 0, NEARLY_ONE);
        page.number(Field::InterpretFinetune, "fine-tune ", 1, 1000);
    }
    page.check(Field::InterpretCompact, "структурное сжатие");
    page.button(Action::ResetProfile, "Сбросить к профилю", true);
    page
}

/// What a search would take, or why it cannot be made up.
pub open spec fn cost_item(cost: Result<Seq<char>, Seq<char>>) -> ItemView {
    match cost {
        Ok(text) => ItemView::Label("Оценка: "@ + text),
        Err(e) => ItemView::Problem(e),
    }
}

pub open spec fn spoken(cost: Result<String, String>) -> Result<Seq<char>, Seq<char>> {
    match cost {
        Ok(t) => Ok(t@),
        Err(e) => Err(e@),
    }
}

/// What both ways to search have in common: the architectures, the
/// objective, the price and the start.
pub open spec fn common_items(
    objective: usize,
    cost: Result<Seq<char>, Seq<char>>,
    busy: bool,
    searching: bool,
) -> Seq<ItemView> {
    kind_items() + seq![
        objective_item("цель:"@, objective),
        cost_item(cost),
        button_item(Action::Run, "Искать"@, !busy),
        button_item(Action::Cancel, "Отмена"@, searching),
    ]
}

pub fn ui_search_common(
    objective: usize,
    cost: &Result<String, String>,
    busy: bool,
    searching: bool,
) -> (page: Page)
    ensures
        page@ == common_items(objective, spoken(*cost), busy, searching),
{
    let mut page: Page = kinds_page();
    let mut rest: Page = Page::new();
    add_objective(&mut rest, "цель:", objective);
    match cost {
        Ok(text) => {
            let mut label: String = owned("Оценка: ");
            label.append(text.as_str());
            rest.label(label.as_str());
        },
        Err(e) => {
            rest.problem(e.as_str());
        },
    }
    rest.button(Action::Run, "Искать", !busy);
    rest.button(Action::Cancel, "Отмена", searching);
    assert(rest@ =~= seq![
        objective_item("цель:"@, objective),
        cost_item(spoken(*cost)),
        button_item(Action::Run, "Искать"@, !busy),
        button_item(Action::Cancel, "Отмена"@, searching),
    ]);
    page.append(rest);
    page
}

pub open spec fn budget_number(budget: SearchBudget) -> usize {
    match budget {
        SearchBudget::Quick => 0,
        SearchBudget::Balanced => 1,
        SearchBudget::Thorough => 2,
    }
}

/// A ready-made grid: the budgets by their names, and what the chosen one
/// stands for.
pub open spec fn auto_items(budget: SearchBudget, names: Seq<Seq<char>>, hint: Seq<char>) -> Seq<
    ItemView,
> {
    seq![
        ItemView::Choice {
            field: Field::Budget,
            label: "Бюджет:"@,
            options: names,
            chosen: budget_number(budget),
        },
        ItemView::Label(names[budget_number(budget) as int] + ": "@ + hint),
    ]
}

pub fn ui_auto_search(budget: SearchBudget, names: &Vec<String>, hint: &str, common: Page) -> (page:
    Page)
    requires
        names@.len() == 3,
    ensures
        page@ == auto_items(budget, texts(names@), hint@) + common@,
{
    let chosen: usize = match budget {
        SearchBudget::Quick => 0,
        SearchBudget::Balanced => 1,
        SearchBudget::Thorough => 2,
    };
    let mut page: Page = Page::new();
    page.choice(Field::Budget, "Бюджет:", copy_texts(names), chosen);
    let mut text: String = owned(names[chosen].as_str());
    text.append(": ");
    text.append(hint);
    page.label(text.as_str());
    assert(page@ =~= auto_items(budget, texts(names@), hint@));
    page.append(common);
    page
}

/// A grid by hand.
pub open spec fn custom_items() -> Seq<ItemView> {
    seq![
        ItemView::Entry { field: Field::Seeds, label: "seeds"@ },
        ItemView::Entry { field: Field::DModels, label: "d-models"@ },
        ItemView::Entry { field: Field::LayersList, label: "layers"@ },
        ItemView::Entry { field: Field::DFfs, label: "d-ffs"@ },
        ItemView::Entry { field: Field::Lrs, label: "lrs"@ },
        ItemView::Entry { field: Field::ValueEncoders, label: "value-encoders"@ },
        ItemView::Entry { field: Field::FourierScales, label: "fourier-scales"@ },
        ItemView::Entry { field: Field::Schedulers, label: "schedulers"@ },
        number_item(Field::Epochs, "epochs"@, 1, 100000),
        number_item(Field::Batch, "batch"@, 1, 8192),
    ]
}

pub fn ui_custom_search(common: Page) -> (page: Page)
    ensures
        page@ == custom_items() + common@,
{
    let mut page: Page = Page::new();
    page.entry(Field::Seeds, "seeds");
    page.entry(Field::DModels, "d-models");
    page.entry(Field::LayersList, "layers");
    page.entry(Field::DFfs, "d-ffs");
    page.entry(Field::Lrs, "lrs");
    page.entry(Field::ValueEncoders, "value-encoders");
    page.entry(Field::FourierScales, "fourier-scales");
    page.entry(Field::Schedulers, "schedulers");
    page.number(Field::Epochs, "epochs", 1, 100000);
    page.number(Field::Batch, "batch", 1, 8192);
    assert(page@ =~= custom_items());
    page.append(common);
    page
}

/// A result of a search: it can be chosen while no search runs.
pub open spec fn search_row(i: nat, row: SweepRow, shown: Seq<Seq<char>>, searching: bool) -> Seq<
    ItemView,
> {
    seq![
        button_item(Action::ChooseRow(i as usize), rank_text(i), !searching),
        ItemView::Row(seq![rank_text(i)] + shown + seq![row.label@]),
    ]
}

/// The results of a search, each as a button and a row, up to the `n`-th.
pub open spec fn search_rows(rows: Seq<SweepRow>, shown: Seq<Vec<String>>, searching: bool, n: int) -> Seq<
    ItemView,
>
    decreases n,
{
    if n <= 0 {
        Seq::empty()
    } else {
        search_rows(rows, shown, searching, n - 1) + search_row(
            (n - 1) as nat,
            rows[n - 1],
            texts(shown[n - 1]@),
            searching,
        )
    }
}

fn rows_page(rows: &Vec<SweepRow>, shown: &Vec<Vec<String>>, searching: bool) -> (page: Page)
    requires
        rows@.len() == shown@.len(),
    ensures
        page@ == search_rows(rows@, shown@, searching, rows@.len() as int),
{
    let mut page: Page = Page::new();
    let mut i: usize = 0;
    while i < rows.len()
        invariant
            i <= rows@.len(),
            rows@.len() == shown@.len(),
            page@ == search_rows(rows@, shown@, searching, i as int),
        decreases rows.len() - i,
    {
        let mut line: Page = Page::new();
        let number: String = rank_label(i);
        line.button(Action::ChooseRow(i), number.as_str(), !searching);
        let mut cells: Vec<String> = Vec::new();
        cells.push(number);
        let mut values: Vec<String> = copy_texts(&shown[i]);
        cells.append(&mut values);
        cells.push(owned(rows[i].label.as_str()));
        assert(texts(cells@) =~= seq![rank_text(i as nat)] + texts(shown@[i as int]@) + seq![
            rows@[i as int].label@,
        ]);
        line.row(cells);
        assert(line@ =~= search_row(
            i as nat,
            rows@[i as int],
            texts(shown@[i as int]@),
            searching,
        ));
        page.append(line);
        i += 1;
    }
    page
}

/// What a search came to and how far it is.
pub open spec fn results_head(session: Session) -> Seq<ItemView> {
    let p = seq![ItemView::Separator];
    let p = match session.search.total {
        Some((configs, runs)) => p.push(
            ItemView::Label(
                "Конфигураций: "@ + decimal(configs as nat) + "; прогонов: "@ + decimal(runs as nat)
                    + "; готово: "@ + decimal(session.search.rows@.len()),
            ),
        ),
        None => p,
    };
    let p = if session.search.cancelled {
        p.push(ItemView::Warning("Поиск отменён; показаны завершённые конфигурации."@))
    } else {
        p
    };
    let p = if session.search_current() {
        p
    } else {
        p.push(
            ItemView::Warning(
                "Данные или разбиение изменились: результат относится к другому набору, финальное обучение по нему запрещено."@,
            ),
        )
    };
    p.push(
        ItemView::Label(
            "Ранжирование: "@ + SweepObjective::numbered(session.search.form.objective).name()
                + "; метрики "@ + label_of(session.search.rows@[0].source),
        ),
    ).push(
        ItemView::Row(
            seq![
                "#"@,
                "score"@,
                "R²"@,
                "worst y"@,
                "mean y"@,
                "aggr nRMSE"@,
                "rel"@,
                "конфигурация"@,
            ],
        ),
    )
}

fn results_head_page(session: &Session) -> (page: Page)
    requires
        session.search.rows@.len() > 0,
    ensures
        page@ == results_head(*session),
{
    let mut page: Page = Page::new();
    page.separator();
    assert(page@ =~= seq![ItemView::Separator]);
    if let Some((configs, runs)) = session.search.total {
        let mut text: String = owned("Конфигураций: ");
        text.append(decimal_text(configs as u64).as_str());
        text.append("; прогонов: ");
        text.append(decimal_text(runs as u64).as_str());
        text.append("; готово: ");
        text.append(decimal_text(session.search.rows.len() as u64).as_str());
        page.label(text.as_str());
    }
    if session.search.cancelled {
        page.warning("Поиск отменён; показаны завершённые конфигурации.");
    }
    if !session.search_matches_dataset() {
        page.warning(
            "Данные или разбиение изменились: результат относится к другому набору, финальное обучение по нему запрещено.",
        );
    }
    let mut text: String = owned("Ранжирование: ");
    text.append(session.search.form.objective().label());
    text.append("; метрики ");
    text.append(source_label(session.search.rows[0].source).as_str());
    page.label(text.as_str());
    let head: Vec<String> = words(
        &["#", "score", "R²", "worst y", "mean y", "aggr nRMSE", "rel", "конфигурация"],
    );
    assert(texts(head@) =~= seq![
        "#"@,
        "score"@,
        "R²"@,
        "worst y"@,
        "mean y"@,
        "aggr nRMSE"@,
        "rel"@,
        "конфигурация"@,
    ]);
    page.row(head);
    page
}

/// What can be done with the chosen result: it can be checked while nothing
/// runs and the search is of the active data, and taken over by hand while
/// nothing runs.
pub open spec fn chosen_items(session: Session, interpret: Seq<ItemView>) -> Seq<ItemView> {
    let chosen = session.chosen_row();
    let p = if chosen is Some && session.search.rows@[chosen->0].choice.kind == ModelKind::Kan {
        seq![
            ItemView::Separator,
            ItemView::Label("Ранжирование выполнено до конвейера интерпретации."@),
        ] + interpret
    } else {
        Seq::empty()
    };
    p + seq![
        button_item(
            Action::CheckChosen,
            "Проверить выбранную"@,
            chosen is Some && !session.is_busy() && session.search_current(),
        ),
        button_item(Action::ToManual, "В ручной режим"@, chosen is Some && !session.is_busy()),
    ]
}

fn chosen_page(session: &Session, interpret: Page) -> (page: Page)
    ensures
        page@ == chosen_items(*session, interpret@),
{
    let mut page: Page = Page::new();
    let chosen: Option<usize> = session.chosen();
    let busy: bool = session.busy();
    if let Some(i) = chosen {
        if session.search.rows[i].choice.kind == ModelKind::Kan {
            page.separator();
            page.label("Ранжирование выполнено до конвейера интерпретации.");
            assert(page@ =~= seq![
                ItemView::Separator,
                ItemView::Label("Ранжирование выполнено до конвейера интерпретации."@),
            ]);
            page.append(interpret);
        }
    }
    let mut buttons: Page = Page::new();
    buttons.button(
        Action::CheckChosen,
        "Проверить выбранную",
        chosen.is_some() && !busy && session.search_matches_dataset(),
    );
    buttons.button(Action::ToManual, "В ручной режим", chosen.is_some() && !busy);
    assert(buttons@ =~= seq![
        button_item(
            Action::CheckChosen,
            "Проверить выбранную"@,
            session.chosen_row() is Some && !session.is_busy() && session.search_current(),
        ),
        button_item(
            Action::ToManual,
            "В ручной режим"@,
            session.chosen_row() is Some && !session.is_busy(),
        ),
    ]);
    page.append(buttons);
    page
}

/// The results of a search; nothing where there are none.
pub open spec fn search_items(session: Session, interpret: Seq<ItemView>, shown: Seq<Vec<String>>) -> Seq<
    ItemView,
> {
    if session.search.rows@.len() == 0 {
        Seq::empty()
    } else {
        results_head(session) + search_rows(
            session.search.rows@,
            shown,
            session.search.running,
            session.search.rows@.len() as int,
        ) + chosen_items(session, interpret)
    }
}

/// `interpret` holds the settings of the pipeline; `shown` the printed values
/// of each result.
pub fn ui_search_results(session: &Session, interpret: Page, shown: &Vec<Vec<String>>) -> (page: Page)
    requires
        session.search.rows@.len() == shown@.len(),
    ensures
        page@ == search_items(*session, interpret@, shown@),
{
    if session.search.rows.len() == 0 {
        return Page::new();
    }
    let mut page: Page = results_head_page(session);
    page.append(rows_page(&session.search.rows, shown, session.search.running));
    page.append(chosen_page(session, interpret));
    page
}

/// The second step of a training. Where it is closed, it says why.
pub open spec fn finalize_items(step: FinalizeStep) -> Seq<ItemView> {
    let p = seq![ItemView::Separator];
    match step {
        FinalizeStep::Hidden => p,
        FinalizeStep::Measured { test_rows } => p.push(
            ItemView::Label(
                "Этот кандидат уже обучен финально: test открыт ("@ + decimal(test_rows as nat)
                    + " строк), результат ниже."@,
            ),
        ),
        FinalizeStep::Open { enabled } => p.push(
            button_item(Action::Finalize, "Зафиксировать и обучить финально"@, enabled),
        ),
        FinalizeStep::Refused(refusal) => p.push(
            button_item(Action::Finalize, "Зафиксировать и обучить финально"@, false),
        ).push(ItemView::Warning(refusal_text(refusal))),
    }
}

pub fn ui_finalize(step: FinalizeStep) -> (page: Page)
    ensures
        page@ == finalize_items(step),
{
    let mut page: Page = Page::new();
    page.separator();
    assert(page@ =~= seq![ItemView::Separator]);
    match step {
        FinalizeStep::Hidden => {},
        FinalizeStep::Measured { test_rows } => {
            let mut text: String = owned("Этот кандидат уже обучен финально: test открыт (");
            text.append(decimal_text(test_rows as u64).as_str());
            text.append(" строк), результат ниже.");
            page.label(text.as_str());
        },
        FinalizeStep::Open { enabled } => {
            page.button(Action::Finalize, "Зафиксировать и обучить финально", enabled);
        },
        FinalizeStep::Refused(refusal) => {
            page.button(Action::Finalize, "Зафиксировать и обучить финально", false);
            page.warning(refusal.message().as_str());
        },
    }
    page
}

/// The printed numbers of the last check and of the last measurement, and
/// what is read off the curves.
#[derive(Debug)]
pub struct ShownOutput {
    pub check: ShownMetrics,
    pub spread: String,
    pub measured: ShownMetrics,
    /// The recommended number of epochs and why.
    pub recommendation: Option<(usize, String)>,
    /// The pipeline of the checked run.
    pub profile: ShownProfile,
}

pub open spec fn curve_name(folds: usize, mean: Seq<char>, alone: Seq<char>) -> Seq<char> {
    if folds > 1 {
        mean + decimal(folds as nat) + " folds"@
    } else {
        alone
    }
}

fn curve_label(folds: usize, mean: &str, alone: &str) -> (name: String)
    ensures
        name@ == curve_name(folds, mean@, alone@),
{
    if folds > 1 {
        let mut name: String = owned(mean);
        name.append(decimal_text(folds as u64).as_str());
        name.append(" folds");
        name
    } else {
        owned(alone)
    }
}

/// The curves; their names say whether they are means over folds.
pub open spec fn curve_items(curves: Curves, recommendation: Option<(usize, String)>) -> Seq<ItemView> {
    let p = match curves.parameter_count {
        Some(n) => seq![ItemView::Label("Параметров: "@ + decimal(n as nat))],
        None => Seq::empty(),
    };
    let p = if curves.loss@.len() > 0 {
        p.push(
            ItemView::Line {
                chart: Chart::Loss,
                name: curve_name(
                    curves.folds,
                    "train loss, среднее по "@,
                    "development train loss"@,
                ),
            },
        )
    } else {
        p
    };
    let p = if curves.final_loss@.len() > 0 {
        p.push(ItemView::Line { chart: Chart::FinalLoss, name: "final train+validation loss"@ })
    } else {
        p
    };
    if curves.val@.len() > 0 {
        let p = p.push(
            ItemView::Line {
                chart: Chart::Validation,
                name: curve_name(curves.folds, "validation R², среднее по "@, "validation R²"@),
            },
        );
        match recommendation {
            Some((epochs, why)) => p.push(
                ItemView::Label(
                    "Рекомендованная остановка: "@ + decimal(epochs as nat) + " эпох ("@ + why@
                        + ")"@,
                ),
            ),
            None => p,
        }
    } else {
        p
    }
}

fn curves_page(curves: &Curves, recommendation: &Option<(usize, String)>) -> (page: Page)
    ensures
        page@ == curve_items(*curves, *recommendation),
{
    let mut page: Page = Page::new();
    if let Some(n) = curves.parameter_count {
        let mut text: String = owned("Параметров: ");
        text.append(decimal_text(n as u64).as_str());
        page.label(text.as_str());
    }
    if curves.loss.len() > 0 {
        page.line(
            Chart::Loss,
            curve_label(curves.folds, "train loss, среднее по ", "development train loss").as_str(),
        );
    }
    if curves.final_loss.len() > 0 {
        page.line(Chart::FinalLoss, "final train+validation loss");
    }
    if curves.val.len() > 0 {
        page.line(
            Chart::Validation,
            curve_label(curves.folds, "validation R², среднее по ", "validation R²").as_str(),
        );
        if let Some((epochs, why)) = recommendation {
            let mut text: String = owned("Рекомендованная остановка: ");
            text.append(decimal_text(*epochs as u64).as_str());
            text.append(" эпох (");
            text.append(why.as_str());
            text.append(")");
            page.label(text.as_str());
        }
    }
    assert(page@ =~= curve_items(*curves, *recommendation));
    page
}

/// By what a check is measured.
pub open spec fn check_source(source: EvalSource) -> Seq<char> {
    match source {
        EvalSource::Cv { k } => "cv-"@ + decimal(k as nat),
        _ => "validation"@,
    }
}

/// The last check: it belongs to a candidate, and if that is another one
/// than the form means now, it is said. What is told of the pipeline is of the
/// checked run itself.
pub open spec fn check_items(session: Session, meant: Option<RunStamp>, shown: ShownOutput) -> Seq<
    ItemView,
> {
    match session.lifecycle.last_check {
        None => Seq::empty(),
        Some(run) => {
            let p = seq![
                ItemView::Separator,
                ItemView::Label(
                    check_source(run.stamp.split.source()) + ": "@ + shown.check.line(),
                ),
            ];
            let p = if zero().less(run.eval.r2_std_folds) {
                p.push(ItemView::Label("Разброс R² между folds: ±"@ + shown.spread@))
            } else {
                p
            };
            let p = if meant is Some && meant->0.equals(run.stamp) {
                p
            } else {
                p.push(
                    ItemView::Warning(
                        "Проверка относится к другому кандидату: форма изменилась после неё."@,
                    ),
                )
            };
            match run.interpret {
                None => p,
                Some(reports) => {
                    let p = match reports.profile {
                        Some(profile) => p.push(ItemView::Label(shown.profile.line(profile))),
                        None => p,
                    };
                    match reports.development {
                        Some(d) => p.push(ItemView::Label(pruned_text(d.active_edges))),
                        None => p,
                    }
                },
            }
        },
    }
}

fn check_page(session: &Session, meant: &Option<RunStamp>, shown: &ShownOutput) -> (page: Page)
    ensures
        page@ == check_items(*session, *meant, *shown),
{
    let mut page: Page = Page::new();
    if let Some(run) = &session.lifecycle.last_check {
        page.separator();
        let mut text: String = match run.stamp.split.eval_source() {
            EvalSource::Cv { k } => {
                let mut text: String = owned("cv-");
                text.append(decimal_text(k as u64).as_str());
                text
            },
            _ => owned("validation"),
        };
        text.append(": ");
        text.append(shown.check.text().as_str());
        page.label(text.as_str());
        let nought: Single = Single { bits: 0 };
        if nought.is_less(run.eval.r2_std_folds) {
            let mut text: String = owned("Разброс R² между folds: ±");
            text.append(shown.spread.as_str());
            page.label(text.as_str());
        }
        let current: bool = match meant {
            Some(stamp) => stamp.same_as(&run.stamp),
            None => false,
        };
        if !current {
            page.warning("Проверка относится к другому кандидату: форма изменилась после неё.");
        }
        if let Some(reports) = &run.interpret {
            if let Some(profile) = &reports.profile {
                page.label(shown.profile.text(profile).as_str());
            }
            if let Some(d) = &reports.development {
                page.label(pruned_label(d.active_edges).as_str());
            }
        }
    }
    assert(page@ =~= check_items(*session, *meant, *shown));
    page
}

/// The last measurement on test rows. It outlives a change of the data, but
/// is then not shown as theirs.
pub open spec fn measured_items(session: Session, shown: ShownOutput) -> Seq<ItemView> {
    if session.lifecycle.disclosures@.len() == 0 {
        Seq::empty()
    } else {
        let last = session.lifecycle.disclosures@.last();
        let historical = !(session.dataset is Some && session.dataset->0.fingerprint.0@
            == last.stamp.dataset.0@);
        let p = seq![
            ItemView::Separator,
            ItemView::Label(
                if historical {
                    "test прежнего набора данных"@
                } else {
                    "test"@
                } + " ("@ + decimal(last.eval.test_rows as nat) + " строк, единственный замер): "@
                    + shown.measured.line(),
            ),
        ];
        if historical {
            p.push(
                ItemView::Warning(
                    "Этот замер относится к прежнему набору данных и к активному отношения не имеет."@,
                ),
            )
        } else {
            p
        }
    }
}

fn measured_page(session: &Session, shown: &ShownOutput) -> (page: Page)
    ensures
        page@ == measured_items(*session, *shown),
{
    let mut page: Page = Page::new();
    let n: usize = session.lifecycle.disclosures.len();
    if n > 0 {
        let last: &TestDisclosure = &session.lifecycle.disclosures[n - 1];
        let historical: bool = match &session.dataset {
            Some(active) => !active.fingerprint.same_as(&last.stamp.dataset),
            None => true,
        };
        page.separator();
        let mut text: String = if historical {
            owned("test прежнего набора данных")
        } else {
            owned("test")
        };
        text.append(" (");
        text.append(decimal_text(last.eval.test_rows as u64).as_str());
        text.append(" строк, единственный замер): ");
        text.append(shown.measured.text().as_str());
        page.label(text.as_str());
        if historical {
            page.warning(
                "Этот замер относится к прежнему набору данных и к активному отношения не имеет.",
            );
        }
    }
    assert(page@ =~= measured_items(*session, *shown));
    page
}

pub open spec fn training_output(session: Session, meant: Option<RunStamp>, shown: ShownOutput) -> Seq<
    ItemView,
> {
    let p = curve_items(session.curves, shown.recommendation) + check_items(session, meant, shown)
        + measured_items(session, shown);
    match session.model_info {
        Some(info) => match info.warning() {
            Some(w) => p.push(ItemView::Warning(w)),
            None => p,
        },
        None => p,
    }
}

/// What a training came to: the curves, the check, the one measurement, and
/// the remark on the active model. `meant` is the run that the page means now.
pub fn ui_training_output(session: &Session, meant: &Option<RunStamp>, shown: &ShownOutput) -> (page:
    Page)
    ensures
        page@ == training_output(*session, *meant, *shown),
{
    let mut page: Page = curves_page(&session.curves, &shown.recommendation);
    page.append(check_page(session, meant, shown));
    page.append(measured_page(session, shown));
    if let Some(info) = &session.model_info {
        if let Some(w) = info.categorical_warning() {
            page.warning(w.as_str());
        }
    }
    page
}

/// A measurement on the test rows of other data is never shown as one of the
/// active data.
pub proof fn law_a_foreign_measurement_is_marked(session: Session, shown: ShownOutput)
    requires
        session.lifecycle.disclosures@.len() > 0,
        session.dataset matches Some(active) ==> active.fingerprint.0@
            != session.lifecycle.disclosures@.last().stamp.dataset.0@,
    ensures
        measured_items(session, shown).last() == ItemView::Warning(
            "Этот замер относится к прежнему набору данных и к активному отношения не имеет."@,
        ),
{
}

/// A result of a search cannot be checked while anything runs, nor once the
/// active data are others than those of the search: the button is there, but
/// closed.
pub proof fn law_stale_results_cannot_be_checked(session: Session, interpret: Seq<ItemView>)
    requires
        session.is_busy() || !session.search_current(),
    ensures
        chosen_items(session, interpret).len() >= 2,
        chosen_items(session, interpret)[chosen_items(session, interpret).len() - 2]
            == button_item(Action::CheckChosen, "Проверить выбранную"@, false),
{
}

/// The chosen result can be checked exactly while there is one, nothing runs
/// and the search is of the active data; it can be taken over by hand while
/// there is one and nothing runs.
pub proof fn law_chosen_results_are_offered_while_current(session: Session)
    ensures
        offers(
            chosen_items(session, Seq::empty()),
            Action::CheckChosen,
            session.chosen_row() is Some && !session.is_busy() && session.search_current(),
        ),
        offers(
            chosen_items(session, Seq::empty()),
            Action::ToManual,
            session.chosen_row() is Some && !session.is_busy(),
        ),
{
    let p = chosen_items(session, Seq::empty());
    let n = p.len() as int;
    assert(button_for(p[n - 2], Action::CheckChosen));
    assert(button_for(p[n - 1], Action::ToManual));
}

/// The final training can be started exactly where its step is open and
/// enabled; where the run was measured already there is no such button, and a
/// refusal is said.
pub proof fn law_the_final_training_starts_from_an_open_step(step: FinalizeStep)
    ensures
        match step {
            FinalizeStep::Open { enabled } => offers(
                finalize_items(step),
                Action::Finalize,
                enabled,
            ),
            FinalizeStep::Refused(refusal) => offers(
                finalize_items(step),
                Action::Finalize,
                false,
            ) && warns(finalize_items(step), refusal_text(refusal)),
            _ => withholds(finalize_items(step), Action::Finalize),
        },
{
    let p = finalize_items(step);
    match step {
        FinalizeStep::Open { enabled } => {
            assert(button_for(p[1], Action::Finalize));
        },
        FinalizeStep::Refused(refusal) => {
            assert(button_for(p[1], Action::Finalize));
            assert(p[2] == ItemView::Warning(refusal_text(refusal)));
        },
        _ => {},
    }
}

proof fn lemma_search_rows_len(
    rows: Seq<SweepRow>,
    shown: Seq<Vec<String>>,
    searching: bool,
    n: int,
)
    requires
        0 <= n,
    ensures
        search_rows(rows, shown, searching, n).len() == 2 * n,
    decreases n,
{
    if n > 0 {
        lemma_search_rows_len(rows, shown, searching, n - 1);
    }
}

proof fn lemma_search_rows(
    rows: Seq<SweepRow>,
    shown: Seq<Vec<String>>,
    searching: bool,
    n: int,
    i: int,
)
    requires
        0 <= i < n <= rows.len(),
    ensures
        search_rows(rows, shown, searching, n).len() == 2 * n,
        search_rows(rows, shown, searching, n)[2 * i] == button_item(
            Action::ChooseRow(i as usize),
            rank_text(i as nat),
            !searching,
        ),
        search_rows(rows, shown, searching, n)[2 * i + 1] == ItemView::Row(
            seq![rank_text(i as nat)] + texts(shown[i]@) + seq![rows[i].label@],
        ),
    decreases n,
{
    lemma_search_rows_len(rows, shown, searching, n - 1);
    let before = search_rows(rows, shown, searching, n - 1);
    let last = search_row((n - 1) as nat, rows[n - 1], texts(shown[n - 1]@), searching);
    assert(search_rows(rows, shown, searching, n) == before + last);
    if i < n - 1 {
        lemma_search_rows(rows, shown, searching, n - 1, i);
        assert((before + last)[2 * i] == before[2 * i]);
        assert((before + last)[2 * i + 1] == before[2 * i + 1]);
    } else {
        assert((before + last)[2 * i] == last[0]);
        assert((before + last)[2 * i + 1] == last[1]);
    }
}

/// Every result of a search has a row, in the order of the ranking, and can
/// be chosen while no search runs.
pub proof fn law_every_result_can_be_chosen(
    rows: Seq<SweepRow>,
    shown: Seq<Vec<String>>,
    searching: bool,
    i: int,
)
    requires
        rows.len() == shown.len(),
        0 <= i < rows.len(),
    ensures
        ({
            let items = search_rows(rows, shown, searching, rows.len() as int);
            &&& items.len() == 2 * rows.len()
            &&& items[2 * i] matches ItemView::Button { action, enabled, .. } && action
                == Action::ChooseRow(i as usize) && enabled == !searching
            &&& items[2 * i + 1] matches ItemView::Row(cells) && cells.last() == rows[i].label@
        }),
{
    lemma_search_rows(rows, shown, searching, rows.len() as int, i);
}

/// It is said of the results of a search that they are of other data exactly
/// where they are, and that the search was cancelled exactly where it was.
pub proof fn law_stale_results_are_marked(session: Session)
    ensures
        warns(
            results_head(session),
            "Данные или разбиение изменились: результат относится к другому набору, финальное обучение по нему запрещено."@,
        ) <==> !session.search_current(),
        warns(results_head(session), "Поиск отменён; показаны завершённые конфигурации."@)
            <==> session.search.cancelled,
{
    reveal_strlit(
        "Данные или разбиение изменились: результат относится к другому набору, финальное обучение по нему запрещено.",
    );
    reveal_strlit("Поиск отменён; показаны завершённые конфигурации.");
    let other_data =
        "Данные или разбиение изменились: результат относится к другому набору, финальное обучение по нему запрещено."@;
    let cancelled = "Поиск отменён; показаны завершённые конфигурации."@;
    assert(other_data[0] == 'Д' && cancelled[0] == 'П');
    assert(other_data != cancelled);
    let p = results_head(session);
    let a: int = if session.search.total is Some {
        2
    } else {
        1
    };
    let b: int = if session.search.cancelled {
        a + 1
    } else {
        a
    };
    if session.search.cancelled {
        assert(p[a] == ItemView::Warning("Поиск отменён; показаны завершённые конфигурации."@));
    }
    if !session.search_current() {
        assert(p[b] == ItemView::Warning(
            "Данные или разбиение изменились: результат относится к другому набору, финальное обучение по нему запрещено."@,
        ));
    }
}

/// Each curve is drawn exactly where it has a point.
pub proof fn law_curves_with_points_are_drawn(
    curves: Curves,
    recommendation: Option<(usize, String)>,
)
    ensures
        draws(curve_items(curves, recommendation), Chart::Loss) <==> curves.loss@.len() > 0,
        draws(curve_items(curves, recommendation), Chart::FinalLoss) <==> curves.final_loss@.len()
            > 0,
        draws(curve_items(curves, recommendation), Chart::Validation) <==> curves.val@.len() > 0,
{
    let p = curve_items(curves, recommendation);
    let a: int = if curves.parameter_count is Some {
        1
    } else {
        0
    };
    let b: int = if curves.loss@.len() > 0 {
        a + 1
    } else {
        a
    };
    let c: int = if curves.final_loss@.len() > 0 {
        b + 1
    } else {
        b
    };
    if curves.loss@.len() > 0 {
        assert(p[a] is Line);
    }
    if curves.final_loss@.len() > 0 {
        assert(p[b] is Line);
    }
    if curves.val@.len() > 0 {
        assert(p[c] is Line);
    }
}

/// A check is marked as another candidate's exactly where the run that is
/// meant now is not the checked one; without a check nothing is shown.
pub proof fn law_a_check_of_another_candidate_is_marked(
    session: Session,
    meant: Option<RunStamp>,
    shown: ShownOutput,
)
    ensures
        match session.lifecycle.last_check {
            None => check_items(session, meant, shown).len() == 0,
            Some(run) => warns(
                check_items(session, meant, shown),
                "Проверка относится к другому кандидату: форма изменилась после неё."@,
            ) <==> !(meant matches Some(stamp) && stamp.equals(run.stamp)),
        },
{
    let p = check_items(session, meant, shown);
    if let Some(run) = session.lifecycle.last_check {
        let a: int = if zero().less(run.eval.r2_std_folds) {
            3
        } else {
            2
        };
        if !(meant matches Some(stamp) && stamp.equals(run.stamp)) {
            assert(p[a] == ItemView::Warning(
                "Проверка относится к другому кандидату: форма изменилась после неё."@,
            ));
        }
    }
}

/// The measurement that is shown is the last one, and it is marked as one of
/// other data exactly where the active data are not those it was made on.
pub proof fn law_only_own_measurements_are_shown_as_own(session: Session, shown: ShownOutput)
    ensures
        measured_items(session, shown).len() == 0 <==> session.lifecycle.disclosures@.len() == 0,
        session.lifecycle.disclosures@.len() > 0 ==> (warns(
            measured_items(session, shown),
            "Этот замер относится к прежнему набору данных и к активному отношения не имеет."@,
        ) <==> !(session.dataset matches Some(active) && active.fingerprint.0@
            == session.lifecycle.disclosures@.last().stamp.dataset.0@)),
{
    let p = measured_items(session, shown);
    if session.lifecycle.disclosures@.len() > 0 && !(session.dataset matches Some(active)
        && active.fingerprint.0@ == session.lifecycle.disclosures@.last().stamp.dataset.0@) {
        assert(p[2] == ItemView::Warning(
            "Этот замер относится к прежнему набору данных и к активному отношения не имеет."@,
        ));
    }
}

/// Without data the page says where to open them, and the way to train that is
/// chosen is shown under its number.
pub proof fn law_the_head_asks_for_data(has_data: bool, mode: TrainingMode)
    ensures
        warns(head_items(has_data, mode), "Сначала откройте набор в разделе «Данные»."@)
            <==> !has_data,
        head_items(has_data, mode).last() matches ItemView::Choice { field, options, chosen, .. }
            && field == Field::Mode && options.len() == 3 && chosen == match mode {
            TrainingMode::Single => 0usize,
            TrainingMode::Auto(_) => 1,
            TrainingMode::Custom => 2,
        },
{
    let p = head_items(has_data, mode);
    if !has_data {
        assert(p[1] == ItemView::Warning("Сначала откройте набор в разделе «Данные»."@));
    } else {
        assert(p.len() == 3);
    }
}

/// A search can start while nothing runs and be cancelled while it runs.
pub proof fn law_a_search_starts_while_nothing_runs(
    objective: usize,
    cost: Result<Seq<char>, Seq<char>>,
    busy: bool,
    searching: bool,
)
    ensures
        offers(common_items(objective, cost, busy, searching), Action::Run, !busy),
        offers(common_items(objective, cost, busy, searching), Action::Cancel, searching),
        asks_for(common_items(objective, cost, busy, searching), Field::Objective),
{
    let p = common_items(objective, cost, busy, searching);
    let n = kind_items().len() as int;
    assert(field_of(p[n]) == Some(Field::Objective));
    assert(button_for(p[n + 2], Action::Run));
    assert(button_for(p[n + 3], Action::Cancel));
}

/// A ready-made grid is described under the name of the chosen budget.
pub proof fn law_the_chosen_budget_is_described(
    budget: SearchBudget,
    names: Seq<Seq<char>>,
    hint: Seq<char>,
)
    requires
        names.len() == 3,
    ensures
        ({
            let at: int = match budget {
                SearchBudget::Quick => 0,
                SearchBudget::Balanced => 1,
                SearchBudget::Thorough => 2,
            };
            &&& auto_items(budget, names, hint).len() == 2
            &&& auto_items(budget, names, hint)[0] matches ItemView::Choice { options, chosen, .. }
                && options == names && chosen == at
            &&& auto_items(budget, names, hint)[1] == ItemView::Label(names[at] + ": "@ + hint)
        }),
{
}

/// Every axis of a grid by hand can be set.
pub proof fn law_a_grid_by_hand_asks_for_every_axis()
    ensures
        asks_for(custom_items(), Field::Seeds),
        asks_for(custom_items(), Field::DModels),
        asks_for(custom_items(), Field::LayersList),
        asks_for(custom_items(), Field::DFfs),
        asks_for(custom_items(), Field::Lrs),
        asks_for(custom_items(), Field::ValueEncoders),
        asks_for(custom_items(), Field::FourierScales),
        asks_for(custom_items(), Field::Schedulers),
        asks_for(custom_items(), Field::Epochs),
        asks_for(custom_items(), Field::Batch),
{
    let p = custom_items();
    assert(field_of(p[0]) == Some(Field::Seeds));
    assert(field_of(p[1]) == Some(Field::DModels));
    assert(field_of(p[2]) == Some(Field::LayersList));
    assert(field_of(p[3]) == Some(Field::DFfs));
    assert(field_of(p[4]) == Some(Field::Lrs));
    assert(field_of(p[5]) == Some(Field::ValueEncoders));
    assert(field_of(p[6]) == Some(Field::FourierScales));
    assert(field_of(p[7]) == Some(Field::Schedulers));
    assert(field_of(p[8]) == Some(Field::Epochs));
    assert(field_of(p[9]) == Some(Field::Batch));
}

/// Only a KAN has an interpretation pipeline. Its settings are open once it is
/// switched on, those of the pruning only while there is one, and it can be
/// reset to the documented profile.
pub proof fn law_only_a_kan_has_a_pipeline(
    kind: ModelKind,
    enabled: bool,
    overrides: InterpretOverrides,
    profile: Seq<char>,
)
    ensures
        ({
            let items = interpret_items(kind, enabled, overrides, profile);
            let on = kind == ModelKind::Kan && enabled;
            &&& asks_for(items, Field::Interpret) <==> kind == ModelKind::Kan
            &&& asks_for(items, Field::InterpretL1) <==> on
            &&& asks_for(items, Field::InterpretPrune) <==> on
            &&& asks_for(items, Field::InterpretCompact) <==> on
            &&& asks_for(items, Field::InterpretThreshold) <==> on && !overrides.without_prune
            &&& asks_for(items, Field::InterpretFinetune) <==> on && !overrides.without_prune
            &&& on ==> offers(items, Action::ResetProfile, true)
            &&& !on ==> withholds(items, Action::ResetProfile)
            &&& on ==> items[1] == match resolved(true, overrides) {
                Ok(_) => ItemView::Label("Конвейер "@ + profile),
                Err(e) => ItemView::Problem(e.text()),
            }
        }),
{
    let p = interpret_items(kind, enabled, overrides, profile);
    if kind == ModelKind::Kan {
        assert(field_of(p[0]) == Some(Field::Interpret));
        if enabled {
            assert(field_of(p[1]) is None && field_of(p[2]) is None);
            assert(field_of(p[3]) == Some(Field::InterpretL1));
            assert(field_of(p[4]) == Some(Field::InterpretPrune));
            if overrides.without_prune {
                assert(p.len() == 7);
                assert(field_of(p[5]) == Some(Field::InterpretCompact));
                assert(button_for(p[6], Action::ResetProfile));
            } else {
                assert(p.len() == 9);
                assert(field_of(p[5]) == Some(Field::InterpretThreshold));
                assert(field_of(p[6]) == Some(Field::InterpretFinetune));
                assert(field_of(p[7]) == Some(Field::InterpretCompact));
                assert(button_for(p[8], Action::ResetProfile));
            }
        } else {
            assert(p.len() == 1);
        }
    }
}

/// Results are shown exactly where there are any, and what a training came to
/// ends with the warning on the active model where there is one.
pub proof fn law_nothing_is_shown_of_no_results(
    session: Session,
    interpret: Seq<ItemView>,
    shown: Seq<Vec<String>>,
    meant: Option<RunStamp>,
    output: ShownOutput,
)
    ensures
        session.search.rows@.len() == 0 ==> search_items(session, interpret, shown).len() == 0,
        session.model_info matches Some(info) ==> (info.warning() matches Some(w) ==> warns(
            training_output(session, meant, output),
            w,
        )),
{
    let p = training_output(session, meant, output);
    if session.model_info is Some && session.model_info->0.warning() is Some {
        assert(p[p.len() - 1] == ItemView::Warning(session.model_info->0.warning()->0));
    }
}

} // verus!

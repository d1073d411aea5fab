//! The page of predictions, and the frame that stands around every page.

use crate::data::OutOfRange;
use crate::gui::messages::{kind_name, model_kind_label, ModelOrigin};
use crate::gui::page::{
    button_for, field_of, offers, warns, withholds, Action, Field, ItemView, Page,
};
use crate::gui::pages::{button_item, fraction_item};
use crate::gui::session::{ModelInfo, PredictState, Session};
use crate::lifecycle::{CheckedRun, RunStamp, TestDisclosure};
use crate::schema::{Column, ColumnType, ColumnView};
use crate::single::Single;
use crate::text::{copy_texts, decimal, decimal_text, owned, texts};
use vstd::prelude::*;
use vstd::string::StringExecFns;

verus! {

/// The single-precision values below and above all others.
pub const LOWEST: u32 = 0xff80_0000;

pub const HIGHEST: u32 = 0x7f80_0000;

/// The printed numbers of an input out of the range that the model was trained
/// on.
#[derive(Debug)]
pub struct ShownOutside {
    pub value: String,
    pub min: String,
    pub max: String,
}

/// What the page of predictions shows besides the model.
#[derive(Debug)]
pub struct ShownPredict {
    /// The columns by the names that are shown.
    pub input_names: Vec<String>,
    pub output_names: Vec<String>,
    /// The entered values as whole numbers; of a categorical input its code.
    pub codes: Vec<usize>,
    /// The printed answers of the model.
    pub outputs: Vec<String>,
    pub outside: Vec<ShownOutside>,
}

/// A category is chosen by its label, so that no unknown one can be entered.
pub open spec fn input_item(i: nat, column: ColumnView, name: Seq<char>, code: usize) -> ItemView {
    match column.levels {
        Some(levels) => ItemView::Choice {
            field: Field::Column(i as usize),
            label: name,
            options: levels,
            chosen: if code < levels.len() {
                code
            } else if levels.len() > 0 {
                (levels.len() - 1) as usize
            } else {
                0
            },
        },
        None => fraction_item(Field::Column(i as usize), name, LOWEST, HIGHEST),
    }
}

pub open spec fn input_items(columns: Seq<ColumnView>, names: Seq<Seq<char>>, codes: Seq<usize>) -> Seq<
    ItemView,
> {
    Seq::new(codes.len(), |i: int| input_item(i as nat, columns[i], names[i], codes[i]))
}

fn inputs_page(columns: &Vec<Column>, names: &Vec<String>, codes: &Vec<usize>) -> (page: Page)
    requires
        codes@.len() <= columns@.len(),
        codes@.len() <= names@.len(),
    ensures
        page@ == input_items(crate::schema::column_views(columns@), texts(names@), codes@),
{
    let ghost items = input_items(
        crate::schema::column_views(columns@),
        texts(names@),
        codes@,
    );
    let mut page: Page = Page::new();
    let mut i: usize = 0;
    while i < codes.len()
        invariant
            i <= codes@.len(),
            codes@.len() <= columns@.len(),
            codes@.len() <= names@.len(),
            items == input_items(
                crate::schema::column_views(columns@),
                texts(names@),
                codes@,
            ),
            page@ == items.take(i as int),
        decreases codes.len() - i,
    {
        assert(crate::schema::column_views(columns@)[i as int] == columns@[i as int]@);
        match &columns[i].ty {
            ColumnType::Numeric => {
                page.fraction(Field::Column(i), names[i].as_str(), LOWEST, HIGHEST);
            },
            ColumnType::Categorical { levels } => {
                let chosen: usize = if codes[i] < levels.len() {
                    codes[i]
                } else if levels.len() > 0 {
                    levels.len() - 1
                } else {
                    0
                };
                page.choice(Field::Column(i), names[i].as_str(), copy_texts(levels), chosen);
            },
        }
        i += 1;
        assert(page@ =~= items.take(i as int));
    }
    assert(items.take(i as int) =~= items);
    page
}

pub open spec fn output_items(names: Seq<Seq<char>>, values: Seq<Seq<char>>) -> Seq<ItemView> {
    Seq::new(values.len(), |i: int| ItemView::Label(names[i] + " = "@ + values[i]))
}

fn outputs_page(names: &Vec<String>, values: &Vec<String>) -> (page: Page)
    requires
        values@.len() <= names@.len(),
    ensures
        page@ == output_items(texts(names@), texts(values@)),
{
    let ghost items = output_items(texts(names@), texts(values@));
    let mut page: Page = Page::new();
    let mut i: usize = 0;
    while i < values.len()
        invariant
            i <= values@.len(),
            values@.len() <= names@.len(),
            items == output_items(texts(names@), texts(values@)),
            page@ == items.take(i as int),
        decreases values.len() - i,
    {
        let mut text: String = owned(names[i].as_str());
        text.append(" = ");
        text.append(values[i].as_str());
        page.label(text.as_str());
        i += 1;
        assert(page@ =~= items.take(i as int));
    }
    assert(items.take(i as int) =~= items);
    page
}

pub open spec fn outside_items(
    names: Seq<Seq<char>>,
    outside: Seq<OutOfRange>,
    shown: Seq<ShownOutside>,
) -> Seq<ItemView> {
    Seq::new(
        outside.len(),
        |i: int|
            ItemView::Warning(
                names[outside[i].feature as int] + " = "@ + shown[i].value@ + " вне ["@
                    + shown[i].min@ + ", "@ + shown[i].max@ + "]"@,
            ),
    )
}

fn outside_page(names: &Vec<String>, outside: &Vec<OutOfRange>, shown: &Vec<ShownOutside>) -> (page:
    Page)
    requires
        shown@.len() == outside@.len(),
        forall|i: int| 0 <= i < outside@.len() ==> (#[trigger] outside@[i]).feature < names@.len(),
    ensures
        page@ == outside_items(texts(names@), outside@, shown@),
{
    let ghost items = outside_items(texts(names@), outside@, shown@);
    let mut page: Page = Page::new();
    let mut i: usize = 0;
    while i < outside.len()
        invariant
            i <= outside@.len(),
            shown@.len() == outside@.len(),
            forall|k: int|
                0 <= k < outside@.len() ==> (#[trigger] outside@[k]).feature < names@.len(),
            items == outside_items(texts(names@), outside@, shown@),
            page@ == items.take(i as int),
        decreases outside.len() - i,
    {
        assert(outside@[i as int].feature < names@.len());
        let mut text: String = owned(names[outside[i].feature].as_str());
        text.append(" = ");
        text.append(shown[i].value.as_str());
        text.append(" вне [");
        text.append(shown[i].min.as_str());
        text.append(", ");
        text.append(shown[i].max.as_str());
        text.append("]");
        page.warning(text.as_str());
        i += 1;
        assert(page@ =~= items.take(i as int));
    }
    assert(items.take(i as int) =~= items);
    page
}

/// The number of the last of `n` columns.
pub open spec fn last_of(n: nat) -> nat {
    if n == 0 {
        0
    } else {
        (n - 1) as nat
    }
}

/// The table that a batch is read from.
pub open spec fn batch_items(n_in: nat, n_out: nat, busy: bool) -> Seq<ItemView> {
    seq![
        ItemView::Separator,
        ItemView::Label("Пакетный Predict из Excel"@),
        ItemView::Label(
            "Ожидается первый лист с колонками x0..x"@ + decimal(last_of(n_in)) + " и y0..y"@
                + decimal(last_of(n_out)) + "; y-колонки будут перезаписаны."@,
        ),
        button_item(Action::FillTable, "Заполнить Excel (.xlsx)…"@, !busy),
    ]
}

fn batch_page(n_in: usize, n_out: usize, busy: bool) -> (page: Page)
    ensures
        page@ == batch_items(n_in as nat, n_out as nat, busy),
{
    let last_in: usize = if n_in == 0 {
        0
    } else {
        n_in - 1
    };
    let last_out: usize = if n_out == 0 {
        0
    } else {
        n_out - 1
    };
    let mut page: Page = Page::new();
    page.separator();
    page.label("Пакетный Predict из Excel");
    let mut text: String = owned("Ожидается первый лист с колонками x0..x");
    text.append(decimal_text(last_in as u64).as_str());
    text.append(" и y0..y");
    text.append(decimal_text(last_out as u64).as_str());
    text.append("; y-колонки будут перезаписаны.");
    page.label(text.as_str());
    page.button(Action::FillTable, "Заполнить Excel (.xlsx)…", !busy);
    assert(page@ =~= batch_items(n_in as nat, n_out as nat, busy));
    page
}

/// The prediction by a model: its inputs, its outputs, and a warning where
/// an input lies outside what it was trained on.
pub open spec fn prediction_items(
    info: ModelInfo,
    predict: PredictState,
    busy: bool,
    shown: ShownPredict,
) -> Seq<ItemView> {
    let names = texts(shown.input_names@);
    let p = seq![
        ItemView::Label(
            "Модель: "@ + info.source@ + " ("@ + decimal(info.schema@.inputs.len()) + " вход → "@
                + decimal(info.schema@.outputs.len()) + " выход, "@ + decimal(
                info.parameter_count as nat,
            ) + " параметров)"@,
        ),
    ];
    let p = match info.warning() {
        Some(w) => p.push(ItemView::Warning(w)),
        None => p,
    };
    let p = (p.push(ItemView::Separator) + input_items(
        info.schema@.inputs,
        names,
        shown.codes@,
    )).push(button_item(Action::Predict, "Predict"@, !busy));
    let p = match predict.outputs {
        Some(_) => p.push(ItemView::Separator) + output_items(
            texts(shown.output_names@),
            texts(shown.outputs@),
        ),
        None => p,
    };
    let p = if predict.extrapolation@.len() > 0 {
        p.push(ItemView::Separator).push(
            ItemView::Warning("⚠ экстраполяция – модель ненадёжна вне диапазона:"@),
        ) + outside_items(names, predict.extrapolation@, shown.outside@)
    } else {
        p
    };
    p + batch_items(info.schema@.inputs.len(), info.schema@.outputs.len(), busy)
}

impl ShownPredict {
    /// There is a code for every entered value, a printed number for every
    /// answer and every input outside, and a column for each of them.
    pub open spec fn fits(self, info: ModelInfo, predict: PredictState) -> bool {
        &&& self.codes@.len() == predict.inputs@.len()
        &&& self.codes@.len() <= info.schema@.inputs.len()
        &&& self.codes@.len() <= self.input_names@.len()
        &&& predict.outputs matches Some(values) ==> values@.len() == self.outputs@.len()
            && values@.len() <= self.output_names@.len()
        &&& self.outside@.len() == predict.extrapolation@.len()
        &&& forall|i: int|
            0 <= i < predict.extrapolation@.len() ==> (#[trigger] predict.extrapolation@[i]).feature
                < self.input_names@.len()
    }
}

fn prediction_page(info: &ModelInfo, predict: &PredictState, busy: bool, shown: &ShownPredict) -> (page:
    Page)
    requires
        shown.fits(*info, *predict),
    ensures
        page@ == prediction_items(*info, *predict, busy, *shown),
{
    let n_in: usize = info.schema.n_inputs();
    let n_out: usize = info.schema.n_outputs();
    let mut page: Page = Page::new();
    let mut text: String = owned("Модель: ");
    text.append(info.source.as_str());
    text.append(" (");
    text.append(decimal_text(n_in as u64).as_str());
    text.append(" вход → ");
    text.append(decimal_text(n_out as u64).as_str());
    text.append(" выход, ");
    text.append(decimal_text(info.parameter_count as u64).as_str());
    text.append(" параметров)");
    page.label(text.as_str());
    assert(page@ =~= seq![ItemView::Label(text@)]);
    if let Some(w) = info.categorical_warning() {
        page.warning(w.as_str());
    }
    page.separator();
    page.append(inputs_page(&info.schema.inputs, &shown.input_names, &shown.codes));
    page.button(Action::Predict, "Predict", !busy);
    if predict.outputs.is_some() {
        page.separator();
        page.append(outputs_page(&shown.output_names, &shown.outputs));
    }
    if predict.extrapolation.len() > 0 {
        page.separator();
        page.warning("⚠ экстраполяция – модель ненадёжна вне диапазона:");
        page.append(outside_page(&shown.input_names, &predict.extrapolation, &shown.outside));
    }
    page.append(batch_page(n_in, n_out, busy));
    page
}

pub open spec fn predict_items(session: Session, shown: ShownPredict) -> Seq<ItemView> {
    let head = seq![
        ItemView::Heading("Predict"@),
        button_item(Action::LoadModel, "Загрузить модель (.bin)…"@, true),
    ];
    match session.model_info {
        None => head.push(
            ItemView::Label("Обучите модель (вкладка Train) или загрузите .bin."@),
        ),
        Some(m) => head + prediction_items(m, session.predict, session.is_busy(), shown),
    }
}

/// The page of predictions.
pub fn ui_predict(session: &Session, shown: &ShownPredict) -> (page: Page)
    requires
        session.model_info matches Some(m) ==> shown.fits(m, session.predict),
    ensures
        page@ == predict_items(*session, *shown),
{
    let mut page: Page = Page::new();
    page.heading("Predict");
    page.button(Action::LoadModel, "Загрузить модель (.bin)…", true);
    assert(page@ =~= seq![
        ItemView::Heading("Predict"@),
        button_item(Action::LoadModel, "Загрузить модель (.bin)…"@, true),
    ]);
    match &session.model_info {
        None => {
            page.label("Обучите модель (вкладка Train) или загрузите .bin.");
        },
        Some(m) => {
            page.append(prediction_page(m, &session.predict, session.busy(), shown));
        },
    }
    page
}

/// The name that a filled table gets, from that of the table without its
/// extension.
pub fn filled_name(stem: Option<&str>) -> (name: String)
    ensures
        name@ == match stem {
            Some(s) => s@ + "_predicted.xlsx"@,
            None => "predicted.xlsx"@,
        },
{
    match stem {
        Some(s) => {
            let mut name: String = owned(s);
            name.append("_predicted.xlsx");
            name
        },
        None => owned("predicted.xlsx"),
    }
}

/// An estimate that belongs to the active model.
#[derive(Clone, Copy, Debug, PartialEq, Eq, Structural)]
pub enum OwnEstimate {
    Test(Single),
    Validation(Single),
}

impl Session {
    /// A table is being filled.
    pub fn start_batch(&mut self)
        ensures
            *final(self) == (Session {
                batch_predicting: true,
                status: final(self).status,
                ..*old(self)
            }),
            final(self).status@ == "заполнение Excel…"@,
    {
        self.batch_predicting = true;
        self.status = owned("заполнение Excel…");
    }

    /// The run that the active model comes from.
    pub open spec fn model_run(self) -> Option<RunStamp> {
        match self.model_info {
            Some(info) => match info.origin {
                ModelOrigin::Development(stamp) => Some(stamp),
                ModelOrigin::Final(stamp) => Some(stamp),
                ModelOrigin::Checkpoint => None,
            },
            None => None,
        }
    }

    /// The check of the active model's own run.
    pub open spec fn model_check(self) -> Option<CheckedRun> {
        match self.model_run() {
            Some(stamp) => if self.lifecycle.was_checked(stamp) {
                self.lifecycle.last_check
            } else {
                None
            },
            None => None,
        }
    }

    /// The measurement on the test rows of the active model's own run.
    pub open spec fn model_measure(self) -> Option<TestDisclosure> {
        match self.model_run() {
            Some(stamp) => self.lifecycle.measure_of(stamp),
            None => None,
        }
    }

    /// The estimate of the active model and of no other: that on the test
    /// rows if its run was measured, else that of its check.
    pub open spec fn estimate_of_model(self) -> Option<OwnEstimate> {
        match self.model_measure() {
            Some(d) => Some(OwnEstimate::Test(d.eval.metrics.r2)),
            None => match self.model_check() {
                Some(run) => Some(OwnEstimate::Validation(run.eval.metrics.r2)),
                None => None,
            },
        }
    }

    fn run_of_model(&self) -> (run: Option<RunStamp>)
        ensures
            run == self.model_run(),
    {
        match &self.model_info {
            Some(info) => match &info.origin {
                ModelOrigin::Development(stamp) => Some(*stamp),
                ModelOrigin::Final(stamp) => Some(*stamp),
                ModelOrigin::Checkpoint => None,
            },
            None => None,
        }
    }

    pub fn check_of_model(&self) -> (run: Option<&CheckedRun>)
        ensures
            match run {
                Some(r) => self.model_check() == Some(*r),
                None => self.model_check() is None,
            },
    {
        let stamp: RunStamp = self.run_of_model()?;
        if !self.lifecycle.checked_for(&stamp) {
            return None;
        }
        match &self.lifecycle.last_check {
            Some(run) => Some(run),
            None => None,
        }
    }

    pub fn measure_of_model(&self) -> (measured: Option<&TestDisclosure>)
        ensures
            match measured {
                Some(d) => self.model_measure() == Some(*d),
                None => self.model_measure() is None,
            },
    {
        let stamp: RunStamp = self.run_of_model()?;
        match self.lifecycle.disclosure_for(&stamp) {
            Some(i) => Some(&self.lifecycle.disclosures[i]),
            None => None,
        }
    }

    pub fn own_estimate(&self) -> (estimate: Option<OwnEstimate>)
        ensures
            estimate == self.estimate_of_model(),
    {
        match self.measure_of_model() {
            Some(d) => Some(OwnEstimate::Test(d.eval.metrics.r2)),
            None => match self.check_of_model() {
                Some(run) => Some(OwnEstimate::Validation(run.eval.metrics.r2)),
                None => None,
            },
        }
    }
}

/// What the head of the window shows besides the session.
#[derive(Debug)]
pub struct ShownHeader {
    /// The line of the active data.
    pub summary: String,
    /// The printed number of the active model's own estimate.
    pub estimate: String,
    /// Why the model does not fit the data.
    pub mismatch: Option<String>,
}

/// The data and the model of the session, seen from everywhere.
pub open spec fn header_items(session: Session, shown: ShownHeader) -> Seq<ItemView> {
    let p = seq![ItemView::Label("Данные:"@)];
    let p = match session.dataset {
        Some(active) => {
            let notes = active.role_notes + match active.profile_notes {
                Some(k) => k as int,
                None => 0,
            };
            let p = p.push(ItemView::Label(shown.summary@));
            if notes > 0 {
                p.push(ItemView::Label("· замечаний: "@ + decimal(notes as nat)))
            } else {
                p
            }
        },
        None => p.push(ItemView::Label("не открыты"@)),
    };
    let p = p.push(ItemView::Label("Модель:"@));
    match session.model_info {
        Some(info) => {
            let p = p.push(
                ItemView::Label(
                    kind_name(info.kind) + " · "@ + info.source@ + " · "@ + info.origin.name(),
                ),
            );
            let p = match session.estimate_of_model() {
                Some(OwnEstimate::Test(_)) => p.push(
                    ItemView::Label("· test R² "@ + shown.estimate@),
                ),
                Some(OwnEstimate::Validation(_)) => p.push(
                    ItemView::Label("· validation R² "@ + shown.estimate@),
                ),
                None => p,
            };
            match (session.dataset, shown.mismatch) {
                (Some(_), Some(reason)) => p.push(
                    ItemView::Warning("⚠ не подходит к данным: "@ + reason@),
                ),
                _ => p,
            }
        },
        None => p.push(ItemView::Label("не обучена"@)),
    }
}

/// The head of the window.
pub fn ui_header(session: &Session, shown: &ShownHeader) -> (page: Page)
    requires
        session.dataset matches Some(active) ==> active.role_notes + (match active.profile_notes {
            Some(k) => k as int,
            None => 0,
        }) <= u64::MAX,
    ensures
        page@ == header_items(*session, *shown),
{
    let mut page: Page = Page::new();
    page.label("Данные:");
    assert(page@ =~= seq![ItemView::Label("Данные:"@)]);
    match &session.dataset {
        Some(active) => {
            page.label(shown.summary.as_str());
            let notes: u128 = active.data_notes();
            if notes > 0 {
                let mut text: String = owned("· замечаний: ");
                text.append(decimal_text(notes as u64).as_str());
                page.label(text.as_str());
            }
        },
        None => {
            page.label("не открыты");
        },
    }
    page.label("Модель:");
    match &session.model_info {
        Some(info) => {
            let mut text: String = owned(model_kind_label(info.kind));
            text.append(" · ");
            text.append(info.source.as_str());
            text.append(" · ");
            text.append(info.origin.label());
            page.label(text.as_str());
            match session.own_estimate() {
                Some(OwnEstimate::Test(_)) => {
                    let mut text: String = owned("· test R² ");
                    text.append(shown.estimate.as_str());
                    page.label(text.as_str());
                },
                Some(OwnEstimate::Validation(_)) => {
                    let mut text: String = owned("· validation R² ");
                    text.append(shown.estimate.as_str());
                    page.label(text.as_str());
                },
                None => {},
            }
            if let (Some(_), Some(reason)) = (&session.dataset, &shown.mismatch) {
                let mut text: String = owned("⚠ не подходит к данным: ");
                text.append(reason.as_str());
                page.warning(text.as_str());
            }
        },
        None => {
            page.label("не обучена");
        },
    }
    page
}

/// The ways to open data; marking up again is offered for tables only.
pub open spec fn dataset_bar_items(session: Session) -> Seq<ItemView> {
    let idle = !session.is_busy();
    let p = seq![
        button_item(Action::OpenTnum, "Открыть .tnum…"@, idle),
        button_item(Action::OpenTable, "Открыть таблицу…"@, idle),
    ];
    if session.dataset is Some && session.dataset->0.prepared.origin is Table {
        p.push(button_item(Action::Remark, "Разметить заново…"@, idle))
    } else {
        p
    }
}

pub fn ui_dataset_bar(session: &Session) -> (page: Page)
    ensures
        page@ == dataset_bar_items(*session),
{
    let idle: bool = !session.busy();
    let mut page: Page = Page::new();
    page.button(Action::OpenTnum, "Открыть .tnum…", idle);
    page.button(Action::OpenTable, "Открыть таблицу…", idle);
    assert(page@ =~= seq![
        button_item(Action::OpenTnum, "Открыть .tnum…"@, idle),
        button_item(Action::OpenTable, "Открыть таблицу…"@, idle),
    ]);
    if session.markup_source().is_some() {
        page.button(Action::Remark, "Разметить заново…", idle);
    }
    page
}

/// Data can be opened while nothing runs, and only a table can be marked up
/// again.
pub proof fn law_data_are_opened_while_nothing_runs(session: Session)
    ensures
        offers(dataset_bar_items(session), Action::OpenTnum, !session.is_busy()),
        offers(dataset_bar_items(session), Action::OpenTable, !session.is_busy()),
        if session.dataset matches Some(active) && active.prepared.origin is Table {
            offers(dataset_bar_items(session), Action::Remark, !session.is_busy())
        } else {
            withholds(dataset_bar_items(session), Action::Remark)
        },
{
    let p = dataset_bar_items(session);
    assert(button_for(p[0], Action::OpenTnum));
    assert(button_for(p[1], Action::OpenTable));
    if session.dataset is Some && session.dataset->0.prepared.origin is Table {
        assert(button_for(p[2], Action::Remark));
    }
}

/// The estimate by a model is its own: that of the run it comes from. It is
/// the measurement of that run on the test rows where there is one, else the
/// last check where that was of this run; a model from a file has none.
pub proof fn law_a_model_is_shown_with_its_own_estimate(session: Session)
    ensures
        ({
            let run = match session.model_info {
                Some(info) => match info.origin {
                    ModelOrigin::Development(stamp) => Some(stamp),
                    ModelOrigin::Final(stamp) => Some(stamp),
                    ModelOrigin::Checkpoint => None,
                },
                None => None,
            };
            match session.estimate_of_model() {
                Some(OwnEstimate::Test(r2)) => run matches Some(stamp) && exists|i: int|
                    0 <= i < session.lifecycle.disclosures@.len() && (
                    #[trigger] session.lifecycle.disclosures@[i]).stamp.equals(stamp)
                        && session.lifecycle.disclosures@[i].eval.metrics.r2 == r2,
                Some(OwnEstimate::Validation(r2)) => run matches Some(stamp) && (
                session.lifecycle.last_check matches Some(check) && check.stamp.equals(stamp)
                    && check.eval.metrics.r2 == r2) && forall|i: int|
                    0 <= i < session.lifecycle.disclosures@.len() ==> !(
                    #[trigger] session.lifecycle.disclosures@[i]).stamp.equals(stamp),
                None => run matches Some(stamp) ==> !(session.lifecycle.last_check matches Some(
                    check,
                ) && check.stamp.equals(stamp)) && forall|i: int|
                    0 <= i < session.lifecycle.disclosures@.len() ==> !(
                    #[trigger] session.lifecycle.disclosures@[i]).stamp.equals(stamp),
            }
        }),
{
    if let Some(stamp) = session.model_run() {
        crate::lifecycle::law_a_run_keeps_its_first_measurement(session.lifecycle, stamp);
    }
}

/// A category is chosen among its labels: a code that it has is chosen, and the
/// last one for a code beyond. Any other input is entered as a number.
pub proof fn law_categories_are_chosen_by_label(
    i: nat,
    column: ColumnView,
    name: Seq<char>,
    code: usize,
)
    requires
        column.levels matches Some(levels) ==> levels.len() <= usize::MAX,
    ensures
        match column.levels {
            Some(levels) => {
                &&& input_item(i, column, name, code) matches ItemView::Choice {
                    options,
                    chosen,
                    label,
                    ..
                } && options == levels && label == name && (code < levels.len() ==> chosen == code)
                    && (code >= levels.len() > 0 ==> chosen + 1 == levels.len())
            },
            None => input_item(i, column, name, code) is Real,
        },
{
}

/// The head of the window names the kind of estimate that the active model
/// has of its own, and none where it has none; remarks on the data are counted
/// exactly where there are any.
pub proof fn law_the_head_shows_the_own_estimate(session: Session, shown: ShownHeader)
    requires
        session.dataset is None,
        session.model_info is Some,
    ensures
        ({
            let items = header_items(session, shown);
            match session.estimate_of_model() {
                Some(OwnEstimate::Test(_)) => items.len() == 5 && items[4] == ItemView::Label(
                    "· test R² "@ + shown.estimate@,
                ),
                Some(OwnEstimate::Validation(_)) => items.len() == 5 && items[4] == ItemView::Label(
                    "· validation R² "@ + shown.estimate@,
                ),
                None => items.len() == 4,
            }
        }),
{
}

/// The remarks on the active data are counted exactly where there are any: those
/// on the table and those on the roles together.
pub proof fn law_remarks_are_counted_together(session: Session, shown: ShownHeader)
    requires
        session.dataset is Some,
    ensures
        ({
            let active = session.dataset->0;
            let notes = active.role_notes + match active.profile_notes {
                Some(k) => k as int,
                None => 0,
            };
            let items = header_items(session, shown);
            items.len() > 3 && items[2] == if notes > 0 {
                ItemView::Label("· замечаний: "@ + decimal(notes as nat))
            } else {
                ItemView::Label("Модель:"@)
            }
        }),
{
}

/// Every answer is shown behind the name of its output, and every input
/// outside the trained range is warned of by its name with its value and the
/// bounds.
pub proof fn law_answers_and_warnings_name_their_columns(
    names: Seq<Seq<char>>,
    values: Seq<Seq<char>>,
    outside: Seq<OutOfRange>,
    shown: Seq<ShownOutside>,
    i: int,
)
    ensures
        output_items(names, values).len() == values.len(),
        0 <= i < values.len() ==> output_items(names, values)[i] == ItemView::Label(
            names[i] + " = "@ + values[i],
        ),
        outside_items(names, outside, shown).len() == outside.len(),
        0 <= i < outside.len() ==> warns(
            outside_items(names, outside, shown),
            names[outside[i].feature as int] + " = "@ + shown[i].value@ + " вне ["@
                + shown[i].min@ + ", "@ + shown[i].max@ + "]"@,
        ),
{
    if 0 <= i < outside.len() {
        assert(outside_items(names, outside, shown)[i] is Warning);
    }
}

/// Each input of a model is asked for, in its place.
pub proof fn law_every_input_is_asked_for(
    columns: Seq<ColumnView>,
    names: Seq<Seq<char>>,
    codes: Seq<usize>,
    i: int,
)
    requires
        0 <= i < codes.len() <= usize::MAX,
    ensures
        input_items(columns, names, codes).len() == codes.len(),
        field_of(input_items(columns, names, codes)[i]) == Some(Field::Column(i as usize)),
{
}

/// A table is filled while nothing runs. Without a model nothing can be
/// predicted, and a model can be loaded at any time.
pub proof fn law_predictions_need_a_model(session: Session, shown: ShownPredict, n_in: nat, n_out: nat)
    ensures
        offers(batch_items(n_in, n_out, session.is_busy()), Action::FillTable, !session.is_busy()),
        session.model_info is None ==> {
            &&& withholds(predict_items(session, shown), Action::Predict)
            &&& withholds(predict_items(session, shown), Action::FillTable)
            &&& offers(predict_items(session, shown), Action::LoadModel, true)
        },
{
    let b = batch_items(n_in, n_out, session.is_busy());
    assert(button_for(b[3], Action::FillTable));
    if session.model_info is None {
        assert(button_for(predict_items(session, shown)[1], Action::LoadModel));
    }
}

} // verus!

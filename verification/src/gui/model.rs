//! The page of the active model: what it is, its KAN edges and formulas, and
//! its diagnostics.

use crate::config::ModelKind;
use crate::diagnostics::SensitivityReport;
use crate::gui::messages::{DiagnosticsResult, KanSymbolicInfo, ModelOrigin};
use crate::gui::page::{
    asks_for, button_for, draws, field_of, four, offers, warns, withholds, Action, Chart, Field,
    ItemView, Page,
};
use crate::gui::pages::{button_item, number_item, words};
use crate::gui::session::{KanState, ModelInfo, SampleKanEdge, Session};
use crate::gui::shown::{
    edges_label, edges_text, pruned_label, pruned_text, ShownMetrics, ShownProfile,
};
use crate::interpret::InterpretReports;
use crate::lifecycle::{CheckedRun, SplitPlan};
use crate::schema::{Column, ColumnView};
use crate::single::Single;
use crate::text::{decimal, decimal_text, join, joined, owned, same, texts};
use vstd::prelude::*;
use vstd::string::StringExecFns;

verus! {

/// The single-precision value of 0.02.
pub const ENOUGH: u32 = 0x3ca3_d70a;

/// The names of the first `n` columns that are categorical, in order.
pub open spec fn coded_names(columns: Seq<ColumnView>, n: int) -> Seq<Seq<char>>
    decreases n,
{
    if n <= 0 {
        Seq::empty()
    } else if columns[n - 1].levels is Some {
        coded_names(columns, n - 1).push(columns[n - 1].name)
    } else {
        coded_names(columns, n - 1)
    }
}

impl ModelInfo {
    /// Only a transformer embeds categories: any other model takes the codes
    /// for distances, which is said.
    pub open spec fn warning(self) -> Option<Seq<char>> {
        let names = coded_names(self.schema@.inputs, self.schema@.inputs.len() as int);
        if self.kind == ModelKind::Transformer || names.len() == 0 {
            None
        } else {
            Some(
                "⚠ категориальные входы ("@ + joined(names, ", "@)
                    + ") кодируются числами: порядок кодов будет воспринят как расстояние. Embedding категорий есть только у transformer."@,
            )
        }
    }

    pub fn categorical_warning(&self) -> (text: Option<String>)
        ensures
            crate::gui::forms::said(text) == self.warning(),
    {
        if self.kind == ModelKind::Transformer {
            return None;
        }
        let columns: &Vec<Column> = &self.schema.inputs;
        let ghost views = self.schema@.inputs;
        let mut names: Vec<String> = Vec::new();
        assert(texts(names@) =~= coded_names(views, 0));
        let mut i: usize = 0;
        while i < columns.len()
            invariant
                i <= columns@.len(),
                columns@ == self.schema.inputs@,
                views == self.schema@.inputs,
                texts(names@) == coded_names(views, i as int),
            decreases columns.len() - i,
        {
            assert(views[i as int] == columns@[i as int]@);
            if columns[i].cardinality().is_some() {
                let ghost before = names@;
                names.push(owned(columns[i].name.as_str()));
                assert(texts(names@) =~= texts(before).push(views[i as int].name));
            }
            i += 1;
        }
        assert(texts(names@).len() == names@.len());
        if names.len() == 0 {
            return None;
        }
        let mut text: String = owned("⚠ категориальные входы (");
        text.append(join(&names, ", ").as_str());
        text.append(
            ") кодируются числами: порядок кодов будет воспринят как расстояние. Embedding категорий есть только у transformer.",
        );
        Some(text)
    }
}

/// The parts of the page.
#[derive(Clone, Copy, Debug, PartialEq, Eq, Structural)]
pub enum ModelView {
    Summary,
    KanCurves,
    KanFormulas,
    Diagnose,
}

impl ModelView {
    pub open spec fn name(self) -> Seq<char> {
        match self {
            ModelView::Summary => "Итоги"@,
            ModelView::KanCurves => "Кривые KAN"@,
            ModelView::KanFormulas => "Формулы"@,
            ModelView::Diagnose => "Диагностика"@,
        }
    }

    pub fn label(self) -> (text: &'static str)
        ensures
            text@ == self.name(),
    {
        match self {
            ModelView::Summary => "Итоги",
            ModelView::KanCurves => "Кривые KAN",
            ModelView::KanFormulas => "Формулы",
            ModelView::Diagnose => "Диагностика",
        }
    }

    pub open spec fn numbered(self) -> usize {
        match self {
            ModelView::Summary => 0,
            ModelView::KanCurves => 1,
            ModelView::KanFormulas => 2,
            ModelView::Diagnose => 3,
        }
    }

    pub fn number(self) -> (n: usize)
        ensures
            n == self.numbered(),
    {
        match self {
            ModelView::Summary => 0,
            ModelView::KanCurves => 1,
            ModelView::KanFormulas => 2,
            ModelView::Diagnose => 3,
        }
    }
}

/// The head of the page: which part is shown.
pub open spec fn model_head(view: ModelView) -> Seq<ItemView> {
    seq![
        ItemView::Heading("Модель"@),
        ItemView::Choice {
            field: Field::ModelView,
            label: ""@,
            options: seq!["Итоги"@, "Кривые KAN"@, "Формулы"@, "Диагностика"@],
            chosen: view.numbered(),
        },
        ItemView::Separator,
    ]
}

/// The page of the model with one of its parts.
pub fn ui_model(view: ModelView, part: Page) -> (page: Page)
    ensures
        page@ == model_head(view) + part@,
{
    let mut page: Page = Page::new();
    page.heading("Модель");
    page.choice(
        Field::ModelView,
        "",
        four("Итоги", "Кривые KAN", "Формулы", "Диагностика"),
        view.number(),
    );
    page.separator();
    assert(page@ =~= model_head(view));
    page.append(part);
    page
}

/// An estimate: its name, its numbers, and those of each output.
#[derive(Debug)]
pub struct ShownEval {
    pub metrics: ShownMetrics,
    pub per_output: Option<Vec<ShownMetrics>>,
}

/// A line for each output that has numbers.
pub open spec fn output_rows(names: Seq<Seq<char>>, per_output: Seq<ShownMetrics>) -> Seq<ItemView> {
    Seq::new(
        if names.len() <= per_output.len() {
            names.len()
        } else {
            per_output.len()
        },
        |i: int|
            ItemView::Row(
                seq![
                    names[i],
                    per_output[i].rmse@,
                    per_output[i].mae@,
                    per_output[i].rel_error@ + "%"@,
                    per_output[i].r2@,
                ],
            ),
    )
}

impl ShownEval {
    /// For how many outputs there are numbers.
    pub open spec fn outputs(self) -> nat {
        match self.per_output {
            Some(list) => list@.len(),
            None => 0,
        }
    }
}

pub open spec fn eval_lines(label: Seq<char>, eval: ShownEval, names: Seq<Seq<char>>) -> Seq<
    ItemView,
> {
    let head = seq![ItemView::Label(label + ": "@ + eval.metrics.line())];
    match eval.per_output {
        None => head,
        Some(per_output) => head.push(
            ItemView::Row(seq!["выход"@, "RMSE"@, "MAE"@, "rel.error"@, "R²"@]),
        ) + output_rows(names, per_output@),
    }
}

/// An estimate, as a whole and output by output.
pub fn show_metrics(label: &str, eval: &ShownEval, names: &Vec<String>) -> (page: Page)
    ensures
        page@ == eval_lines(label@, *eval, texts(names@)),
{
    let mut page: Page = Page::new();
    let mut text: String = owned(label);
    text.append(": ");
    text.append(eval.metrics.text().as_str());
    page.label(text.as_str());
    assert(page@ =~= seq![ItemView::Label(label@ + ": "@ + eval.metrics.line())]);
    if let Some(per_output) = &eval.per_output {
        let head: Vec<String> = words(&["выход", "RMSE", "MAE", "rel.error", "R²"]);
        assert(texts(head@) =~= seq!["выход"@, "RMSE"@, "MAE"@, "rel.error"@, "R²"@]);
        page.row(head);
        let ghost top = page@;
        let ghost rows = output_rows(texts(names@), per_output@);
        let n: usize = if names.len() <= per_output.len() {
            names.len()
        } else {
            per_output.len()
        };
        let mut i: usize = 0;
        while i < n
            invariant
                i <= n,
                n <= names@.len(),
                n <= per_output@.len(),
                rows == output_rows(texts(names@), per_output@),
                rows.len() == n,
                page@ == top + rows.take(i as int),
            decreases n - i,
        {
            let m: &ShownMetrics = &per_output[i];
            let mut cells: Vec<String> = Vec::new();
            cells.push(owned(names[i].as_str()));
            cells.push(owned(m.rmse.as_str()));
            cells.push(owned(m.mae.as_str()));
            let mut rel: String = owned(m.rel_error.as_str());
            rel.append("%");
            cells.push(rel);
            cells.push(owned(m.r2.as_str()));
            assert(texts(cells@) =~= seq![
                texts(names@)[i as int],
                per_output@[i as int].rmse@,
                per_output@[i as int].mae@,
                per_output@[i as int].rel_error@ + "%"@,
                per_output@[i as int].r2@,
            ]);
            page.row(cells);
            i += 1;
            assert(page@ =~= top + rows.take(i as int));
        }
        assert(rows.take(n as int) =~= rows);
    }
    page
}

/// The layers of a KAN as options.
pub open spec fn layer_text(layer: nat, dims: (usize, usize)) -> Seq<char> {
    decimal(layer) + " ("@ + decimal(dims.0 as nat) + " → "@ + decimal(dims.1 as nat) + ")"@
}

pub open spec fn layer_texts(dims: Seq<(usize, usize)>) -> Seq<Seq<char>> {
    Seq::new(dims.len(), |i: int| layer_text(i as nat, dims[i]))
}

fn layer_options(dims: &Vec<(usize, usize)>) -> (list: Vec<String>)
    ensures
        texts(list@) == layer_texts(dims@),
{
    let mut list: Vec<String> = Vec::new();
    let mut i: usize = 0;
    while i < dims.len()
        invariant
            i <= dims@.len(),
            texts(list@) == layer_texts(dims@).take(i as int),
        decreases dims.len() - i,
    {
        let mut text: String = decimal_text(i as u64);
        text.append(" (");
        text.append(decimal_text(dims[i].0 as u64).as_str());
        text.append(" → ");
        text.append(decimal_text(dims[i].1 as u64).as_str());
        text.append(")");
        let ghost before = list@;
        list.push(text);
        assert(texts(list@) =~= texts(before).push(layer_text(i as nat, dims@[i as int])));
        i += 1;
        assert(texts(list@) =~= layer_texts(dims@).take(i as int));
    }
    assert(layer_texts(dims@).take(i as int) =~= layer_texts(dims@));
    list
}

pub open spec fn at_most(n: usize, bound: usize) -> usize {
    if n < bound {
        n
    } else {
        bound
    }
}

impl KanState {
    /// The chosen layer and edge, moved into the model.
    pub open spec fn placed(self) -> KanState {
        match self.info {
            Some(info) => if info.layer_dims@.len() > 0 {
                let layer = at_most(self.layer, (info.layer_dims@.len() - 1) as usize);
                let dims = info.layer_dims@[layer as int];
                KanState {
                    layer,
                    input: at_most(self.input, (dims.0 - 1) as usize),
                    output: at_most(self.output, (dims.1 - 1) as usize),
                    ..self
                }
            } else {
                self
            },
            None => self,
        }
    }

    /// Moves the chosen layer and edge into the model.
    pub fn place(&mut self)
        requires
            old(self).wf(),
        ensures
            *final(self) == old(self).placed(),
            final(self).wf(),
    {
        match &self.info {
            Some(info) => {
                let n: usize = info.layer_dims.len();
                if n > 0 {
                    let layer: usize = if self.layer < n - 1 {
                        self.layer
                    } else {
                        n - 1
                    };
                    let dims: (usize, usize) = info.layer_dims[layer];
                    assert(dims.0 > 0 && dims.1 > 0);
                    self.layer = layer;
                    if self.input >= dims.0 - 1 {
                        self.input = dims.0 - 1;
                    }
                    if self.output >= dims.1 - 1 {
                        self.output = dims.1 - 1;
                    }
                }
            },
            None => {},
        }
    }

    /// The state once another edge is chosen: another layer starts at its
    /// first edge.
    pub open spec fn moved(self, layer: usize, input: usize, output: usize) -> KanState {
        if layer != self.layer {
            (KanState { layer, input: 0, output: 0, ..self }).placed()
        } else {
            (KanState { input, output, ..self }).placed()
        }
    }

    /// Another layer, input or output is chosen. Where that is another edge,
    /// its curve is asked for.
    pub fn choose_edge(&mut self, layer: usize, input: usize, output: usize) -> (command: Option<
        SampleKanEdge,
    >)
        requires
            old(self).wf(),
        ensures
            final(self).wf(),
            if layer != old(self).layer || input != old(self).input || output
                != old(self).output {
                old(self).moved(layer, input, output).edge_requested(*final(self), command)
            } else {
                *final(self) == old(self).placed() && command is None
            },
    {
        let changed: bool = layer != self.layer || input != self.input || output != self.output;
        if layer != self.layer {
            self.layer = layer;
            self.input = 0;
            self.output = 0;
        } else {
            self.input = input;
            self.output = output;
        }
        self.place();
        if changed {
            self.request_kan_curve()
        } else {
            None
        }
    }
}

/// The edges of the active KAN. `low` and `high` are the printed ends of its
/// grid.
pub open spec fn kan_curve_items(kan: KanState, low: Seq<char>, high: Seq<char>) -> Seq<ItemView> {
    let head = seq![ItemView::Heading("KAN: функции рёбер"@)];
    match kan.info {
        None => head.push(
            ItemView::Label(
                "Обучите или загрузите KAN-модель, чтобы увидеть функции её рёбер."@,
            ),
        ),
        Some(info) => if info.layer_dims@.len() == 0 {
            head.push(ItemView::Label("В модели нет KAN-слоёв."@))
        } else {
            let dims = info.layer_dims@[kan.layer as int];
            let p = head + seq![
                ItemView::Choice {
                    field: Field::KanLayer,
                    label: "слой"@,
                    options: layer_texts(info.layer_dims@),
                    chosen: kan.layer,
                },
                number_item(Field::KanInput, "вход"@, 0, (dims.0 - 1) as usize),
                number_item(Field::KanOutput, "выход"@, 0, (dims.1 - 1) as usize),
                ItemView::Label(
                    "φ"@ + decimal(kan.input as nat) + "→"@ + decimal(kan.output as nat)
                        + "(x), слой "@ + decimal(kan.layer as nat) + "; x – "@ + if kan.layer
                        == 0 {
                        "нормализованный исходный вход"@
                    } else {
                        "активация предыдущего KAN-слоя"@
                    } + ", сетка ["@ + low + ", "@ + high + "]"@,
                ),
            ];
            if kan.curve@.len() == 0 {
                p.push(ItemView::Label("Выборка кривой…"@))
            } else {
                p.push(ItemView::Line { chart: Chart::KanEdge, name: "φ(x)"@ })
            }
        },
    }
}

/// The page of the edges, for a state that was placed.
pub fn ui_kan_curves(kan: &KanState, low: &str, high: &str) -> (page: Page)
    requires
        kan.wf(),
        *kan == kan.placed(),
    ensures
        page@ == kan_curve_items(*kan, low@, high@),
{
    let mut page: Page = Page::new();
    page.heading("KAN: функции рёбер");
    assert(page@ =~= seq![ItemView::Heading("KAN: функции рёбер"@)]);
    match &kan.info {
        None => {
            page.label("Обучите или загрузите KAN-модель, чтобы увидеть функции её рёбер.");
        },
        Some(info) => {
            if info.layer_dims.len() == 0 {
                page.label("В модели нет KAN-слоёв.");
                return page;
            }
            let dims: (usize, usize) = info.layer_dims[kan.layer];
            let mut edge: Page = Page::new();
            edge.choice(Field::KanLayer, "слой", layer_options(&info.layer_dims), kan.layer);
            edge.number(Field::KanInput, "вход", 0, dims.0 - 1);
            edge.number(Field::KanOutput, "выход", 0, dims.1 - 1);
            let mut text: String = owned("φ");
            text.append(decimal_text(kan.input as u64).as_str());
            text.append("→");
            text.append(decimal_text(kan.output as u64).as_str());
            text.append("(x), слой ");
            text.append(decimal_text(kan.layer as u64).as_str());
            text.append("; x – ");
            if kan.layer == 0 {
                text.append("нормализованный исходный вход");
            } else {
                text.append("активация предыдущего KAN-слоя");
            }
            text.append(", сетка [");
            text.append(low);
            text.append(", ");
            text.append(high);
            text.append("]");
            edge.label(text.as_str());
            assert(edge@ =~= seq![
                ItemView::Choice {
                    field: Field::KanLayer,
                    label: "слой"@,
                    options: layer_texts(info.layer_dims@),
                    chosen: kan.layer,
                },
                number_item(Field::KanInput, "вход"@, 0, (dims.0 - 1) as usize),
                number_item(Field::KanOutput, "выход"@, 0, (dims.1 - 1) as usize),
                ItemView::Label(
                    "φ"@ + decimal(kan.input as nat) + "→"@ + decimal(kan.output as nat)
                        + "(x), слой "@ + decimal(kan.layer as nat) + "; x – "@ + if kan.layer
                        == 0 {
                        "нормализованный исходный вход"@
                    } else {
                        "активация предыдущего KAN-слоя"@
                    } + ", сетка ["@ + low@ + ", "@ + high@ + "]"@,
                ),
            ]);
            page.append(edge);
            if kan.curve.len() == 0 {
                page.label("Выборка кривой…");
            } else {
                page.line(Chart::KanEdge, "φ(x)");
            }
        },
    }
    page
}

/// The printed numbers of extracted formulas.
#[derive(Debug)]
pub struct ShownFormulas {
    pub r2: String,
    pub kan_r2: String,
    pub rmse: String,
    /// In per cent.
    pub rel_error: String,
    pub min_edge_r2: String,
    pub mean_edge_r2: String,
    /// Of each badly fitted edge, in their order.
    pub weak_r2: Vec<String>,
}

/// The data on which a final model is compared were used to train it.
pub open spec fn whole_data() -> Seq<char> {
    "train+validation"@
}

/// How well the formulas follow the model.
pub open spec fn formula_rows(result: KanSymbolicInfo, shown: ShownFormulas) -> Seq<ItemView> {
    let p = match (result.formula_metrics, result.kan_r2, result.evaluation_label) {
        (Some(_), Some(_), Some(label)) => {
            let p = seq![
                ItemView::Row(
                    seq![
                        "R² формул на "@ + label@,
                        shown.r2@ + " (KAN: "@ + shown.kan_r2@ + ")"@,
                    ],
                ),
                ItemView::Row(
                    seq![
                        "Ошибка формул"@,
                        "RMSE "@ + shown.rmse@ + ", rel. "@ + shown.rel_error@ + "%"@,
                    ],
                ),
            ];
            if label@ == whole_data() {
                p.push(
                    ItemView::Row(
                        seq![
                            "Интерпретация"@,
                            "верность формул финальной модели, не оценка обобщения"@,
                        ],
                    ),
                )
            } else {
                p
            }
        },
        _ => seq![
            ItemView::Row(
                seq![
                    "Сравнение формул с KAN"@,
                    "недоступно: модель из checkpoint-а без набора оценки"@,
                ],
            ),
        ],
    };
    p.push(
        ItemView::Row(
            seq![
                "Подгонка активных рёбер"@,
                "min R² "@ + shown.min_edge_r2@ + ", среднее R² "@ + shown.mean_edge_r2@,
            ],
        ),
    )
}

fn two(a: &str, b: &str) -> (list: Vec<String>)
    ensures
        texts(list@) == seq![a@, b@],
{
    let mut list: Vec<String> = Vec::new();
    list.push(owned(a));
    list.push(owned(b));
    assert(texts(list@) =~= seq![a@, b@]);
    list
}

fn formula_table(result: &KanSymbolicInfo, shown: &ShownFormulas) -> (page: Page)
    ensures
        page@ == formula_rows(*result, *shown),
{
    let mut page: Page = Page::new();
    match (&result.formula_metrics, &result.kan_r2, &result.evaluation_label) {
        (Some(_), Some(_), Some(label)) => {
            let mut name: String = owned("R² формул на ");
            name.append(label.as_str());
            let mut value: String = owned(shown.r2.as_str());
            value.append(" (KAN: ");
            value.append(shown.kan_r2.as_str());
            value.append(")");
            page.row(two(name.as_str(), value.as_str()));
            let mut error: String = owned("RMSE ");
            error.append(shown.rmse.as_str());
            error.append(", rel. ");
            error.append(shown.rel_error.as_str());
            error.append("%");
            page.row(two("Ошибка формул", error.as_str()));
            if same(label.as_str(), "train+validation") {
                page.row(
                    two("Интерпретация", "верность формул финальной модели, не оценка обобщения"),
                );
            }
        },
        _ => {
            page.row(
                two(
                    "Сравнение формул с KAN",
                    "недоступно: модель из checkpoint-а без набора оценки",
                ),
            );
        },
    }
    let mut fit: String = owned("min R² ");
    fit.append(shown.min_edge_r2.as_str());
    fit.append(", среднее R² ");
    fit.append(shown.mean_edge_r2.as_str());
    page.row(two("Подгонка активных рёбер", fit.as_str()));
    assert(page@ =~= formula_rows(*result, *shown));
    page
}

/// The badly fitted edges.
pub open spec fn weak_rows(result: KanSymbolicInfo, shown: ShownFormulas) -> Seq<ItemView> {
    Seq::new(
        result.weak_edges@.len(),
        |i: int|
            ItemView::Row(
                seq![
                    decimal(result.weak_edges@[i].layer as nat),
                    result.weak_edges@[i].input@,
                    result.weak_edges@[i].output@,
                    result.weak_edges@[i].primitive@,
                    shown.weak_r2@[i]@,
                ],
            ),
    )
}

pub open spec fn weak_items(result: KanSymbolicInfo, shown: ShownFormulas) -> Seq<ItemView> {
    if result.weak_edges@.len() == 0 {
        seq![ItemView::Label("Все активные рёбра подогнаны с R² ≥ 0.99."@)]
    } else {
        seq![
            ItemView::Separator,
            ItemView::Warning(
                decimal(result.weak_edges@.len())
                    + " приближённых рёбер (R² < 0.99): формулы для них требуют проверки."@,
            ),
            ItemView::Row(seq!["слой"@, "вход"@, "выход"@, "примитив"@, "R²"@]),
        ] + weak_rows(result, shown)
    }
}

fn weak_page(result: &KanSymbolicInfo, shown: &ShownFormulas) -> (page: Page)
    requires
        result.weak_edges@.len() == shown.weak_r2@.len(),
    ensures
        page@ == weak_items(*result, *shown),
{
    let mut page: Page = Page::new();
    if result.weak_edges.len() == 0 {
        page.label("Все активные рёбра подогнаны с R² ≥ 0.99.");
        assert(page@ =~= weak_items(*result, *shown));
        return page;
    }
    page.separator();
    let mut text: String = decimal_text(result.weak_edges.len() as u64);
    text.append(" приближённых рёбер (R² < 0.99): формулы для них требуют проверки.");
    page.warning(text.as_str());
    let head: Vec<String> = words(&["слой", "вход", "выход", "примитив", "R²"]);
    assert(texts(head@) =~= seq!["слой"@, "вход"@, "выход"@, "примитив"@, "R²"@]);
    page.row(head);
    let ghost top = seq![
        ItemView::Separator,
        ItemView::Warning(
            decimal(result.weak_edges@.len())
                + " приближённых рёбер (R² < 0.99): формулы для них требуют проверки."@,
        ),
        ItemView::Row(seq!["слой"@, "вход"@, "выход"@, "примитив"@, "R²"@]),
    ];
    assert(page@ =~= top);
    let ghost rows = weak_rows(*result, *shown);
    let mut i: usize = 0;
    while i < result.weak_edges.len()
        invariant
            i <= result.weak_edges@.len(),
            result.weak_edges@.len() == shown.weak_r2@.len(),
            rows == weak_rows(*result, *shown),
            page@ == top + rows.take(i as int),
        decreases result.weak_edges.len() - i,
    {
        let mut cells: Vec<String> = Vec::new();
        cells.push(decimal_text(result.weak_edges[i].layer as u64));
        cells.push(owned(result.weak_edges[i].input.as_str()));
        cells.push(owned(result.weak_edges[i].output.as_str()));
        cells.push(owned(result.weak_edges[i].primitive.as_str()));
        cells.push(owned(shown.weak_r2[i].as_str()));
        assert(ItemView::Row(texts(cells@)) == rows[i as int]) by {
            assert(texts(cells@) =~= seq![
                decimal(result.weak_edges@[i as int].layer as nat),
                result.weak_edges@[i as int].input@,
                result.weak_edges@[i as int].output@,
                result.weak_edges@[i as int].primitive@,
                shown.weak_r2@[i as int]@,
            ]);
        }
        page.row(cells);
        i += 1;
        assert(page@ =~= top + rows.take(i as int));
    }
    assert(rows.take(i as int) =~= rows);
    page
}

/// The formulas of the active KAN. They can be extracted only where the
/// model brings the activations they are fitted to.
pub open spec fn kan_formula_items(kan: KanState, busy: bool, shown: ShownFormulas) -> Seq<
    ItemView,
> {
    let head = seq![ItemView::Heading("KAN: символьные формулы"@)];
    match kan.info {
        None => head.push(ItemView::Label("Обучите KAN-модель, чтобы извлечь формулы."@)),
        Some(info) => if !info.symbolic_available {
            head.push(
                ItemView::Label(
                    "Checkpoint без калибровочной секции (сохранён старой версией): обучите KAN в этой сессии или пересохраните модель – новые .bin несут выборку train-активаций."@,
                ),
            )
        } else {
            let p = head.push(
                ItemView::Label(
                    "Фит строится по train-активациям, а ниже показаны формулы в исходных единицах данных."@,
                ),
            ).push(
                button_item(
                    Action::ExtractFormulas,
                    if kan.symbolic is Some {
                        "Обновить формулы"@
                    } else {
                        "Извлечь формулы"@
                    },
                    !busy,
                ),
            );
            if kan.pending {
                p.push(ItemView::Label("Подбор примитивов по рёбрам…"@))
            } else {
                match kan.symbolic {
                    None => p,
                    Some(result) => p.push(ItemView::Separator) + formula_rows(result, shown)
                        + seq![
                        button_item(Action::CopyFormulas, "Скопировать формулы"@, true),
                        ItemView::Separator,
                        ItemView::Label(result.formulas@),
                    ] + weak_items(result, shown),
                }
            }
        },
    }
}

pub fn ui_kan_formulas(kan: &KanState, busy: bool, shown: &ShownFormulas) -> (page: Page)
    requires
        kan.symbolic matches Some(result) ==> result.weak_edges@.len() == shown.weak_r2@.len(),
    ensures
        page@ == kan_formula_items(*kan, busy, *shown),
{
    let mut page: Page = Page::new();
    page.heading("KAN: символьные формулы");
    assert(page@ =~= seq![ItemView::Heading("KAN: символьные формулы"@)]);
    match &kan.info {
        None => {
            page.label("Обучите KAN-модель, чтобы извлечь формулы.");
        },
        Some(info) => {
            if !info.symbolic_available {
                page.label(
                    "Checkpoint без калибровочной секции (сохранён старой версией): обучите KAN в этой сессии или пересохраните модель – новые .bin несут выборку train-активаций.",
                );
                return page;
            }
            page.label(
                "Фит строится по train-активациям, а ниже показаны формулы в исходных единицах данных.",
            );
            page.button(
                Action::ExtractFormulas,
                if kan.symbolic.is_some() {
                    "Обновить формулы"
                } else {
                    "Извлечь формулы"
                },
                !busy,
            );
            if kan.pending {
                page.label("Подбор примитивов по рёбрам…");
            } else if let Some(result) = &kan.symbolic {
                page.separator();
                page.append(formula_table(result, shown));
                let mut rest: Page = Page::new();
                rest.button(Action::CopyFormulas, "Скопировать формулы", true);
                rest.separator();
                rest.label(result.formulas.as_str());
                assert(rest@ =~= seq![
                    button_item(Action::CopyFormulas, "Скопировать формулы"@, true),
                    ItemView::Separator,
                    ItemView::Label(result.formulas@),
                ]);
                page.append(rest);
                page.append(weak_page(result, shown));
            }
        },
    }
    page
}

/// The printed numbers of the diagnostics.
#[derive(Debug)]
pub struct ShownDiagnostics {
    pub overfit_loss: String,
    /// Of each input: how often the residual changes its sign, in per cent,
    /// and how its tails compare.
    pub residuals: Vec<(String, String)>,
    /// The mean and the largest ratio of the model.
    pub model: (String, String),
    pub reference: (String, String),
    pub divergence: String,
}

/// A line for each input.
pub open spec fn residual_rows(
    residuals: Seq<(Single, Single)>,
    shown: Seq<(String, String)>,
) -> Seq<ItemView> {
    Seq::new(
        residuals.len(),
        |i: int| ItemView::Row(seq![decimal(i as nat), shown[i].0@ + "%"@, shown[i].1@]),
    )
}

fn residual_page(residuals: &Vec<(Single, Single)>, shown: &Vec<(String, String)>) -> (page: Page)
    requires
        shown@.len() == residuals@.len(),
    ensures
        page@ == residual_rows(residuals@, shown@),
{
    let mut page: Page = Page::new();
    let ghost rows = residual_rows(residuals@, shown@);
    let mut i: usize = 0;
    while i < residuals.len()
        invariant
            i <= residuals@.len(),
            shown@.len() == residuals@.len(),
            rows == residual_rows(residuals@, shown@),
            page@ == rows.take(i as int),
        decreases residuals.len() - i,
    {
        let mut cells: Vec<String> = Vec::new();
        cells.push(decimal_text(i as u64));
        let mut changes: String = owned(shown[i].0.as_str());
        changes.append("%");
        cells.push(changes);
        cells.push(owned(shown[i].1.as_str()));
        assert(ItemView::Row(texts(cells@)) == rows[i as int]) by {
            assert(texts(cells@) =~= seq![
                decimal(i as nat),
                shown@[i as int].0@ + "%"@,
                shown@[i as int].1@,
            ]);
        }
        page.row(cells);
        i += 1;
        assert(page@ =~= rows.take(i as int));
    }
    assert(rows.take(i as int) =~= rows);
    page
}

/// How sensitive the model is, beside the process where it is known.
pub open spec fn sensitivity_items(info: SensitivityReport, shown: ShownDiagnostics) -> Seq<ItemView> {
    let p = seq![
        ItemView::Label(
            "Чувствительность ‖Δy‖/‖Δx‖ (норм., "@ + decimal(info.pairs as nat)
                + " пар соседних строк):"@,
        ),
        ItemView::Label("  модель: среднее "@ + shown.model.0@ + ", макс "@ + shown.model.1@),
    ];
    let p = if info.reference is Some && info.divergence is Some {
        p.push(
            ItemView::Label(
                "  процесс: среднее "@ + shown.reference.0@ + ", макс "@ + shown.reference.1@,
            ),
        ).push(
            ItemView::Label(
                "  расхождение средних: "@ + shown.divergence@
                    + " (надёжность видна по нему вместе с метриками на validation)"@,
            ),
        )
    } else {
        p.push(ItemView::Label("  процесс: недоступен (известен только у встроенной задачи)"@))
    };
    if info.categorical_inputs > 0 {
        p.push(
            ItemView::Label(
                "  категориальные входы ("@ + decimal(info.categorical_inputs as nat)
                    + ") не возмущались"@,
            ),
        )
    } else {
        p
    }
}

fn sensitivity_page(info: &SensitivityReport, shown: &ShownDiagnostics) -> (page: Page)
    ensures
        page@ == sensitivity_items(*info, *shown),
{
    let mut page: Page = Page::new();
    let mut pairs: String = owned("Чувствительность ‖Δy‖/‖Δx‖ (норм., ");
    pairs.append(decimal_text(info.pairs as u64).as_str());
    pairs.append(" пар соседних строк):");
    page.label(pairs.as_str());
    let mut model: String = owned("  модель: среднее ");
    model.append(shown.model.0.as_str());
    model.append(", макс ");
    model.append(shown.model.1.as_str());
    page.label(model.as_str());
    if info.reference.is_some() && info.divergence.is_some() {
        let mut process: String = owned("  процесс: среднее ");
        process.append(shown.reference.0.as_str());
        process.append(", макс ");
        process.append(shown.reference.1.as_str());
        page.label(process.as_str());
        let mut apart: String = owned("  расхождение средних: ");
        apart.append(shown.divergence.as_str());
        apart.append(" (надёжность видна по нему вместе с метриками на validation)");
        page.label(apart.as_str());
    } else {
        page.label("  процесс: недоступен (известен только у встроенной задачи)");
    }
    if info.categorical_inputs > 0 {
        let mut text: String = owned("  категориальные входы (");
        text.append(decimal_text(info.categorical_inputs as u64).as_str());
        text.append(") не возмущались");
        page.label(text.as_str());
    }
    assert(page@ =~= sensitivity_items(*info, *shown));
    page
}

/// The results of the diagnostics.
pub open spec fn result_items(d: DiagnosticsResult, shown: ShownDiagnostics) -> Seq<ItemView> {
    let p = seq![
        ItemView::Separator,
        ItemView::Label("Overfit-проба: норм. train MSE = "@ + shown.overfit_loss@),
        ItemView::Label(
            if d.overfit_loss.less(Single { bits: ENOUGH }) {
                "  → ёмкости хватает (проблема в данных/обобщении)"@
            } else {
                "  → underfit: ёмкость или кодирование значений (value encoder / Fourier)"@
            },
        ),
        ItemView::Label(
            "Экстраполяция: "@ + decimal(d.extrapolation_rows as nat) + " из "@ + decimal(
                d.extrapolation_total as nat,
            ) + " строк ("@ + d.evaluation_label@ + ") вне обученного диапазона"@,
        ),
    ];
    let p = if d.evaluation_label@ == whole_data() {
        p.push(
            ItemView::Label(
                "Финальная модель обучена на этом наборе: диагностика описывает fit, а не обобщение."@,
            ),
        )
    } else {
        p
    };
    let p = p + seq![
        ItemView::Separator,
        ItemView::Label("Остаток по входным признакам:"@),
        ItemView::Row(seq!["признак"@, "смена знака"@, "tail/inner"@]),
    ] + residual_rows(d.residuals@, shown.residuals@) + seq![
        ItemView::Label(
            "(высокая смена знака → частота/Fourier; tail/inner>1.5 → масштаб/хвосты)"@,
        ),
        ItemView::Separator,
    ];
    match d.sensitivity {
        Ok(info) => p + sensitivity_items(info, shown),
        Err(e) => p.push(ItemView::Label("Чувствительность: не посчитана — "@ + e@)),
    }
}

fn result_page(d: &DiagnosticsResult, shown: &ShownDiagnostics) -> (page: Page)
    requires
        shown.residuals@.len() == d.residuals@.len(),
    ensures
        page@ == result_items(*d, *shown),
{
    let mut page: Page = Page::new();
    page.separator();
    let mut loss: String = owned("Overfit-проба: норм. train MSE = ");
    loss.append(shown.overfit_loss.as_str());
    page.label(loss.as_str());
    page.label(
        if d.overfit_loss.is_less(Single { bits: ENOUGH }) {
            "  → ёмкости хватает (проблема в данных/обобщении)"
        } else {
            "  → underfit: ёмкость или кодирование значений (value encoder / Fourier)"
        },
    );
    let mut outside: String = owned("Экстраполяция: ");
    outside.append(decimal_text(d.extrapolation_rows as u64).as_str());
    outside.append(" из ");
    outside.append(decimal_text(d.extrapolation_total as u64).as_str());
    outside.append(" строк (");
    outside.append(d.evaluation_label.as_str());
    outside.append(") вне обученного диапазона");
    page.label(outside.as_str());
    if same(d.evaluation_label.as_str(), "train+validation") {
        page.label(
            "Финальная модель обучена на этом наборе: диагностика описывает fit, а не обобщение.",
        );
    }
    let mut table: Page = Page::new();
    table.separator();
    table.label("Остаток по входным признакам:");
    let head: Vec<String> = words(&["признак", "смена знака", "tail/inner"]);
    assert(texts(head@) =~= seq!["признак"@, "смена знака"@, "tail/inner"@]);
    table.row(head);
    assert(table@ =~= seq![
        ItemView::Separator,
        ItemView::Label("Остаток по входным признакам:"@),
        ItemView::Row(seq!["признак"@, "смена знака"@, "tail/inner"@]),
    ]);
    page.append(table);
    page.append(residual_page(&d.residuals, &shown.residuals));
    let mut note: Page = Page::new();
    note.label("(высокая смена знака → частота/Fourier; tail/inner>1.5 → масштаб/хвосты)");
    note.separator();
    assert(note@ =~= seq![
        ItemView::Label(
            "(высокая смена знака → частота/Fourier; tail/inner>1.5 → масштаб/хвосты)"@,
        ),
        ItemView::Separator,
    ]);
    page.append(note);
    match &d.sensitivity {
        Ok(info) => {
            page.append(sensitivity_page(info, shown));
        },
        Err(e) => {
            let mut text: String = owned("Чувствительность: не посчитана — ");
            text.append(e.as_str());
            page.label(text.as_str());
        },
    }
    assert(page@ =~= result_items(*d, *shown));
    page
}

pub open spec fn diagnose_items(
    has_model: bool,
    result: Option<DiagnosticsResult>,
    shown: ShownDiagnostics,
) -> Seq<ItemView> {
    let head = seq![ItemView::Heading("Диагностика"@)];
    if !has_model {
        head.push(
            ItemView::Label(
                "Обучите модель в разделе «Обучение» — диагностика использует её данные."@,
            ),
        )
    } else {
        let p = head.push(button_item(Action::Diagnose, "Запустить диагностику"@, true));
        match result {
            Some(d) => p + result_items(d, shown),
            None => p,
        }
    }
}

/// The page of the diagnostics.
pub fn ui_diagnose(has_model: bool, result: &Option<DiagnosticsResult>, shown: &ShownDiagnostics) -> (page:
    Page)
    requires
        result matches Some(d) ==> shown.residuals@.len() == d.residuals@.len(),
    ensures
        page@ == diagnose_items(has_model, *result, *shown),
{
    let mut page: Page = Page::new();
    page.heading("Диагностика");
    assert(page@ =~= seq![ItemView::Heading("Диагностика"@)]);
    if !has_model {
        page.label("Обучите модель в разделе «Обучение» — диагностика использует её данные.");
        return page;
    }
    page.button(Action::Diagnose, "Запустить диагностику", true);
    if let Some(d) = result {
        page.append(result_page(d, shown));
    }
    page
}

/// The printed numbers of a pipeline's report on a development model: R²
/// before pruning, after it and after fine-tuning.
#[derive(Debug)]
pub struct ShownReports {
    pub profile: ShownProfile,
    pub before: String,
    pub pruned: String,
    pub tuned: String,
}

/// What the summary tells of the model besides the model itself. What does not
/// apply is not shown.
#[derive(Debug)]
pub struct ShownSummary {
    /// How the data of the model's run were divided.
    pub protocol: String,
    /// Why the model does not fit the active data.
    pub mismatch: Option<String>,
    /// The outputs by the names that are shown.
    pub output_names: Vec<String>,
    /// The numbers of the check of the model's run.
    pub validation: ShownEval,
    pub validation_protocol: String,
    pub spread: String,
    /// The numbers of the measurement of the model's run.
    pub measured: ShownEval,
    pub measured_protocol: String,
    pub reports: ShownReports,
}

/// The origin and the shape of a model.
pub open spec fn identity_items(info: ModelInfo, has_data: bool, shown: ShownSummary) -> Seq<
    ItemView,
> {
    let p = seq![
        ItemView::Label("Источник: "@ + info.source@),
        ItemView::Label("Модель: "@ + info.origin.name()),
    ];
    let p = if info.origin is Checkpoint {
        p
    } else {
        p.push(
            ItemView::Label(
                "Протокол: "@ + shown.protocol@ + "; конфигурация проверена на этих данных"@,
            ),
        )
    };
    let p = if info.origin is Final {
        p
    } else {
        p.push(
            ItemView::Warning(
                "Доступные данные использованы не полностью: validation осталась вне обучения. Для результата работы зафиксируйте кандидата и обучите финально."@,
            ),
        )
    };
    let p = p + seq![
        ItemView::Label("Параметров: "@ + decimal(info.parameter_count as nat)),
        ItemView::Label(
            "Входы: "@ + joined(info.schema@.inputs.map_values(|c: ColumnView| c.name), ", "@),
        ),
        ItemView::Label(
            "Выходы: "@ + joined(info.schema@.outputs.map_values(|c: ColumnView| c.name), ", "@),
        ),
    ];
    let p = match info.warning() {
        Some(w) => p.push(ItemView::Warning(w)),
        None => p,
    };
    match shown.mismatch {
        Some(reason) if has_data => p.push(
            ItemView::Warning("Не подходит к активным данным: "@ + reason@),
        ),
        _ => p,
    }
}

fn identity_page(info: &ModelInfo, has_data: bool, shown: &ShownSummary) -> (page: Page)
    ensures
        page@ == identity_items(*info, has_data, *shown),
{
    let mut page: Page = Page::new();
    let mut source: String = owned("Источник: ");
    source.append(info.source.as_str());
    page.label(source.as_str());
    let mut origin: String = owned("Модель: ");
    origin.append(info.origin.label());
    page.label(origin.as_str());
    let file: bool = match info.origin {
        ModelOrigin::Checkpoint => true,
        _ => false,
    };
    if !file {
        let mut protocol: String = owned("Протокол: ");
        protocol.append(shown.protocol.as_str());
        protocol.append("; конфигурация проверена на этих данных");
        page.label(protocol.as_str());
    }
    if !info.origin.is_final() {
        page.warning(
            "Доступные данные использованы не полностью: validation осталась вне обучения. Для результата работы зафиксируйте кандидата и обучите финально.",
        );
    }
    let mut shape: Page = Page::new();
    let mut count: String = owned("Параметров: ");
    count.append(decimal_text(info.parameter_count as u64).as_str());
    shape.label(count.as_str());
    let mut inputs: String = owned("Входы: ");
    inputs.append(join(&info.schema.input_names(), ", ").as_str());
    shape.label(inputs.as_str());
    let mut outputs: String = owned("Выходы: ");
    outputs.append(join(&info.schema.output_names(), ", ").as_str());
    shape.label(outputs.as_str());
    assert(shape@ =~= seq![
        ItemView::Label("Параметров: "@ + decimal(info.parameter_count as nat)),
        ItemView::Label(
            "Входы: "@ + joined(info.schema@.inputs.map_values(|c: ColumnView| c.name), ", "@),
        ),
        ItemView::Label(
            "Выходы: "@ + joined(info.schema@.outputs.map_values(|c: ColumnView| c.name), ", "@),
        ),
    ]);
    page.append(shape);
    if let Some(w) = info.categorical_warning() {
        page.warning(w.as_str());
    }
    if let Some(reason) = &shown.mismatch {
        if has_data {
            let mut text: String = owned("Не подходит к активным данным: ");
            text.append(reason.as_str());
            page.warning(text.as_str());
        }
    }
    assert(page@ =~= identity_items(*info, has_data, *shown));
    page
}

/// The estimates of the active model's own run: that of its check, and the one
/// on the test rows or why there is none.
pub open spec fn estimate_items(session: Session, shown: ShownSummary) -> Seq<ItemView> {
    let names = texts(shown.output_names@);
    let p = match session.model_check() {
        Some(run) => {
            let p = eval_lines("validation"@, shown.validation, names).push(
                ItemView::Label(
                    "Протокол: "@ + shown.validation_protocol@ + "; init seed "@ + decimal(
                        run.stamp.candidate.train.seed as nat,
                    ),
                ),
            );
            if run.stamp.split is KFold {
                p.push(ItemView::Label("Разброс R² между folds: ±"@ + shown.spread@))
            } else {
                p
            }
        },
        None => Seq::empty(),
    };
    match session.model_measure() {
        Some(d) => p + eval_lines(
            "test ("@ + decimal(d.eval.test_rows as nat) + " строк, единственный замер)"@,
            shown.measured,
            names,
        ).push(
            ItemView::Label(
                "Протокол: "@ + shown.measured_protocol@ + "; final init seed "@ + decimal(
                    d.eval.final_init_seed as nat,
                ),
            ),
        ),
        None => p.push(
            ItemView::Label(
                if session.model_check() is Some {
                    "Test отложен: его открывает только финальное обучение."@
                } else {
                    "Checkpoint не хранит метрики: они появятся после обучения в этой сессии."@
                },
            ),
        ),
    }
}

fn estimate_page(session: &Session, shown: &ShownSummary) -> (page: Page)
    ensures
        page@ == estimate_items(*session, *shown),
{
    let mut page: Page = Page::new();
    let check: Option<&CheckedRun> = session.check_of_model();
    if let Some(run) = check {
        page = show_metrics("validation", &shown.validation, &shown.output_names);
        let mut text: String = owned("Протокол: ");
        text.append(shown.validation_protocol.as_str());
        text.append("; init seed ");
        text.append(decimal_text(run.stamp.candidate.train.seed).as_str());
        page.label(text.as_str());
        if let SplitPlan::KFold { .. } = run.stamp.split {
            let mut text: String = owned("Разброс R² между folds: ±");
            text.append(shown.spread.as_str());
            page.label(text.as_str());
        }
    }
    match session.measure_of_model() {
        Some(d) => {
            let mut label: String = owned("test (");
            label.append(decimal_text(d.eval.test_rows as u64).as_str());
            label.append(" строк, единственный замер)");
            let mut test: Page = show_metrics(label.as_str(), &shown.measured, &shown.output_names);
            let mut text: String = owned("Протокол: ");
            text.append(shown.measured_protocol.as_str());
            text.append("; final init seed ");
            text.append(decimal_text(d.eval.final_init_seed).as_str());
            test.label(text.as_str());
            page.append(test);
        },
        None => {
            if check.is_some() {
                page.label("Test отложен: его открывает только финальное обучение.");
            } else {
                page.label(
                    "Checkpoint не хранит метрики: они появятся после обучения в этой сессии.",
                );
            }
        },
    }
    page
}

/// What the interpretation pipeline did to a development model and to the
/// final one.
pub open spec fn report_items(reports: InterpretReports, shown: ShownReports) -> Seq<ItemView> {
    let p = seq![ItemView::Separator];
    let p = match reports.profile {
        Some(profile) => p.push(ItemView::Label(shown.profile.line(profile))),
        None => p,
    };
    let p = match reports.development {
        Some(d) => {
            let p = if d.r2_before is Some && d.r2_after_prune is Some && d.r2_after_finetune is Some {
                p.push(
                    ItemView::Label(
                        "R² на validation: до прунинга "@ + shown.before@ + " → после "@
                            + shown.pruned@ + " → после fine-tune "@ + shown.tuned@,
                    ),
                )
            } else {
                p
            };
            p.push(ItemView::Label(pruned_text(d.active_edges)))
        },
        None => p,
    };
    match reports.final_model {
        Some(f) => {
            let p = match f.compaction {
                Some(c) => p.push(
                    ItemView::Label(
                        "Финальная модель: скрытых узлов "@ + decimal(c.nodes_before as nat)
                            + " → "@ + decimal(c.nodes_after as nat) + ", параметров "@ + decimal(
                            c.params_before as nat,
                        ) + " → "@ + decimal(c.params_after as nat),
                    ),
                ),
                None => p,
            };
            p.push(
                ItemView::Label("Активных рёбер финальной модели: "@ + edges_text(f.active_edges)),
            )
        },
        None => p,
    }
}

fn report_page(reports: &InterpretReports, shown: &ShownReports) -> (page: Page)
    ensures
        page@ == report_items(*reports, *shown),
{
    let mut page: Page = Page::new();
    page.separator();
    assert(page@ =~= seq![ItemView::Separator]);
    if let Some(profile) = &reports.profile {
        page.label(shown.profile.text(profile).as_str());
    }
    if let Some(d) = &reports.development {
        if d.r2_before.is_some() && d.r2_after_prune.is_some() && d.r2_after_finetune.is_some() {
            let mut text: String = owned("R² на validation: до прунинга ");
            text.append(shown.before.as_str());
            text.append(" → после ");
            text.append(shown.pruned.as_str());
            text.append(" → после fine-tune ");
            text.append(shown.tuned.as_str());
            page.label(text.as_str());
        }
        page.label(pruned_label(d.active_edges).as_str());
    }
    if let Some(f) = &reports.final_model {
        if let Some(c) = &f.compaction {
            let mut text: String = owned("Финальная модель: скрытых узлов ");
            text.append(decimal_text(c.nodes_before as u64).as_str());
            text.append(" → ");
            text.append(decimal_text(c.nodes_after as u64).as_str());
            text.append(", параметров ");
            text.append(decimal_text(c.params_before as u64).as_str());
            text.append(" → ");
            text.append(decimal_text(c.params_after as u64).as_str());
            page.label(text.as_str());
        }
        let mut text: String = owned("Активных рёбер финальной модели: ");
        text.append(edges_label(f.active_edges).as_str());
        page.label(text.as_str());
    }
    page
}

pub open spec fn summary_items(session: Session, shown: ShownSummary) -> Seq<ItemView> {
    match session.model_info {
        None => seq![ItemView::Label("Модель ещё не обучена и не загружена."@)],
        Some(m) => {
            let p = identity_items(m, session.dataset is Some, shown).push(ItemView::Separator)
                + estimate_items(session, shown);
            let p = match m.interpret {
                Some(reports) => p + report_items(reports, shown.reports),
                None => p,
            };
            p.push(button_item(Action::SaveModel, "Сохранить модель…"@, !session.is_busy()))
        },
    }
}

/// The summary of the active model. `shown` holds the printed numbers: those
/// of the check and of the measurement of the model's own run, output by
/// output.
pub fn ui_model_summary(session: &Session, shown: &ShownSummary) -> (page: Page)
    requires
        session.model_check() matches Some(run) ==> shown.validation.outputs()
            == run.eval.per_output@.len(),
        session.model_measure() matches Some(d) ==> shown.measured.outputs()
            == d.eval.per_output@.len(),
    ensures
        page@ == summary_items(*session, *shown),
{
    match &session.model_info {
        None => {
            let mut page: Page = Page::new();
            page.label("Модель ещё не обучена и не загружена.");
            assert(page@ =~= summary_items(*session, *shown));
            page
        },
        Some(m) => {
            let mut page: Page = identity_page(m, session.dataset.is_some(), shown);
            page.separator();
            page.append(estimate_page(session, shown));
            if let Some(reports) = &m.interpret {
                page.append(report_page(reports, &shown.reports));
            }
            page.button(Action::SaveModel, "Сохранить модель…", !session.busy());
            page
        },
    }
}

impl Session {
    /// Asks for formulas: the old ones go, and the window is busy until the
    /// new ones come.
    pub fn extract_formulas(&mut self)
        ensures
            *final(self) == (Session {
                kan: KanState { symbolic: None, pending: true, ..old(self).kan },
                status: final(self).status,
                ..*old(self)
            }),
            final(self).status@ == "символьная экстракция…"@,
    {
        self.kan.symbolic = None;
        self.kan.pending = true;
        self.status = owned("символьная экстракция…");
    }

    /// Asks for diagnostics: the old ones go.
    pub fn start_diagnostics(&mut self)
        ensures
            *final(self) == (Session {
                diagnostics: None,
                status: final(self).status,
                ..*old(self)
            }),
            final(self).status@ == "диагностика…"@,
    {
        self.diagnostics = None;
        self.status = owned("диагностика…");
    }
}

proof fn lemma_coded_names(columns: Seq<ColumnView>, n: int)
    requires
        0 <= n <= columns.len(),
    ensures
        forall|i: int|
            0 <= i < n && (#[trigger] columns[i]).levels is Some ==> coded_names(
                columns,
                n,
            ).contains(columns[i].name),
        coded_names(columns, n).len() == 0 <==> forall|i: int|
            0 <= i < n ==> (#[trigger] columns[i]).levels is None,
    decreases n,
{
    if n > 0 {
        lemma_coded_names(columns, n - 1);
        let before = coded_names(columns, n - 1);
        let now = coded_names(columns, n);
        assert forall|i: int| 0 <= i < n && (#[trigger] columns[i]).levels is Some implies
            now.contains(columns[i].name) by {
            if i < n - 1 {
                let k = before.index_of(columns[i].name);
                assert(now[k] == columns[i].name);
            } else {
                assert(now[before.len() as int] == columns[i].name);
            }
        }
        if columns[n - 1].levels is Some {
            assert(now.len() > 0);
        }
    }
}

/// A model other than a transformer is warned about exactly if one of its
/// inputs is a category; a transformer never is.
pub proof fn law_only_a_transformer_embeds_categories(info: ModelInfo)
    ensures
        info.warning() is Some <==> info.kind != ModelKind::Transformer && exists|i: int|
            0 <= i < info.schema@.inputs.len() && (
            #[trigger] info.schema@.inputs[i]).levels is Some,
{
    let columns = info.schema@.inputs;
    lemma_coded_names(columns, columns.len() as int);
}

/// A placed edge lies in the model. A choice that lies there already stays, one
/// beyond it goes to the last, and placing twice is placing once.
pub proof fn law_a_placed_edge_lies_in_the_model(kan: KanState)
    requires
        kan.wf(),
    ensures
        ({
            let placed = kan.placed();
            &&& placed.info == kan.info
            &&& placed.placed() == placed
            &&& (kan.info matches Some(info) && info.layer_dims@.len() > 0) ==> {
                let dims = kan.info->0.layer_dims@;
                &&& placed.layer < dims.len()
                &&& placed.input < dims[placed.layer as int].0
                &&& placed.output < dims[placed.layer as int].1
                &&& kan.layer < dims.len() ==> placed.layer == kan.layer
                &&& kan.layer < dims.len() && kan.input < dims[kan.layer as int].0
                    ==> placed.input == kan.input
                &&& kan.layer < dims.len() && kan.output < dims[kan.layer as int].1
                    ==> placed.output == kan.output
                &&& kan.layer >= dims.len() ==> placed.layer + 1 == dims.len()
                &&& kan.input >= dims[placed.layer as int].0 ==> placed.input + 1
                    == dims[placed.layer as int].0
                &&& kan.output >= dims[placed.layer as int].1 ==> placed.output + 1
                    == dims[placed.layer as int].1
            }
        }),
{
    if let Some(info) = kan.info {
        assert(info.layer_dims.len() == info.layer_dims@.len());
        if info.layer_dims@.len() > 0 {
            let layer = kan.placed().layer;
            assert(info.layer_dims@[layer as int].0 > 0 && info.layer_dims@[layer as int].1 > 0);
        }
    }
}

/// Another layer starts at its first edge; in the same layer the chosen input
/// and output are taken.
pub proof fn law_another_layer_starts_at_its_first_edge(
    kan: KanState,
    layer: usize,
    input: usize,
    output: usize,
)
    requires
        kan.wf(),
        kan.info matches Some(info) && layer < info.layer_dims@.len(),
    ensures
        ({
            let moved = kan.moved(layer, input, output);
            let dims = kan.info->0.layer_dims@[layer as int];
            &&& moved.layer == layer
            &&& layer != kan.layer ==> moved.input == 0 && moved.output == 0
            &&& layer == kan.layer && input < dims.0 ==> moved.input == input
            &&& layer == kan.layer && output < dims.1 ==> moved.output == output
        }),
{
    let info = kan.info->0;
    assert(info.layer_dims.len() == info.layer_dims@.len());
    assert(info.layer_dims@[layer as int].0 > 0 && info.layer_dims@[layer as int].1 > 0);
}

/// The capacity of a model is called sufficient exactly if the loss of the
/// probe is below 0.02, and it is said that the rows were used for training
/// exactly if they were.
pub proof fn law_the_verdict_follows_the_probe(d: DiagnosticsResult, shown: ShownDiagnostics)
    ensures
        result_items(d, shown).len() > 4,
        result_items(d, shown)[2] == ItemView::Label(
            if d.overfit_loss.less(Single { bits: 0x3ca3_d70a }) {
                "  → ёмкости хватает (проблема в данных/обобщении)"@
            } else {
                "  → underfit: ёмкость или кодирование значений (value encoder / Fourier)"@
            },
        ),
        if d.evaluation_label@ == "train+validation"@ {
            result_items(d, shown)[4] == ItemView::Label(
                "Финальная модель обучена на этом наборе: диагностика описывает fit, а не обобщение."@,
            )
        } else {
            result_items(d, shown)[4] == ItemView::Separator
        },
{
}

/// The process is spoken of exactly where the report speaks of it, and the
/// inputs that were not moved are counted exactly where there are any.
pub proof fn law_a_report_shows_what_it_holds(info: SensitivityReport, shown: ShownDiagnostics)
    ensures
        ({
            let items = sensitivity_items(info, shown);
            let process: int = if info.reference is Some && info.divergence is Some {
                2
            } else {
                1
            };
            let fixed: int = if info.categorical_inputs > 0 {
                1
            } else {
                0
            };
            &&& items.len() == 2 + process + fixed
            &&& process == 1 ==> items[2] == ItemView::Label(
                "  процесс: недоступен (известен только у встроенной задачи)"@,
            )
            &&& fixed == 1 ==> items.last() == ItemView::Label(
                "  категориальные входы ("@ + decimal(info.categorical_inputs as nat)
                    + ") не возмущались"@,
            )
        }),
{
}

/// Formulas can be extracted exactly where the active KAN brings the
/// activations for them, while nothing runs, and copied exactly where they are
/// shown.
pub proof fn law_formulas_are_offered_where_they_can_be_had(
    kan: KanState,
    busy: bool,
    shown: ShownFormulas,
)
    ensures
        ({
            let items = kan_formula_items(kan, busy, shown);
            let there = kan.info matches Some(info) && info.symbolic_available;
            &&& there ==> offers(items, Action::ExtractFormulas, !busy)
            &&& !there ==> withholds(items, Action::ExtractFormulas) && withholds(
                items,
                Action::CopyFormulas,
            )
            &&& there && kan.symbolic is Some && !kan.pending ==> offers(
                items,
                Action::CopyFormulas,
                true,
            )
            &&& kan.symbolic is None || kan.pending ==> withholds(items, Action::CopyFormulas)
        }),
{
    let p = kan_formula_items(kan, busy, shown);
    if let Some(info) = kan.info {
        if info.symbolic_available {
            assert(button_for(p[2], Action::ExtractFormulas));
            if let Some(result) = kan.symbolic {
                if !kan.pending {
                    let rows = formula_rows(result, shown);
                    assert(button_for(p[4 + rows.len() as int], Action::CopyFormulas));
                }
            }
        }
    }
}

/// Badly fitted edges are warned about exactly if there are any, and each of
/// them has a row.
pub proof fn law_weak_edges_are_listed(result: KanSymbolicInfo, shown: ShownFormulas)
    ensures
        result.weak_edges@.len() == 0 ==> forall|i: int|
            0 <= i < weak_items(result, shown).len() ==> !(#[trigger] weak_items(
                result,
                shown,
            )[i] is Warning) && !(weak_items(result, shown)[i] is Row),
        result.weak_edges@.len() > 0 ==> weak_items(result, shown)[1] is Warning && weak_items(
            result,
            shown,
        ).len() == 3 + result.weak_edges@.len(),
        forall|i: int|
            0 <= i < result.weak_edges@.len() ==> (weak_items(result, shown)[3 + i]
                matches ItemView::Row(cells) && cells[0] == decimal(
                (#[trigger] result.weak_edges@[i]).layer as nat,
            ) && cells[1] == result.weak_edges@[i].input@ && cells[2]
                == result.weak_edges@[i].output@),
{
}

/// Diagnostics are offered exactly where there is a model.
pub proof fn law_a_model_can_be_diagnosed(
    has_model: bool,
    result: Option<DiagnosticsResult>,
    shown: ShownDiagnostics,
)
    ensures
        has_model ==> offers(diagnose_items(has_model, result, shown), Action::Diagnose, true),
        !has_model ==> withholds(diagnose_items(has_model, result, shown), Action::Diagnose),
{
    let p = diagnose_items(has_model, result, shown);
    if has_model {
        assert(button_for(p[1], Action::Diagnose));
    }
}

/// Every model but a final one is marked as not trained on all the data.
pub proof fn law_unfinished_models_are_marked(info: ModelInfo, has_data: bool, shown: ShownSummary)
    ensures
        !(info.origin is Final) ==> warns(
            identity_items(info, has_data, shown),
            "Доступные данные использованы не полностью: validation осталась вне обучения. Для результата работы зафиксируйте кандидата и обучите финально."@,
        ),
        info.origin is Final && info.warning() is None && shown.mismatch is None ==> forall|i: int|
            0 <= i < identity_items(info, has_data, shown).len() ==> !(#[trigger] identity_items(
                info,
                has_data,
                shown,
            )[i] is Warning),
{
    let p = identity_items(info, has_data, shown);
    if !(info.origin is Final) {
        let k: int = if info.origin is Checkpoint {
            2
        } else {
            3
        };
        assert(p[k] == ItemView::Warning(
            "Доступные данные использованы не полностью: validation осталась вне обучения. Для результата работы зафиксируйте кандидата и обучите финально."@,
        ));
    }
}

/// The active model can be saved exactly where there is one and nothing runs.
pub proof fn law_a_model_is_saved_while_nothing_runs(session: Session, shown: ShownSummary)
    ensures
        session.model_info is Some ==> (summary_items(session, shown).last()
            matches ItemView::Button { action, enabled, .. } && action == Action::SaveModel
            && enabled == !session.is_busy()),
        session.model_info is None ==> withholds(summary_items(session, shown), Action::SaveModel),
{
}

/// An edge is drawn once it was sampled, and its layer, input and output are
/// asked for within the sizes of the layer.
pub proof fn law_a_sampled_edge_is_drawn(kan: KanState, low: Seq<char>, high: Seq<char>)
    ensures
        ({
            let items = kan_curve_items(kan, low, high);
            let layered = kan.info is Some && kan.info->0.layer_dims@.len() > 0;
            &&& draws(items, Chart::KanEdge) <==> layered && kan.curve@.len() > 0
            &&& asks_for(items, Field::KanLayer) <==> layered
            &&& layered ==> {
                let dims = kan.info->0.layer_dims@[kan.layer as int];
                &&& items[1] matches ItemView::Choice { options, chosen, .. } && options.len()
                    == kan.info->0.layer_dims@.len() && chosen == kan.layer
                &&& dims.0 > 0 ==> (items[2] matches ItemView::Number { field, low, high, .. }
                    && field == Field::KanInput && low == 0 && high + 1 == dims.0)
                &&& dims.1 > 0 ==> (items[3] matches ItemView::Number { field, low, high, .. }
                    && field == Field::KanOutput && low == 0 && high + 1 == dims.1)
            }
        }),
{
    let p = kan_curve_items(kan, low, high);
    if kan.info is Some && kan.info->0.layer_dims@.len() > 0 {
        assert(field_of(p[1]) == Some(Field::KanLayer));
        assert(p.len() == 6);
        assert(!(p[0] is Line) && !(p[1] is Line) && !(p[2] is Line) && !(p[3] is Line) && !(
        p[4] is Line));
        if kan.curve@.len() > 0 {
            assert(p[5] == (ItemView::Line { chart: Chart::KanEdge, name: "φ(x)"@ }));
        } else {
            assert(!(p[5] is Line));
        }
    } else {
        assert(p.len() == 2);
        assert(field_of(p[0]) is None && field_of(p[1]) is None);
    }
}

/// The part of the page that is shown is the one that is marked in its head.
pub proof fn law_the_head_marks_the_shown_part(view: ModelView)
    ensures
        model_head(view)[1] matches ItemView::Choice { options, chosen, .. } && options.len() == 4
            && options[chosen as int] == match view {
            ModelView::Summary => "Итоги"@,
            ModelView::KanCurves => "Кривые KAN"@,
            ModelView::KanFormulas => "Формулы"@,
            ModelView::Diagnose => "Диагностика"@,
        },
{
}

} // verus!

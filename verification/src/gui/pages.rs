//! The pages of the training, searching and converting forms.

use crate::config::ModelKind;
use crate::epoch_sweep::{label_of, source_label, EpochRow};
use crate::gui::forms::{OptimizeForm, TrainForm};
use crate::gui::messages::ModelOrigin;
use crate::gui::page::{
    asks_for, button_for, draws, field_of, four, offers, three, withholds, Action, Chart, Field,
    ItemView, Page,
};
use crate::gui::runs::{EpochSweepForm, SourceForm, SourceKind};
use crate::gui::shown::ShownMetrics;
use crate::gui::tabs::{Board, EpochBoard};
use crate::single::ONE;
use crate::sweep::{
    is_ranked, law_rank_order_finds_the_rows, law_ranking_orders_the_same_rows, places_taken,
    rank_order, ranked, sort_rows_with, SweepObjective, SweepRow,
};
use crate::text::{copy_texts, decimal, decimal_text, find_text, is_empty, owned, place_in, texts};
use vstd::prelude::*;
use vstd::string::StringExecFns;

verus! {

/// Single-precision values of the controls' bounds: 0.000001, 0.1, 128,
/// 0.99, -10 and 5.
pub const MILLIONTH: u32 = 0x3586_37bd;

pub const TENTH: u32 = 0x3dcc_cccd;

pub const HUNDRED_28: u32 = 0x4300_0000;

pub const NEARLY_ONE: u32 = 0x3f7d_70a4;

pub const MINUS_TEN: u32 = 0xc120_0000;

pub const FIVE: u32 = 0x40a0_0000;

/// In which words a form is labelled.
#[derive(Clone, Copy, Debug, PartialEq, Eq, Structural)]
pub enum Wording {
    Short,
    Full,
}

pub open spec fn number_item(field: Field, label: Seq<char>, low: usize, high: usize) -> ItemView {
    ItemView::Number { field, label, low, high }
}

pub open spec fn fraction_item(field: Field, label: Seq<char>, from: u32, to: u32) -> ItemView {
    ItemView::Real {
        field,
        label,
        from: crate::single::Single { bits: from },
        to: crate::single::Single { bits: to },
    }
}

pub open spec fn button_item(action: Action, label: Seq<char>, enabled: bool) -> ItemView {
    ItemView::Button { action, label, enabled }
}

pub open spec fn kind_number(kind: ModelKind) -> usize {
    match kind {
        ModelKind::Transformer => 0,
        ModelKind::Mlp => 1,
        ModelKind::Kan => 2,
    }
}

/// The choice of a model and the sizes that this model has. The bounds of
/// the Fourier encoder show only where it is chosen.
pub open spec fn model_items(form: TrainForm, wording: Wording) -> Seq<ItemView> {
    let full = wording == Wording::Full;
    let choice = ItemView::Choice {
        field: Field::Kind,
        label: "Модель:"@,
        options: seq!["transformer"@, "mlp"@, "kan"@],
        chosen: kind_number(form.kind),
    };
    match form.kind {
        ModelKind::Mlp => seq![
            choice,
            number_item(
                Field::MlpWidth,
                if full {
                    "ширина MLP"@
                } else {
                    "mlp width"@
                },
                1,
                2048,
            ),
            number_item(
                Field::MlpLayers,
                if full {
                    "слоёв MLP"@
                } else {
                    "mlp layers"@
                },
                1,
                12,
            ),
        ],
        ModelKind::Kan => seq![
            choice,
            number_item(
                Field::KanWidth,
                if full {
                    "ширина KAN"@
                } else {
                    "kan width"@
                },
                1,
                2048,
            ),
            number_item(
                Field::KanLayers,
                if full {
                    "слоёв KAN"@
                } else {
                    "kan layers"@
                },
                1,
                12,
            ),
            number_item(
                Field::KanGrid,
                if full {
                    "сетка KAN"@
                } else {
                    "kan grid"@
                },
                2,
                128,
            ),
        ],
        ModelKind::Transformer => {
            let base = seq![
                choice,
                number_item(Field::DModel, "d_model"@, 1, 1024),
                number_item(Field::Heads, "heads"@, 1, 32),
                number_item(
                    Field::Layers,
                    if full {
                        "слоёв"@
                    } else {
                        "layers"@
                    },
                    1,
                    12,
                ),
                number_item(Field::DFf, "d_ff"@, 1, 4096),
                ItemView::Choice {
                    field: Field::ValueEncoder,
                    label: "value-encoder"@,
                    options: seq!["linear"@, "mlp"@, "fourier"@],
                    chosen: form.venc,
                },
            ];
            if form.venc == 2 {
                base.push(number_item(Field::FourierBands, "fourier bands"@, 1, 64)).push(
                    fraction_item(Field::FourierScale, "fourier scale"@, TENTH, HUNDRED_28),
                )
            } else {
                base
            }
        },
    }
}

fn model_page(form: &TrainForm, wording: Wording) -> (page: Page)
    ensures
        page@ == model_items(*form, wording),
{
    let full: bool = wording == Wording::Full;
    let mut page: Page = Page::new();
    let kind: usize = match form.kind {
        ModelKind::Transformer => 0,
        ModelKind::Mlp => 1,
        ModelKind::Kan => 2,
    };
    page.choice(Field::Kind, "Модель:", three("transformer", "mlp", "kan"), kind);
    match form.kind {
        ModelKind::Mlp => {
            page.number(
                Field::MlpWidth,
                if full {
                    "ширина MLP"
                } else {
                    "mlp width"
                },
                1,
                2048,
            );
            page.number(
                Field::MlpLayers,
                if full {
                    "слоёв MLP"
                } else {
                    "mlp layers"
                },
                1,
                12,
            );
        },
        ModelKind::Kan => {
            page.number(
                Field::KanWidth,
                if full {
                    "ширина KAN"
                } else {
                    "kan width"
                },
                1,
                2048,
            );
            page.number(
                Field::KanLayers,
                if full {
                    "слоёв KAN"
                } else {
                    "kan layers"
                },
                1,
                12,
            );
            page.number(
                Field::KanGrid,
                if full {
                    "сетка KAN"
                } else {
                    "kan grid"
                },
                2,
                128,
            );
        },
        ModelKind::Transformer => {
            page.number(Field::DModel, "d_model", 1, 1024);
            page.number(Field::Heads, "heads", 1, 32);
            page.number(
                Field::Layers,
                if full {
                    "слоёв"
                } else {
                    "layers"
                },
                1,
                12,
            );
            page.number(Field::DFf, "d_ff", 1, 4096);
            page.choice(
                Field::ValueEncoder,
                "value-encoder",
                three("linear", "mlp", "fourier"),
                form.venc,
            );
            if form.venc == 2 {
                page.number(Field::FourierBands, "fourier bands", 1, 64);
                page.fraction(Field::FourierScale, "fourier scale", TENTH, HUNDRED_28);
            }
        },
    }
    assert(page@ =~= model_items(*form, wording));
    page
}

/// The schedule; its two numbers show only where it warms up.
pub open spec fn schedule_items(form: TrainForm) -> Seq<ItemView> {
    let check = ItemView::Check {
        field: Field::WarmupCosine,
        label: "scheduler: warmup-cosine"@,
    };
    if form.warmup_cosine {
        seq![
            check,
            fraction_item(Field::Warmup, "warmup"@, 0, NEARLY_ONE),
            fraction_item(Field::MinLrRatio, "min-lr-ratio"@, 0, ONE),
        ]
    } else {
        seq![check]
    }
}

fn schedule_page(form: &TrainForm) -> (page: Page)
    ensures
        page@ == schedule_items(*form),
{
    let mut page: Page = Page::new();
    page.check(Field::WarmupCosine, "scheduler: warmup-cosine");
    if form.warmup_cosine {
        page.fraction(Field::Warmup, "warmup", 0, NEARLY_ONE);
        page.fraction(Field::MinLrRatio, "min-lr-ratio", 0, ONE);
    }
    assert(page@ =~= schedule_items(*form));
    page
}

/// The numbers of a training.
pub open spec fn training_items(wording: Wording) -> Seq<ItemView> {
    let full = wording == Wording::Full;
    seq![
        fraction_item(Field::Lr, "lr"@, MILLIONTH, ONE),
        number_item(
            Field::Batch,
            if full {
                "размер пакета"@
            } else {
                "batch"@
            },
            1,
            8192,
        ),
        number_item(
            Field::Epochs,
            if full {
                "эпохи"@
            } else {
                "epochs"@
            },
            1,
            100000,
        ),
        ItemView::Whole { field: Field::Seed, label: "seed"@ },
    ]
}

fn training_page(wording: Wording) -> (page: Page)
    ensures
        page@ == training_items(wording),
{
    let full: bool = wording == Wording::Full;
    let mut page: Page = Page::new();
    page.fraction(Field::Lr, "lr", MILLIONTH, ONE);
    page.number(
        Field::Batch,
        if full {
            "размер пакета"
        } else {
            "batch"
        },
        1,
        8192,
    );
    page.number(
        Field::Epochs,
        if full {
            "эпохи"
        } else {
            "epochs"
        },
        1,
        100000,
    );
    page.whole(Field::Seed, "seed");
    assert(page@ =~= training_items(wording));
    page
}

/// A path, or what is shown where none was chosen.
pub open spec fn path_or(path: Seq<char>, none: Seq<char>) -> ItemView {
    ItemView::Label(
        if path.len() == 0 {
            none
        } else {
            path
        },
    )
}

pub(crate) fn show_path(page: &mut Page, path: &str, none: &str)
    ensures
        final(page)@ == old(page)@.push(path_or(path@, none@)),
{
    if is_empty(path) {
        page.label(none);
    } else {
        page.label(path);
    }
}

/// The data source of a training, in the window with tabs.
pub open spec fn source_items(source: SourceForm, tasks: Seq<Seq<char>>, busy: bool, markup_open: bool) -> Seq<
    ItemView,
> {
    let head = seq![
        ItemView::Heading("Train (numeric)"@),
        ItemView::Choice {
            field: Field::Source,
            label: ""@,
            options: seq!["Чёрный ящик"@, ".tnum файл"@, "Таблица"@],
            chosen: match source.kind {
                SourceKind::Blackbox => 0,
                SourceKind::Tnum => 1,
                SourceKind::Table => 2,
            },
        },
    ];
    match source.kind {
        SourceKind::Tnum => head.push(button_item(Action::ChooseFile, "Выбрать .tnum…"@, true)).push(
            path_or(source.file_path@, "(файл не выбран)"@),
        ).push(
            ItemView::Label(".tnum уже содержит подтверждённую схему — разметка не нужна."@),
        ),
        SourceKind::Table => {
            let open = head.push(button_item(Action::OpenTable, "Открыть таблицу…"@, !busy));
            match source.prepared {
                None => open.push(ItemView::Label("(таблица не размечена)"@)),
                Some(p) => open.push(
                    ItemView::Label(
                        p.name@ + ": "@ + decimal(p.data.inputs@.len()) + " строк, "@ + decimal(
                            p.schema@.inputs.len(),
                        ) + " вход → "@ + decimal(p.schema@.outputs.len()) + " выход"@,
                    ),
                ).push(
                    button_item(Action::Remark, "Разметить заново…"@, !markup_open && !busy),
                ),
            }
        },
        SourceKind::Blackbox => head.push(
            ItemView::Choice {
                field: Field::Blackbox,
                label: "чёрный ящик"@,
                options: tasks,
                chosen: place_in(tasks, source.blackbox@, 0) as usize,
            },
        ),
    }
}

fn source_page(source: &SourceForm, tasks: &Vec<String>, busy: bool, markup_open: bool) -> (page: Page)
    ensures
        page@ == source_items(*source, texts(tasks@), busy, markup_open),
{
    let mut page: Page = Page::new();
    page.heading("Train (numeric)");
    let chosen: usize = match source.kind {
        SourceKind::Blackbox => 0,
        SourceKind::Tnum => 1,
        SourceKind::Table => 2,
    };
    page.choice(Field::Source, "", three("Чёрный ящик", ".tnum файл", "Таблица"), chosen);
    match source.kind {
        SourceKind::Tnum => {
            page.button(Action::ChooseFile, "Выбрать .tnum…", true);
            show_path(&mut page, source.file_path.as_str(), "(файл не выбран)");
            page.label(".tnum уже содержит подтверждённую схему — разметка не нужна.");
        },
        SourceKind::Table => {
            page.button(Action::OpenTable, "Открыть таблицу…", !busy);
            match &source.prepared {
                None => {
                    page.label("(таблица не размечена)");
                },
                Some(p) => {
                    let mut text: String = owned(p.name.as_str());
                    text.append(": ");
                    text.append(decimal_text(p.data.inputs.nrows() as u64).as_str());
                    text.append(" строк, ");
                    text.append(decimal_text(p.schema.n_inputs() as u64).as_str());
                    text.append(" вход → ");
                    text.append(decimal_text(p.schema.n_outputs() as u64).as_str());
                    text.append(" выход");
                    page.label(text.as_str());
                    page.button(Action::Remark, "Разметить заново…", !markup_open && !busy);
                },
            }
        },
        SourceKind::Blackbox => {
            page.choice(Field::Blackbox, "чёрный ящик", copy_texts(tasks), find_text(tasks, source.blackbox.as_str()));
        },
    }
    assert(page@ =~= source_items(*source, texts(tasks@), busy, markup_open));
    page
}

/// What the training page knows besides its form.
#[derive(Debug)]
pub struct TrainView {
    pub busy: bool,
    pub training: bool,
    pub markup_open: bool,
    pub has_model: bool,
    pub parameter_count: Option<usize>,
    pub has_curve: bool,
    /// The estimate on the validation rows.
    pub metrics: Option<ShownMetrics>,
    /// The remark on categorical inputs of the active model.
    pub warning: Option<String>,
}

/// The buttons and results of a training.
pub open spec fn train_tail(view: TrainView) -> Seq<ItemView> {
    let p = seq![
        ItemView::Separator,
        button_item(Action::Run, "Train"@, !view.busy),
        button_item(Action::Cancel, "Cancel"@, view.training),
        button_item(Action::SaveModel, "Save model…"@, view.has_model && !view.busy),
    ];
    let p = match view.parameter_count {
        Some(n) => p.push(ItemView::Label("Параметров: "@ + decimal(n as nat))),
        None => p,
    };
    let p = if view.has_curve {
        p.push(ItemView::Line { chart: Chart::Loss, name: "train loss"@ })
    } else {
        p
    };
    let p = match view.metrics {
        Some(m) => p.push(ItemView::Separator).push(
            ItemView::Label("validation: "@ + m.line()),
        ).push(ItemView::Label("Test отложен и в этой сессии не открывается."@)),
        None => p,
    };
    match view.warning {
        Some(w) => p.push(ItemView::Warning(w@)),
        None => p,
    }
}

fn train_end(view: &TrainView) -> (page: Page)
    ensures
        page@ == train_tail(*view),
{
    let mut page: Page = Page::new();
    page.separator();
    page.button(Action::Run, "Train", !view.busy);
    page.button(Action::Cancel, "Cancel", view.training);
    page.button(Action::SaveModel, "Save model…", view.has_model && !view.busy);
    assert(page@ =~= seq![
        ItemView::Separator,
        button_item(Action::Run, "Train"@, !view.busy),
        button_item(Action::Cancel, "Cancel"@, view.training),
        button_item(Action::SaveModel, "Save model…"@, view.has_model && !view.busy),
    ]);
    if let Some(n) = view.parameter_count {
        let mut text: String = owned("Параметров: ");
        text.append(decimal_text(n as u64).as_str());
        page.label(text.as_str());
    }
    if view.has_curve {
        page.line(Chart::Loss, "train loss");
    }
    if let Some(m) = &view.metrics {
        page.separator();
        let mut text: String = owned("validation: ");
        text.append(m.text().as_str());
        page.label(text.as_str());
        page.label("Test отложен и в этой сессии не открывается.");
    }
    if let Some(w) = &view.warning {
        page.warning(w.as_str());
    }
    page
}

/// The training page of the window with tabs.
pub open spec fn train_items(
    source: SourceForm,
    form: TrainForm,
    tasks: Seq<Seq<char>>,
    view: TrainView,
) -> Seq<ItemView> {
    source_items(source, tasks, view.busy, view.markup_open).push(ItemView::Separator)
        + model_items(form, Wording::Short) + training_items(Wording::Short) + schedule_items(form)
        + train_tail(view)
}

pub fn ui_train(source: &SourceForm, form: &TrainForm, tasks: &Vec<String>, view: &TrainView) -> (page:
    Page)
    ensures
        page@ == train_items(*source, *form, texts(tasks@), *view),
{
    let mut page: Page = source_page(source, tasks, view.busy, view.markup_open);
    page.separator();
    page.append(model_page(form, Wording::Short));
    page.append(training_page(Wording::Short));
    page.append(schedule_page(form));
    page.append(train_end(view));
    page
}

/// How often the validation rows are measured; never more rarely than the
/// training is long.
pub open spec fn eval_items(eval_every: usize, epochs: usize) -> Seq<ItemView> {
    seq![
        number_item(Field::EvalEvery, "validation каждые"@, 0, epochs),
        ItemView::Label(
            if eval_every == 0 {
                "эпох (0 — не измерять по ходу)"@
            } else {
                "эпох"@
            },
        ),
    ]
}

/// The manual configuration: the model and its training, how often they are
/// measured, and the buttons. Checking is always possible while nothing
/// runs: it does not touch the test rows.
pub open spec fn single_items(
    form: TrainForm,
    eval_every: usize,
    interpret: Seq<ItemView>,
    busy: bool,
    training: bool,
    origin: Option<ModelOrigin>,
) -> Seq<ItemView> {
    let shown = if eval_every < form.epochs {
        eval_every
    } else {
        form.epochs
    };
    model_items(form, Wording::Full) + training_items(Wording::Full) + interpret + eval_items(
        shown,
        form.epochs,
    ) + schedule_items(form) + seq![
        ItemView::Separator,
        button_item(Action::Run, "Проверить конфигурацию"@, !busy),
        button_item(Action::Cancel, "Отмена"@, training),
        button_item(Action::SaveModel, ModelOrigin::save_name(origin), origin is Some && !busy),
    ]
}

pub fn ui_single_config(
    form: &TrainForm,
    eval_every: usize,
    interpret: Page,
    busy: bool,
    training: bool,
    origin: Option<ModelOrigin>,
) -> (page: Page)
    ensures
        page@ == single_items(*form, eval_every, interpret@, busy, training, origin),
{
    let shown: usize = if eval_every < form.epochs {
        eval_every
    } else {
        form.epochs
    };
    let mut page: Page = model_page(form, Wording::Full);
    page.append(training_page(Wording::Full));
    page.append(interpret);
    let mut eval: Page = Page::new();
    eval.number(Field::EvalEvery, "validation каждые", 0, form.epochs);
    if shown == 0 {
        eval.label("эпох (0 — не измерять по ходу)");
    } else {
        eval.label("эпох");
    }
    assert(eval@ =~= eval_items(shown, form.epochs));
    page.append(eval);
    page.append(schedule_page(form));
    let mut buttons: Page = Page::new();
    buttons.separator();
    buttons.button(Action::Run, "Проверить конфигурацию", !busy);
    buttons.button(Action::Cancel, "Отмена", training);
    buttons.button(
        Action::SaveModel,
        ModelOrigin::save_label(origin),
        origin.is_some() && !busy,
    );
    assert(buttons@ =~= seq![
        ItemView::Separator,
        button_item(Action::Run, "Проверить конфигурацию"@, !busy),
        button_item(Action::Cancel, "Отмена"@, training),
        button_item(Action::SaveModel, ModelOrigin::save_name(origin), origin is Some && !busy),
    ]);
    page.append(buttons);
    page
}

/// The rows of a learning curve: the epochs and the printed values.
pub open spec fn curve_rows(rows: Seq<EpochRow>, shown: Seq<Vec<String>>) -> Seq<ItemView> {
    Seq::new(
        rows.len(),
        |i: int| ItemView::Row(seq![decimal(rows[i].epochs as nat)] + texts(shown[i]@)),
    )
}

fn curve_rows_page(rows: &Vec<EpochRow>, shown: &Vec<Vec<String>>) -> (page: Page)
    requires
        rows@.len() == shown@.len(),
    ensures
        page@ == curve_rows(rows@, shown@),
{
    let mut page: Page = Page::new();
    let mut i: usize = 0;
    while i < rows.len()
        invariant
            i <= rows@.len(),
            rows@.len() == shown@.len(),
            page@ == curve_rows(rows@, shown@).take(i as int),
        decreases rows.len() - i,
    {
        let mut cells: Vec<String> = Vec::new();
        cells.push(decimal_text(rows[i].epochs as u64));
        let mut values: Vec<String> = copy_texts(&shown[i]);
        cells.append(&mut values);
        assert(texts(cells@) =~= seq![decimal(rows@[i as int].epochs as nat)] + texts(
            shown@[i as int]@,
        ));
        page.row(cells);
        i += 1;
        assert(page@ =~= curve_rows(rows@, shown@).take(i as int));
    }
    assert(curve_rows(rows@, shown@).take(i as int) =~= curve_rows(rows@, shown@));
    page
}

pub(crate) fn words(list: &[&'static str]) -> (out: Vec<String>)
    ensures
        texts(out@) == list@.map_values(|w: &'static str| w@),
{
    let mut out: Vec<String> = Vec::new();
    let mut i: usize = 0;
    while i < list.len()
        invariant
            i <= list@.len(),
            texts(out@) == list@.take(i as int).map_values(|w: &'static str| w@),
        decreases list@.len() - i,
    {
        let ghost before = out@;
        out.push(owned(list[i]));
        i += 1;
        assert(texts(out@) =~= texts(before).push(list@[i - 1]@));
        assert(texts(out@) =~= list@.take(i as int).map_values(|w: &'static str| w@));
    }
    assert(list@.take(i as int) =~= list@);
    out
}

/// The form of a learning curve.
pub open spec fn epoch_form_items(form: EpochSweepForm) -> Seq<ItemView> {
    seq![
        ItemView::Heading("Epoch-sweep"@),
        button_item(Action::ChooseFile, "Выбрать .tnum…"@, true),
        path_or(form.file_path@, "(файл не выбран)"@),
    ] + model_items(form.model, Wording::Short) + seq![
        ItemView::Entry { field: Field::Epochs, label: "epochs"@ },
        fraction_item(Field::Lr, "lr"@, MILLIONTH, ONE),
        number_item(Field::Batch, "batch"@, 1, 8192),
        ItemView::Whole { field: Field::Seed, label: "seed"@ },
        fraction_item(Field::TargetR2, "target-r2"@, MINUS_TEN, ONE),
        fraction_item(Field::MinGain, "min-r2-gain"@, 0, ONE),
        fraction_item(Field::PlateauMin, "plateau-min-r2"@, MINUS_TEN, ONE),
    ] + schedule_items(form.model)
}

fn epoch_form_page(form: &EpochSweepForm) -> (page: Page)
    ensures
        page@ == epoch_form_items(*form),
{
    let mut page: Page = Page::new();
    page.heading("Epoch-sweep");
    page.button(Action::ChooseFile, "Выбрать .tnum…", true);
    show_path(&mut page, form.file_path.as_str(), "(файл не выбран)");
    assert(page@ =~= seq![
        ItemView::Heading("Epoch-sweep"@),
        button_item(Action::ChooseFile, "Выбрать .tnum…"@, true),
        path_or(form.file_path@, "(файл не выбран)"@),
    ]);
    page.append(model_page(&form.model, Wording::Short));
    let mut numbers: Page = Page::new();
    numbers.entry(Field::Epochs, "epochs");
    numbers.fraction(Field::Lr, "lr", MILLIONTH, ONE);
    numbers.number(Field::Batch, "batch", 1, 8192);
    numbers.whole(Field::Seed, "seed");
    numbers.fraction(Field::TargetR2, "target-r2", MINUS_TEN, ONE);
    numbers.fraction(Field::MinGain, "min-r2-gain", 0, ONE);
    numbers.fraction(Field::PlateauMin, "plateau-min-r2", MINUS_TEN, ONE);
    assert(numbers@ =~= seq![
        ItemView::Entry { field: Field::Epochs, label: "epochs"@ },
        fraction_item(Field::Lr, "lr"@, MILLIONTH, ONE),
        number_item(Field::Batch, "batch"@, 1, 8192),
        ItemView::Whole { field: Field::Seed, label: "seed"@ },
        fraction_item(Field::TargetR2, "target-r2"@, MINUS_TEN, ONE),
        fraction_item(Field::MinGain, "min-r2-gain"@, 0, ONE),
        fraction_item(Field::PlateauMin, "plateau-min-r2"@, MINUS_TEN, ONE),
    ]);
    page.append(numbers);
    page.append(schedule_page(&form.model));
    page
}

/// The results of a learning curve. Nothing is applied while the curve still
/// grows.
pub open spec fn epoch_board_items(board: EpochBoard, busy: bool, shown: Seq<Vec<String>>) -> Seq<
    ItemView,
> {
    let p = seq![
        button_item(Action::Run, "Run"@, !busy),
        button_item(Action::Cancel, "Cancel"@, board.running),
        button_item(Action::SaveCsv, "Save CSV"@, board.rows@.len() > 0),
        button_item(
            Action::ApplyRecommended,
            "Apply recommended to Train"@,
            board.recommendation is Some && !board.running,
        ),
    ];
    let p = match board.total {
        Some(total) => p.push(
            ItemView::Label(
                "точек: "@ + decimal(total as nat) + "; готово: "@ + decimal(board.rows@.len()),
            ),
        ),
        None => p,
    };
    let p = match board.recommendation {
        Some((epochs, why)) => p.push(
            ItemView::Label(
                "Рекомендованная остановка: "@ + decimal(epochs as nat) + " эпох ("@ + why@ + ")"@,
            ),
        ),
        None => p,
    };
    let p = if board.cancelled {
        p.push(ItemView::Warning("Epoch-sweep отменён; показаны завершённые точки."@))
    } else {
        p
    };
    if board.rows@.len() > 0 {
        p.push(ItemView::Line { chart: Chart::EpochR2, name: "R²"@ }).push(
            ItemView::Line { chart: Chart::EpochLoss, name: "train loss"@ },
        ).push(ItemView::Row(seq!["epochs"@, "loss"@, "RMSE"@, "MAE"@, "rel"@, "R²"@]))
            + curve_rows(board.rows@, shown)
    } else {
        p
    }
}

fn epoch_board_page(board: &EpochBoard, busy: bool, shown: &Vec<Vec<String>>) -> (page: Page)
    requires
        board.rows@.len() == shown@.len(),
    ensures
        page@ == epoch_board_items(*board, busy, shown@),
{
    let mut page: Page = Page::new();
    page.button(Action::Run, "Run", !busy);
    page.button(Action::Cancel, "Cancel", board.running);
    page.button(Action::SaveCsv, "Save CSV", board.rows.len() > 0);
    page.button(
        Action::ApplyRecommended,
        "Apply recommended to Train",
        board.recommendation.is_some() && !board.running,
    );
    assert(page@ =~= seq![
        button_item(Action::Run, "Run"@, !busy),
        button_item(Action::Cancel, "Cancel"@, board.running),
        button_item(Action::SaveCsv, "Save CSV"@, board.rows@.len() > 0),
        button_item(
            Action::ApplyRecommended,
            "Apply recommended to Train"@,
            board.recommendation is Some && !board.running,
        ),
    ]);
    if let Some(total) = board.total {
        let mut text: String = owned("точек: ");
        text.append(decimal_text(total as u64).as_str());
        text.append("; готово: ");
        text.append(decimal_text(board.rows.len() as u64).as_str());
        page.label(text.as_str());
    }
    if let Some((epochs, why)) = &board.recommendation {
        let mut text: String = owned("Рекомендованная остановка: ");
        text.append(decimal_text(*epochs as u64).as_str());
        text.append(" эпох (");
        text.append(why.as_str());
        text.append(")");
        page.label(text.as_str());
    }
    if board.cancelled {
        page.warning("Epoch-sweep отменён; показаны завершённые точки.");
    }
    if board.rows.len() > 0 {
        page.line(Chart::EpochR2, "R²");
        page.line(Chart::EpochLoss, "train loss");
        let head: Vec<String> = words(&["epochs", "loss", "RMSE", "MAE", "rel", "R²"]);
        assert(texts(head@) =~= seq!["epochs"@, "loss"@, "RMSE"@, "MAE"@, "rel"@, "R²"@]);
        page.row(head);
        page.append(curve_rows_page(&board.rows, shown));
    }
    page
}

pub open spec fn epoch_sweep_items(
    form: EpochSweepForm,
    board: EpochBoard,
    busy: bool,
    shown: Seq<Vec<String>>,
) -> Seq<ItemView> {
    epoch_form_items(form) + epoch_board_items(board, busy, shown)
}

/// The page of the learning curve. `shown` holds the printed values of each
/// point.
pub fn ui_epoch_sweep(
    form: &EpochSweepForm,
    board: &EpochBoard,
    busy: bool,
    shown: &Vec<Vec<String>>,
) -> (page: Page)
    requires
        board.rows@.len() == shown@.len(),
    ensures
        page@ == epoch_sweep_items(*form, *board, busy, shown@),
{
    let mut page: Page = epoch_form_page(form);
    page.append(epoch_board_page(board, busy, shown));
    page
}

/// The four objectives of a search, by their numbers.
pub open spec fn objective_item(label: Seq<char>, chosen: usize) -> ItemView {
    ItemView::Choice {
        field: Field::Objective,
        label,
        options: seq!["worst-output R²"@, "aggregate R²"@, "mean-output R²"@, "aggregate nRMSE"@],
        chosen,
    }
}

pub(crate) fn add_objective(page: &mut Page, label: &str, chosen: usize)
    ensures
        final(page)@ == old(page)@.push(objective_item(label@, chosen)),
{
    page.choice(
        Field::Objective,
        label,
        four("worst-output R²", "aggregate R²", "mean-output R²", "aggregate nRMSE"),
        chosen,
    );
}

/// The architectures that a search goes through.
pub open spec fn kind_items() -> Seq<ItemView> {
    seq![
        ItemView::Check { field: Field::IncludeTransformer, label: "transformer"@ },
        ItemView::Check { field: Field::IncludeMlp, label: "mlp"@ },
        ItemView::Check { field: Field::IncludeKan, label: "kan"@ },
    ]
}

pub(crate) fn kinds_page() -> (page: Page)
    ensures
        page@ == kind_items(),
{
    let mut page: Page = Page::new();
    page.check(Field::IncludeTransformer, "transformer");
    page.check(Field::IncludeMlp, "mlp");
    page.check(Field::IncludeKan, "kan");
    assert(page@ =~= kind_items());
    page
}

/// What a preset stands for.
pub open spec fn preset_hint(preset: usize) -> Seq<char> {
    if preset == 1 {
        "Balanced: средняя сетка, поиск на 40 эпохах, один seed."@
    } else if preset == 2 {
        "Deep: широкая сетка, поиск на 40 эпохах, два seed (устойчивость выбора)."@
    } else {
        "Quick: короткий поиск на 25 эпохах – быстро сравнить transformer/MLP/KAN."@
    }
}

/// The form of a search on a file, with its price where it is known.
pub open spec fn optimize_form_items(form: OptimizeForm, size: Option<(usize, usize)>) -> Seq<
    ItemView,
> {
    let p = seq![
        ItemView::Heading("Optimize"@),
        button_item(Action::ChooseFile, "Выбрать .tnum…"@, true),
        path_or(form.file_path@, "(файл не выбран)"@),
        ItemView::Choice {
            field: Field::Preset,
            label: "preset"@,
            options: seq!["Quick"@, "Balanced"@, "Deep"@],
            chosen: form.preset,
        },
        objective_item("objective"@, form.search.objective),
    ] + kind_items() + seq![
        ItemView::Label(preset_hint(form.preset)),
        ItemView::Label(
            "Optimize только ищет конфиг. Финальное обучение делает Train после «Apply best» (на полном бюджете эпох)."@,
        ),
    ];
    match size {
        Some((configs, runs)) => p.push(
            ItemView::Label(
                "Оценка: "@ + decimal(configs as nat) + " конфигов, "@ + decimal(runs as nat)
                    + " прогонов (на реальных данных трансформер ~минуту/прогон)"@,
            ),
        ),
        None => p,
    }
}

fn optimize_form_page(form: &OptimizeForm, size: Option<(usize, usize)>) -> (page: Page)
    ensures
        page@ == optimize_form_items(*form, size),
{
    let mut page: Page = Page::new();
    page.heading("Optimize");
    page.button(Action::ChooseFile, "Выбрать .tnum…", true);
    show_path(&mut page, form.file_path.as_str(), "(файл не выбран)");
    page.choice(Field::Preset, "preset", three("Quick", "Balanced", "Deep"), form.preset);
    add_objective(&mut page, "objective", form.search.objective);
    assert(page@ =~= seq![
        ItemView::Heading("Optimize"@),
        button_item(Action::ChooseFile, "Выбрать .tnum…"@, true),
        path_or(form.file_path@, "(файл не выбран)"@),
        ItemView::Choice {
            field: Field::Preset,
            label: "preset"@,
            options: seq!["Quick"@, "Balanced"@, "Deep"@],
            chosen: form.preset,
        },
        objective_item("objective"@, form.search.objective),
    ]);
    page.append(kinds_page());
    let mut hints: Page = Page::new();
    hints.label(
        if form.preset == 1 {
            "Balanced: средняя сетка, поиск на 40 эпохах, один seed."
        } else if form.preset == 2 {
            "Deep: широкая сетка, поиск на 40 эпохах, два seed (устойчивость выбора)."
        } else {
            "Quick: короткий поиск на 25 эпохах – быстро сравнить transformer/MLP/KAN."
        },
    );
    hints.label(
        "Optimize только ищет конфиг. Финальное обучение делает Train после «Apply best» (на полном бюджете эпох).",
    );
    assert(hints@ =~= seq![
        ItemView::Label(preset_hint(form.preset)),
        ItemView::Label(
            "Optimize только ищет конфиг. Финальное обучение делает Train после «Apply best» (на полном бюджете эпох)."@,
        ),
    ]);
    page.append(hints);
    if let Some((configs, runs)) = size {
        let mut text: String = owned("Оценка: ");
        text.append(decimal_text(configs as u64).as_str());
        text.append(" конфигов, ");
        text.append(decimal_text(runs as u64).as_str());
        text.append(" прогонов (на реальных данных трансформер ~минуту/прогон)");
        page.label(text.as_str());
    }
    page
}

/// The number of a result; the best one has a mark.
pub open spec fn rank_text(i: nat) -> Seq<char> {
    if i == 0 {
        "*"@ + decimal(i + 1)
    } else {
        decimal(i + 1)
    }
}

pub(crate) fn rank_label(i: usize) -> (text: String)
    requires
        i < usize::MAX,
    ensures
        text@ == rank_text(i as nat),
{
    let number: String = decimal_text(i as u64 + 1);
    if i == 0 {
        let mut text: String = owned("*");
        text.append(number.as_str());
        text
    } else {
        number
    }
}

/// The rows of results: the number, the printed values, the configuration.
pub open spec fn result_rows(rows: Seq<SweepRow>, shown: Seq<Vec<String>>) -> Seq<ItemView> {
    Seq::new(
        rows.len(),
        |i: int|
            ItemView::Row(
                seq![rank_text(i as nat)] + texts(shown[i]@) + seq![rows[i].label@],
            ),
    )
}

pub(crate) fn results_page(rows: &Vec<SweepRow>, shown: &Vec<Vec<String>>) -> (page: Page)
    requires
        rows@.len() == shown@.len(),
    ensures
        page@ == result_rows(rows@, shown@),
{
    let mut page: Page = Page::new();
    let mut i: usize = 0;
    while i < rows.len()
        invariant
            i <= rows@.len(),
            rows@.len() == shown@.len(),
            page@ == result_rows(rows@, shown@).take(i as int),
        decreases rows.len() - i,
    {
        let mut cells: Vec<String> = Vec::new();
        cells.push(rank_label(i));
        let mut values: Vec<String> = copy_texts(&shown[i]);
        cells.append(&mut values);
        cells.push(owned(rows[i].label.as_str()));
        assert(texts(cells@) =~= seq![rank_text(i as nat)] + texts(shown@[i as int]@) + seq![
            rows@[i as int].label@,
        ]);
        page.row(cells);
        i += 1;
        assert(page@ =~= result_rows(rows@, shown@).take(i as int));
    }
    assert(result_rows(rows@, shown@).take(i as int) =~= result_rows(rows@, shown@));
    page
}

/// How far a grid is.
pub open spec fn progress_item(configs: usize, runs: usize, ready: nat) -> ItemView {
    ItemView::Label(
        "Конфигов: "@ + decimal(configs as nat) + "; прогонов: "@ + decimal(runs as nat)
            + "; готово: "@ + decimal(ready),
    )
}

pub(crate) fn add_progress(page: &mut Page, configs: usize, runs: usize, ready: usize)
    ensures
        final(page)@ == old(page)@.push(progress_item(configs, runs, ready as nat)),
{
    let mut text: String = owned("Конфигов: ");
    text.append(decimal_text(configs as u64).as_str());
    text.append("; прогонов: ");
    text.append(decimal_text(runs as u64).as_str());
    text.append("; готово: ");
    text.append(decimal_text(ready as u64).as_str());
    page.label(text.as_str());
}

/// The results of a search on a file; the best one can be taken over once
/// the search no longer runs.
pub open spec fn optimize_board_items(
    board: Board,
    objective: SweepObjective,
    busy: bool,
    shown: Seq<Vec<String>>,
) -> Seq<ItemView> {
    let best = board.rows@.len() > 0 && !board.running;
    let p = seq![
        button_item(Action::Run, "Run optimize"@, !busy),
        button_item(Action::Cancel, "Cancel"@, board.running),
        button_item(Action::ApplyToTrain, "Apply to Train"@, best),
        button_item(Action::CheckEpochs, "Check epochs"@, best),
    ];
    let p = match board.total {
        Some((configs, runs)) => p.push(progress_item(configs, runs, board.rows@.len())),
        None => p,
    };
    let p = if board.cancelled {
        p.push(ItemView::Warning("Optimize отменён; показаны завершённые конфиги."@))
    } else {
        p
    };
    if board.rows@.len() > 0 {
        let first = board.rows@[0];
        p.push(ItemView::Separator).push(
            ItemView::Label(
                "Ранжирование: "@ + objective.name() + "; метрики "@ + label_of(first.source)
                    + " (поиск на "@ + decimal(first.choice.epochs as nat) + " эпох; Apply -> "@
                    + decimal(first.choice.final_epochs as nat) + ")"@,
            ),
        ).push(
            ItemView::Row(
                seq![
                    "#"@,
                    "score"@,
                    "R²"@,
                    "worst y"@,
                    "mean y"@,
                    "aggr nRMSE"@,
                    "rel"@,
                    "config"@,
                ],
            ),
        ) + result_rows(board.rows@, shown)
    } else {
        p
    }
}

fn optimize_board_page(
    board: &Board,
    objective: SweepObjective,
    busy: bool,
    shown: &Vec<Vec<String>>,
) -> (page: Page)
    requires
        board.rows@.len() == shown@.len(),
    ensures
        page@ == optimize_board_items(*board, objective, busy, shown@),
{
    let best: bool = board.rows.len() > 0 && !board.running;
    let mut page: Page = Page::new();
    page.button(Action::Run, "Run optimize", !busy);
    page.button(Action::Cancel, "Cancel", board.running);
    page.button(Action::ApplyToTrain, "Apply to Train", best);
    page.button(Action::CheckEpochs, "Check epochs", best);
    assert(page@ =~= seq![
        button_item(Action::Run, "Run optimize"@, !busy),
        button_item(Action::Cancel, "Cancel"@, board.running),
        button_item(Action::ApplyToTrain, "Apply to Train"@, best),
        button_item(Action::CheckEpochs, "Check epochs"@, best),
    ]);
    if let Some((configs, runs)) = board.total {
        add_progress(&mut page, configs, runs, board.rows.len());
    }
    if board.cancelled {
        page.warning("Optimize отменён; показаны завершённые конфиги.");
    }
    if board.rows.len() > 0 {
        page.separator();
        let mut text: String = owned("Ранжирование: ");
        text.append(objective.label());
        text.append("; метрики ");
        text.append(source_label(board.rows[0].source).as_str());
        text.append(" (поиск на ");
        text.append(decimal_text(board.rows[0].choice.epochs as u64).as_str());
        text.append(" эпох; Apply -> ");
        text.append(decimal_text(board.rows[0].choice.final_epochs as u64).as_str());
        text.append(")");
        page.label(text.as_str());
        let head: Vec<String> = words(
            &["#", "score", "R²", "worst y", "mean y", "aggr nRMSE", "rel", "config"],
        );
        assert(texts(head@) =~= seq![
            "#"@,
            "score"@,
            "R²"@,
            "worst y"@,
            "mean y"@,
            "aggr nRMSE"@,
            "rel"@,
            "config"@,
        ]);
        page.row(head);
        page.append(results_page(&board.rows, shown));
    }
    page
}

pub open spec fn optimize_items(
    form: OptimizeForm,
    size: Option<(usize, usize)>,
    board: Board,
    busy: bool,
    shown: Seq<Vec<String>>,
) -> Seq<ItemView> {
    optimize_form_items(form, size) + optimize_board_items(
        board,
        SweepObjective::numbered(form.search.objective),
        busy,
        shown,
    )
}

/// The page of a search on a file whose results are ranked by the objective of
/// the form. `size` is the number of configurations and runs; `shown` holds the
/// printed values of each result.
pub fn ui_optimize(
    form: &OptimizeForm,
    size: Option<(usize, usize)>,
    board: &Board,
    busy: bool,
    shown: &Vec<Vec<String>>,
) -> (page: Page)
    requires
        board.rows@.len() == shown@.len(),
        is_ranked(board.rows@, SweepObjective::numbered(form.search.objective)),
    ensures
        page@ == optimize_items(*form, size, *board, busy, shown@),
{
    let mut page: Page = optimize_form_page(form, size);
    page.append(optimize_board_page(board, form.search.objective(), busy, shown));
    page
}

/// Ranks the results by the objective of the form and shows them. `shown`
/// holds the printed values of each result where it stood before.
pub fn ui_optimize_ranked(
    form: &OptimizeForm,
    size: Option<(usize, usize)>,
    board: &mut Board,
    busy: bool,
    shown: Vec<Vec<String>>,
) -> (page: Page)
    requires
        old(board).rows@.len() == shown@.len(),
    ensures
        *final(board) == (Board { rows: final(board).rows, ..*old(board) }),
        final(board).rows@ == ranked(
            old(board).rows@,
            SweepObjective::numbered(form.search.objective),
        ),
        page@ == optimize_items(
            *form,
            size,
            *final(board),
            busy,
            places_taken(
                rank_order(
                    old(board).rows@,
                    SweepObjective::numbered(form.search.objective),
                ),
                shown@,
            ),
        ),
{
    let objective: SweepObjective = form.search.objective();
    let mut moved: Vec<Vec<String>> = shown;
    proof {
        law_rank_order_finds_the_rows(board.rows@, objective);
        law_ranking_orders_the_same_rows(board.rows@, objective);
    }
    sort_rows_with(&mut board.rows, &mut moved, objective);
    ui_optimize(form, size, board, busy, &moved)
}

/// A training can start while nothing runs, only a running one can be
/// cancelled, and a model can be saved where there is one and nothing runs.
pub proof fn law_training_buttons_follow_the_state(view: TrainView)
    ensures
        offers(train_tail(view), Action::Run, !view.busy),
        offers(train_tail(view), Action::Cancel, view.training),
        offers(train_tail(view), Action::SaveModel, view.has_model && !view.busy),
        draws(train_tail(view), Chart::Loss) <==> view.has_curve,
{
    let p = train_tail(view);
    assert(button_for(p[1], Action::Run));
    assert(button_for(p[2], Action::Cancel));
    assert(button_for(p[3], Action::SaveModel));
    if view.has_curve {
        let k: int = if view.parameter_count is Some {
            5
        } else {
            4
        };
        assert(p[k] == (ItemView::Line { chart: Chart::Loss, name: "train loss"@ }));
    }
}

/// A learning curve can start while nothing runs and be cancelled while it
/// grows. What was found can be saved once there is a point, and the
/// recommendation is applied only once there is one and the curve no longer
/// grows.
pub proof fn law_learning_curve_buttons_follow_the_state(
    board: EpochBoard,
    busy: bool,
    shown: Seq<Vec<String>>,
)
    ensures
        offers(epoch_board_items(board, busy, shown), Action::Run, !busy),
        offers(epoch_board_items(board, busy, shown), Action::Cancel, board.running),
        offers(epoch_board_items(board, busy, shown), Action::SaveCsv, board.rows@.len() > 0),
        offers(
            epoch_board_items(board, busy, shown),
            Action::ApplyRecommended,
            board.recommendation is Some && !board.running,
        ),
{
    let p = epoch_board_items(board, busy, shown);
    assert(button_for(p[0], Action::Run));
    assert(button_for(p[1], Action::Cancel));
    assert(button_for(p[2], Action::SaveCsv));
    assert(button_for(p[3], Action::ApplyRecommended));
}

/// The best result of a search is taken over only once there is one and the
/// search no longer runs.
pub proof fn law_search_buttons_follow_the_state(
    board: Board,
    objective: SweepObjective,
    busy: bool,
    shown: Seq<Vec<String>>,
)
    ensures
        ({
            let items = optimize_board_items(board, objective, busy, shown);
            let best = board.rows@.len() > 0 && !board.running;
            &&& offers(items, Action::Run, !busy)
            &&& offers(items, Action::Cancel, board.running)
            &&& offers(items, Action::ApplyToTrain, best)
            &&& offers(items, Action::CheckEpochs, best)
        }),
{
    let p = optimize_board_items(board, objective, busy, shown);
    assert(button_for(p[0], Action::Run));
    assert(button_for(p[1], Action::Cancel));
    assert(button_for(p[2], Action::ApplyToTrain));
    assert(button_for(p[3], Action::CheckEpochs));
}

/// Every objective is listed under the number that stands for it.
pub proof fn law_objectives_are_listed_by_their_numbers(label: Seq<char>, chosen: usize)
    ensures
        objective_item(label, chosen) matches ItemView::Choice { field, options, chosen: c, .. }
            && field == Field::Objective && c == chosen && options.len() == 4 && (chosen < 4
            ==> options[chosen as int] == SweepObjective::numbered(chosen).name()),
{
}

/// Only the sizes of the chosen model are asked for, all of them, and the
/// bounds of the Fourier encoder only where a transformer has it.
pub proof fn law_only_the_sizes_of_the_chosen_model_are_asked_for(form: TrainForm, wording: Wording)
    ensures
        ({
            let items = model_items(form, wording);
            let transformer = form.kind == ModelKind::Transformer;
            &&& asks_for(items, Field::Kind)
            &&& asks_for(items, Field::MlpWidth) <==> form.kind == ModelKind::Mlp
            &&& asks_for(items, Field::MlpLayers) <==> form.kind == ModelKind::Mlp
            &&& asks_for(items, Field::KanWidth) <==> form.kind == ModelKind::Kan
            &&& asks_for(items, Field::KanLayers) <==> form.kind == ModelKind::Kan
            &&& asks_for(items, Field::KanGrid) <==> form.kind == ModelKind::Kan
            &&& asks_for(items, Field::DModel) <==> transformer
            &&& asks_for(items, Field::Heads) <==> transformer
            &&& asks_for(items, Field::Layers) <==> transformer
            &&& asks_for(items, Field::DFf) <==> transformer
            &&& asks_for(items, Field::ValueEncoder) <==> transformer
            &&& asks_for(items, Field::FourierBands) <==> transformer && form.venc == 2
            &&& asks_for(items, Field::FourierScale) <==> transformer && form.venc == 2
        }),
{
    let p = model_items(form, wording);
    assert(field_of(p[0]) == Some(Field::Kind));
    assert(p[1] == p[1] && p[2] == p[2]);
    match form.kind {
        ModelKind::Mlp => {
            assert(field_of(p[1]) == Some(Field::MlpWidth));
            assert(field_of(p[2]) == Some(Field::MlpLayers));
        },
        ModelKind::Kan => {
            assert(field_of(p[1]) == Some(Field::KanWidth));
            assert(field_of(p[2]) == Some(Field::KanLayers));
            assert(field_of(p[3]) == Some(Field::KanGrid));
        },
        ModelKind::Transformer => {
            assert(field_of(p[1]) == Some(Field::DModel));
            assert(field_of(p[2]) == Some(Field::Heads));
            assert(field_of(p[3]) == Some(Field::Layers));
            assert(field_of(p[4]) == Some(Field::DFf));
            assert(field_of(p[5]) == Some(Field::ValueEncoder));
            if form.venc == 2 {
                assert(field_of(p[6]) == Some(Field::FourierBands));
                assert(field_of(p[7]) == Some(Field::FourierScale));
            }
        },
    }
}

/// The two numbers of the schedule are asked for only where it warms up.
pub proof fn law_shares_are_asked_for_while_warming_up(form: TrainForm)
    ensures
        asks_for(schedule_items(form), Field::WarmupCosine),
        asks_for(schedule_items(form), Field::Warmup) <==> form.warmup_cosine,
        asks_for(schedule_items(form), Field::MinLrRatio) <==> form.warmup_cosine,
{
    let p = schedule_items(form);
    assert(field_of(p[0]) == Some(Field::WarmupCosine));
    if form.warmup_cosine {
        assert(field_of(p[1]) == Some(Field::Warmup));
        assert(field_of(p[2]) == Some(Field::MinLrRatio));
    }
}

/// A table of a training can be opened while nothing runs, and marked up again
/// only where it was marked up, nothing runs and no dialogue is open.
pub proof fn law_tables_are_marked_up_while_nothing_runs(
    source: SourceForm,
    tasks: Seq<Seq<char>>,
    busy: bool,
    markup_open: bool,
)
    ensures
        ({
            let items = source_items(source, tasks, busy, markup_open);
            &&& source.kind == SourceKind::Table ==> offers(items, Action::OpenTable, !busy)
            &&& source.kind == SourceKind::Table && source.prepared is Some ==> offers(
                items,
                Action::Remark,
                !markup_open && !busy,
            )
            &&& source.kind != SourceKind::Table || source.prepared is None ==> withholds(
                items,
                Action::Remark,
            )
            &&& source.kind == SourceKind::Tnum ==> offers(items, Action::ChooseFile, true)
            &&& source.kind == SourceKind::Blackbox <==> asks_for(items, Field::Blackbox)
        }),
{
    let p = source_items(source, tasks, busy, markup_open);
    match source.kind {
        SourceKind::Tnum => {
            assert(button_for(p[2], Action::ChooseFile));
        },
        SourceKind::Table => {
            assert(button_for(p[2], Action::OpenTable));
            if source.prepared is Some {
                assert(button_for(p[4], Action::Remark));
            }
        },
        SourceKind::Blackbox => {
            assert(field_of(p[2]) == Some(Field::Blackbox));
        },
    }
}

} // verus!

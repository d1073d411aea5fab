//! The pages of the plain grid, of the text model and of the converter.

use crate::epoch_sweep::{label_of, source_label};
use crate::gui::forms::SweepForm;
use crate::gui::page::{button_for, draws, four, offers, Action, Chart, Field, ItemView, Page};
use crate::gui::pages::{
    add_progress, button_item, fraction_item, number_item, path_or, progress_item, result_rows,
    results_page, show_path, words, Wording, FIVE, MILLIONTH,
};
use crate::gui::runs::{PrepareForm, TextForm};
use crate::gui::session::TextState;
use crate::gui::tabs::Board;
use crate::single::ONE;
use crate::text::{copy_texts, decimal, decimal_text, find_text, is_empty, owned, place_in, texts};
use vstd::prelude::*;
use vstd::string::StringExecFns;

verus! {

/// The lists that a grid is made of.
pub open spec fn axes_items() -> Seq<ItemView> {
    seq![
        ItemView::Entry { field: Field::Seeds, label: "seeds"@ },
        ItemView::Entry { field: Field::DModels, label: "d-models"@ },
        ItemView::Entry { field: Field::LayersList, label: "layers-list"@ },
        ItemView::Entry { field: Field::DFfs, label: "d-ffs"@ },
        ItemView::Entry { field: Field::Lrs, label: "lrs"@ },
        ItemView::Entry { field: Field::ValueEncoders, label: "value-encoders"@ },
        ItemView::Entry { field: Field::FourierScales, label: "fourier-scales"@ },
        number_item(Field::FourierBands, "fourier-bands"@, 1, 64),
        ItemView::Entry { field: Field::Schedulers, label: "schedulers"@ },
        number_item(Field::Epochs, "epochs"@, 1, 100000),
        number_item(Field::Batch, "batch-size"@, 1, 8192),
    ]
}

fn axes_page() -> (page: Page)
    ensures
        page@ == axes_items(),
{
    let mut page: Page = Page::new();
    page.entry(Field::Seeds, "seeds");
    page.entry(Field::DModels, "d-models");
    page.entry(Field::LayersList, "layers-list");
    page.entry(Field::DFfs, "d-ffs");
    page.entry(Field::Lrs, "lrs");
    page.entry(Field::ValueEncoders, "value-encoders");
    page.entry(Field::FourierScales, "fourier-scales");
    page.number(Field::FourierBands, "fourier-bands", 1, 64);
    page.entry(Field::Schedulers, "schedulers");
    page.number(Field::Epochs, "epochs", 1, 100000);
    page.number(Field::Batch, "batch-size", 1, 8192);
    assert(page@ =~= axes_items());
    page
}

/// The results of a plain grid. It can start while neither a training nor
/// another grid runs.
pub open spec fn grid_items(board: Board, training: bool, shown: Seq<Vec<String>>) -> Seq<ItemView> {
    let p = seq![
        button_item(Action::Run, "Run sweep"@, !training && !board.running),
        button_item(Action::Cancel, "Cancel"@, board.running),
    ];
    let p = match board.total {
        Some((configs, runs)) => p.push(progress_item(configs, runs, board.rows@.len())),
        None => p,
    };
    let p = if board.cancelled {
        p.push(ItemView::Warning("Sweep отменён; показаны завершённые конфиги."@))
    } else {
        p
    };
    if board.rows@.len() > 0 {
        p.push(ItemView::Separator).push(
            ItemView::Label("Источник метрик: "@ + label_of(board.rows@[0].source)),
        ).push(
            ItemView::Row(seq!["#"@, "R²"@, "std"@, "aggr nRMSE"@, "rel"@, "config"@]),
        ) + result_rows(board.rows@, shown)
    } else {
        p
    }
}

fn grid_page(board: &Board, training: bool, shown: &Vec<Vec<String>>) -> (page: Page)
    requires
        board.rows@.len() == shown@.len(),
    ensures
        page@ == grid_items(*board, training, shown@),
{
    let mut page: Page = Page::new();
    page.button(Action::Run, "Run sweep", !training && !board.running);
    page.button(Action::Cancel, "Cancel", board.running);
    assert(page@ =~= seq![
        button_item(Action::Run, "Run sweep"@, !training && !board.running),
        button_item(Action::Cancel, "Cancel"@, board.running),
    ]);
    if let Some((configs, runs)) = board.total {
        add_progress(&mut page, configs, runs, board.rows.len());
    }
    if board.cancelled {
        page.warning("Sweep отменён; показаны завершённые конфиги.");
    }
    if board.rows.len() > 0 {
        page.separator();
        let mut text: String = owned("Источник метрик: ");
        text.append(source_label(board.rows[0].source).as_str());
        page.label(text.as_str());
        let head: Vec<String> = words(&["#", "R²", "std", "aggr nRMSE", "rel", "config"]);
        assert(texts(head@) =~= seq!["#"@, "R²"@, "std"@, "aggr nRMSE"@, "rel"@, "config"@]);
        page.row(head);
        page.append(results_page(&board.rows, shown));
    }
    page
}

pub open spec fn sweep_items(
    form: SweepForm,
    tasks: Seq<Seq<char>>,
    board: Board,
    training: bool,
    shown: Seq<Vec<String>>,
) -> Seq<ItemView> {
    seq![
        ItemView::Heading("Sweep"@),
        ItemView::Choice {
            field: Field::Blackbox,
            label: "чёрный ящик"@,
            options: tasks,
            chosen: place_in(tasks, form.blackbox@, 0) as usize,
        },
        ItemView::Separator,
    ] + axes_items() + grid_items(board, training, shown)
}

/// The page of a plain grid on a built-in task. `shown` holds the printed
/// values of each result.
pub fn ui_sweep(
    form: &SweepForm,
    tasks: &Vec<String>,
    board: &Board,
    training: bool,
    shown: &Vec<Vec<String>>,
) -> (page: Page)
    requires
        board.rows@.len() == shown@.len(),
    ensures
        page@ == sweep_items(*form, texts(tasks@), *board, training, shown@),
{
    let mut page: Page = Page::new();
    page.heading("Sweep");
    page.choice(
        Field::Blackbox,
        "чёрный ящик",
        copy_texts(tasks),
        find_text(tasks, form.blackbox.as_str()),
    );
    page.separator();
    assert(page@ =~= seq![
        ItemView::Heading("Sweep"@),
        ItemView::Choice {
            field: Field::Blackbox,
            label: "чёрный ящик"@,
            options: texts(tasks@),
            chosen: place_in(texts(tasks@), form.blackbox@, 0) as usize,
        },
        ItemView::Separator,
    ]);
    page.append(axes_page());
    page.append(grid_page(board, training, shown));
    page
}

/// The form of the text model.
pub open spec fn text_form_items(form: TextForm, wording: Wording) -> Seq<ItemView> {
    seq![
        ItemView::Heading(
            if wording == Wording::Full {
                "Char-level LM"@
            } else {
                "Text"@
            },
        ),
        button_item(Action::ChooseFile, "Выбрать .txt…"@, true),
        path_or(form.file_path@, "(файл не выбран)"@),
        ItemView::Separator,
        number_item(Field::DModel, "d_model"@, 1, 1024),
        number_item(Field::Heads, "heads"@, 1, 32),
        number_item(Field::Layers, "layers"@, 1, 12),
        number_item(Field::DFf, "d_ff"@, 1, 4096),
        number_item(Field::Steps, "steps"@, 1, 200000),
        number_item(Field::Batch, "batch"@, 1, 1024),
        number_item(Field::CtxLen, "ctx_len"@, 1, 512),
        number_item(Field::TgtLen, "tgt_len"@, 1, 512),
        fraction_item(Field::Lr, "lr"@, MILLIONTH, ONE),
        ItemView::Whole { field: Field::Seed, label: "seed"@ },
    ]
}

fn text_form_page(form: &TextForm, wording: Wording) -> (page: Page)
    ensures
        page@ == text_form_items(*form, wording),
{
    let mut page: Page = Page::new();
    page.heading(
        if wording == Wording::Full {
            "Char-level LM"
        } else {
            "Text"
        },
    );
    page.button(Action::ChooseFile, "Выбрать .txt…", true);
    show_path(&mut page, form.file_path.as_str(), "(файл не выбран)");
    page.separator();
    page.number(Field::DModel, "d_model", 1, 1024);
    page.number(Field::Heads, "heads", 1, 32);
    page.number(Field::Layers, "layers", 1, 12);
    page.number(Field::DFf, "d_ff", 1, 4096);
    page.number(Field::Steps, "steps", 1, 200000);
    page.number(Field::Batch, "batch", 1, 1024);
    page.number(Field::CtxLen, "ctx_len", 1, 512);
    page.number(Field::TgtLen, "tgt_len", 1, 512);
    page.fraction(Field::Lr, "lr", MILLIONTH, ONE);
    page.whole(Field::Seed, "seed");
    assert(page@ =~= text_form_items(*form, wording));
    page
}

/// The buttons, the curve and the generation of the text model. A text is
/// generated only by a model that is ready and not being trained.
pub open spec fn text_run_items(state: TextState, busy: bool, wording: Wording) -> Seq<ItemView> {
    let full = wording == Wording::Full;
    let p = seq![
        button_item(
            Action::Run,
            if full {
                "Обучить text-модель"@
            } else {
                "Train text"@
            },
            !busy,
        ),
        button_item(
            Action::Cancel,
            if full {
                "Отмена"@
            } else {
                "Cancel"@
            },
            state.training,
        ),
    ];
    let p = if state.curve@.len() > 0 {
        p.push(ItemView::Line { chart: Chart::Perplexity, name: "perplexity"@ })
    } else {
        p
    };
    let p = match state.vocab_size {
        Some(n) => p.push(ItemView::Label("vocab: "@ + decimal(n as nat))),
        None => p,
    };
    let p = p + seq![
        ItemView::Separator,
        number_item(Field::TotalNew, "new chars"@, 1, 5000),
        fraction_item(Field::Temperature, "temperature"@, 0, FIVE),
        number_item(Field::TopK, "top_k"@, 0, 512),
        ItemView::Whole { field: Field::GenSeed, label: "rng seed"@ },
        ItemView::Entry { field: Field::SeedText, label: "seed text"@ },
        button_item(Action::Generate, "Generate"@, state.ready && !state.training),
    ];
    if state.generated@.len() > 0 {
        p.push(ItemView::Separator).push(ItemView::Label("generated"@)).push(
            ItemView::Label(state.generated@),
        )
    } else {
        p
    }
}

fn text_run_page(state: &TextState, busy: bool, wording: Wording) -> (page: Page)
    ensures
        page@ == text_run_items(*state, busy, wording),
{
    let full: bool = wording == Wording::Full;
    let mut page: Page = Page::new();
    page.button(
        Action::Run,
        if full {
            "Обучить text-модель"
        } else {
            "Train text"
        },
        !busy,
    );
    page.button(
        Action::Cancel,
        if full {
            "Отмена"
        } else {
            "Cancel"
        },
        state.training,
    );
    assert(page@ =~= seq![
        button_item(
            Action::Run,
            if full {
                "Обучить text-модель"@
            } else {
                "Train text"@
            },
            !busy,
        ),
        button_item(
            Action::Cancel,
            if full {
                "Отмена"@
            } else {
                "Cancel"@
            },
            state.training,
        ),
    ]);
    if state.curve.len() > 0 {
        page.line(Chart::Perplexity, "perplexity");
    }
    if let Some(n) = state.vocab_size {
        let mut text: String = owned("vocab: ");
        text.append(decimal_text(n as u64).as_str());
        page.label(text.as_str());
    }
    let mut rest: Page = Page::new();
    rest.separator();
    rest.number(Field::TotalNew, "new chars", 1, 5000);
    rest.fraction(Field::Temperature, "temperature", 0, FIVE);
    rest.number(Field::TopK, "top_k", 0, 512);
    rest.whole(Field::GenSeed, "rng seed");
    rest.entry(Field::SeedText, "seed text");
    rest.button(Action::Generate, "Generate", state.ready && !state.training);
    assert(rest@ =~= seq![
        ItemView::Separator,
        number_item(Field::TotalNew, "new chars"@, 1, 5000),
        fraction_item(Field::Temperature, "temperature"@, 0, FIVE),
        number_item(Field::TopK, "top_k"@, 0, 512),
        ItemView::Whole { field: Field::GenSeed, label: "rng seed"@ },
        ItemView::Entry { field: Field::SeedText, label: "seed text"@ },
        button_item(Action::Generate, "Generate"@, state.ready && !state.training),
    ]);
    page.append(rest);
    if !is_empty(state.generated.as_str()) {
        page.separator();
        page.label("generated");
        page.label(state.generated.as_str());
    }
    page
}

pub open spec fn text_items(form: TextForm, state: TextState, busy: bool, wording: Wording) -> Seq<
    ItemView,
> {
    text_form_items(form, wording) + text_run_items(state, busy, wording)
}

/// The page of the text model.
pub fn ui_text(form: &TextForm, state: &TextState, busy: bool, wording: Wording) -> (page: Page)
    ensures
        page@ == text_items(*form, *state, busy, wording),
{
    let mut page: Page = text_form_page(form, wording);
    page.append(text_run_page(state, busy, wording));
    page
}

/// The built-in tasks as buttons that open them as data.
pub open spec fn task_buttons(tasks: Seq<Seq<char>>, busy: bool) -> Seq<ItemView> {
    Seq::new(tasks.len(), |i: int| button_item(Action::OpenTask(i as usize), tasks[i], !busy))
}

pub open spec fn demo_items(
    tasks: Seq<Seq<char>>,
    form: TextForm,
    state: TextState,
    busy: bool,
) -> Seq<ItemView> {
    (seq![
        ItemView::Heading("Демо"@),
        ItemView::Label(
            "Встроенные задачи — источник данных для проверки самого приложения, а не рабочий сценарий."@,
        ),
        ItemView::Label("Открыть как данные:"@),
    ] + task_buttons(tasks, busy)).push(ItemView::Separator) + text_items(
        form,
        state,
        busy,
        Wording::Full,
    )
}

/// The page of the built-in tasks and of the text model.
pub fn ui_demo(tasks: &Vec<String>, form: &TextForm, state: &TextState, busy: bool) -> (page: Page)
    ensures
        page@ == demo_items(texts(tasks@), *form, *state, busy),
{
    let mut page: Page = Page::new();
    page.heading("Демо");
    page.label(
        "Встроенные задачи — источник данных для проверки самого приложения, а не рабочий сценарий.",
    );
    page.label("Открыть как данные:");
    let ghost head = seq![
        ItemView::Heading("Демо"@),
        ItemView::Label(
            "Встроенные задачи — источник данных для проверки самого приложения, а не рабочий сценарий."@,
        ),
        ItemView::Label("Открыть как данные:"@),
    ];
    assert(page@ =~= head);
    let mut i: usize = 0;
    while i < tasks.len()
        invariant
            i <= tasks@.len(),
            page@ == head + task_buttons(texts(tasks@), busy).take(i as int),
        decreases tasks.len() - i,
    {
        page.button(Action::OpenTask(i), tasks[i].as_str(), !busy);
        i += 1;
        assert(page@ =~= head + task_buttons(texts(tasks@), busy).take(i as int));
    }
    assert(task_buttons(texts(tasks@), busy).take(i as int) =~= task_buttons(texts(tasks@), busy));
    page.separator();
    page.append(ui_text(form, state, busy, Wording::Full));
    page
}

pub open spec fn prepare_items(form: PrepareForm, busy: bool) -> Seq<ItemView> {
    seq![
        ItemView::Heading("Prepare"@),
        button_item(Action::ChooseInput, "Вход…"@, true),
        path_or(form.input_path@, "(файл не выбран)"@),
        button_item(Action::ChooseOutput, "Выход .tnum…"@, true),
        path_or(form.output_path@, "(путь не выбран)"@),
        number_item(Field::Inputs, "inputs"@, 1, 256),
        number_item(Field::Outputs, "outputs"@, 1, 256),
        ItemView::Choice {
            field: Field::Delimiter,
            label: "delimiter"@,
            options: seq!["auto"@, "comma"@, "tab"@, "space"@],
            chosen: form.delimiter,
        },
        ItemView::Entry { field: Field::Categorical, label: "categorical"@ },
        ItemView::Check { field: Field::HasHeader, label: "has header"@ },
        button_item(Action::Convert, "Convert"@, !busy),
    ]
}

/// The page of the converter.
pub fn ui_prepare(form: &PrepareForm, busy: bool) -> (page: Page)
    ensures
        page@ == prepare_items(*form, busy),
{
    let mut page: Page = Page::new();
    page.heading("Prepare");
    page.button(Action::ChooseInput, "Вход…", true);
    show_path(&mut page, form.input_path.as_str(), "(файл не выбран)");
    page.button(Action::ChooseOutput, "Выход .tnum…", true);
    show_path(&mut page, form.output_path.as_str(), "(путь не выбран)");
    page.number(Field::Inputs, "inputs", 1, 256);
    page.number(Field::Outputs, "outputs", 1, 256);
    page.choice(
        Field::Delimiter,
        "delimiter",
        four("auto", "comma", "tab", "space"),
        form.delimiter,
    );
    page.entry(Field::Categorical, "categorical");
    page.check(Field::HasHeader, "has header");
    page.button(Action::Convert, "Convert", !busy);
    assert(page@ =~= prepare_items(*form, busy));
    page
}

/// Text is generated only by a model that is ready and not being trained; a
/// training can start while nothing runs and be cancelled while it runs.
pub proof fn law_text_buttons_follow_the_state(state: TextState, busy: bool, wording: Wording)
    ensures
        offers(text_run_items(state, busy, wording), Action::Run, !busy),
        offers(text_run_items(state, busy, wording), Action::Cancel, state.training),
        offers(
            text_run_items(state, busy, wording),
            Action::Generate,
            state.ready && !state.training,
        ),
        draws(text_run_items(state, busy, wording), Chart::Perplexity) <==> state.curve@.len() > 0,
{
    let p = text_run_items(state, busy, wording);
    assert(button_for(p[0], Action::Run));
    assert(button_for(p[1], Action::Cancel));
    let a: int = if state.curve@.len() > 0 {
        3
    } else {
        2
    };
    let b: int = if state.vocab_size is Some {
        a + 1
    } else {
        a
    };
    assert(button_for(p[b + 6], Action::Generate));
    if state.curve@.len() > 0 {
        assert(p[2] == (ItemView::Line { chart: Chart::Perplexity, name: "perplexity"@ }));
    }
}

/// A plain grid can start while neither a training nor another grid runs.
pub proof fn law_grid_buttons_follow_the_state(
    board: Board,
    training: bool,
    shown: Seq<Vec<String>>,
)
    ensures
        offers(grid_items(board, training, shown), Action::Run, !training && !board.running),
        offers(grid_items(board, training, shown), Action::Cancel, board.running),
{
    let p = grid_items(board, training, shown);
    assert(button_for(p[0], Action::Run));
    assert(button_for(p[1], Action::Cancel));
}

/// A table can be converted while nothing runs.
pub proof fn law_the_converter_waits_for_the_window(form: PrepareForm, busy: bool)
    ensures
        offers(prepare_items(form, busy), Action::Convert, !busy),
        offers(prepare_items(form, busy), Action::ChooseInput, true),
        offers(prepare_items(form, busy), Action::ChooseOutput, true),
{
    let p = prepare_items(form, busy);
    assert(button_for(p[10], Action::Convert));
    assert(button_for(p[1], Action::ChooseInput));
    assert(button_for(p[3], Action::ChooseOutput));
}

/// Every built-in task has a button of its own, which opens that task while
/// nothing runs.
pub proof fn law_every_task_has_its_button(tasks: Seq<Seq<char>>, busy: bool, i: int)
    requires
        0 <= i < tasks.len() <= usize::MAX,
    ensures
        task_buttons(tasks, busy).len() == tasks.len(),
        task_buttons(tasks, busy)[i] matches ItemView::Button { action, label, enabled } && action
            == Action::OpenTask(i as usize) && label == tasks[i] && enabled == !busy,
        offers(task_buttons(tasks, busy), Action::OpenTask(i as usize), !busy),
{
    assert(button_for(task_buttons(tasks, busy)[i], Action::OpenTask(i as usize)));
}

/// No size of a text model, and no length of its windows, can be set to nothing.
pub proof fn law_sizes_of_a_text_model_start_at_one(form: TextForm, wording: Wording, i: int)
    requires
        0 <= i < text_form_items(form, wording).len(),
    ensures
        text_form_items(form, wording)[i] matches ItemView::Number { low, high, .. } ==> low == 1
            && high > low,
{
}

} // verus!

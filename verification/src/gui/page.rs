//! A page of the window as data: what stands on it, in order, and which of
//! its controls can be used.

use crate::single::Single;
use crate::text::{owned, texts};
use vstd::prelude::*;

verus! {

/// A value that a control edits.
#[derive(Clone, Copy, Debug, PartialEq, Eq, Structural)]
pub enum Field {
    Source,
    Blackbox,
    Kind,
    DModel,
    Heads,
    Layers,
    DFf,
    ValueEncoder,
    FourierBands,
    FourierScale,
    MlpWidth,
    MlpLayers,
    KanWidth,
    KanLayers,
    KanGrid,
    Lr,
    Batch,
    Epochs,
    Seed,
    WarmupCosine,
    Warmup,
    MinLrRatio,
    EvalEvery,
    TargetR2,
    MinGain,
    PlateauMin,
    Steps,
    CtxLen,
    TgtLen,
    TotalNew,
    Temperature,
    TopK,
    GenSeed,
    SeedText,
    Inputs,
    Outputs,
    Delimiter,
    Categorical,
    HasHeader,
    Preset,
    Objective,
    IncludeTransformer,
    IncludeMlp,
    IncludeKan,
    Seeds,
    DModels,
    LayersList,
    DFfs,
    Lrs,
    ValueEncoders,
    FourierScales,
    Schedulers,
    Interpret,
    InterpretL1,
    InterpretPrune,
    InterpretThreshold,
    InterpretFinetune,
    InterpretCompact,
    KanLayer,
    KanInput,
    KanOutput,
    Column(usize),
    SearchRow(usize),
    Section,
    Mode,
    Budget,
    ModelView,
    Sheet,
}

/// What a button asks for.
#[derive(Clone, Copy, Debug, PartialEq, Eq, Structural)]
pub enum Action {
    ChooseFile,
    ChooseInput,
    ChooseOutput,
    OpenTnum,
    OpenTable,
    Remark,
    OpenTask(usize),
    Run,
    Cancel,
    SaveModel,
    LoadModel,
    SaveCsv,
    ApplyToTrain,
    CheckEpochs,
    ApplyRecommended,
    Predict,
    FillTable,
    ExtractFormulas,
    CopyFormulas,
    Diagnose,
    Generate,
    Convert,
    ChooseRow(usize),
    CheckChosen,
    ToManual,
    Finalize,
    ApplyMarkup,
    ResetProfile,
}

/// A drawn line.
#[derive(Clone, Copy, Debug, PartialEq, Eq, Structural)]
pub enum Chart {
    Loss,
    FinalLoss,
    Validation,
    Perplexity,
    EpochR2,
    EpochLoss,
    KanEdge,
}

#[derive(Debug)]
pub enum Item {
    Heading(String),
    Label(String),
    /// Something to be aware of.
    Warning(String),
    /// Something that stands in the way.
    Problem(String),
    Separator,
    /// A whole number between two bounds.
    Number { field: Field, label: String, low: usize, high: usize },
    /// A whole number without bounds.
    Whole { field: Field, label: String },
    Real { field: Field, label: String, from: Single, to: Single },
    Entry { field: Field, label: String },
    Check { field: Field, label: String },
    /// One of several texts.
    Choice { field: Field, label: String, options: Vec<String>, chosen: usize },
    Button { action: Action, label: String, enabled: bool },
    Line { chart: Chart, name: String },
    /// A row of a table.
    Row(Vec<String>),
}

pub enum ItemView {
    Heading(Seq<char>),
    Label(Seq<char>),
    Warning(Seq<char>),
    Problem(Seq<char>),
    Separator,
    Number { field: Field, label: Seq<char>, low: usize, high: usize },
    Whole { field: Field, label: Seq<char> },
    Real { field: Field, label: Seq<char>, from: Single, to: Single },
    Entry { field: Field, label: Seq<char> },
    Check { field: Field, label: Seq<char> },
    Choice { field: Field, label: Seq<char>, options: Seq<Seq<char>>, chosen: usize },
    Button { action: Action, label: Seq<char>, enabled: bool },
    Line { chart: Chart, name: Seq<char> },
    Row(Seq<Seq<char>>),
}

impl View for Item {
    type V = ItemView;

    open spec fn view(&self) -> ItemView {
        match *self {
            Item::Heading(t) => ItemView::Heading(t@),
            Item::Label(t) => ItemView::Label(t@),
            Item::Warning(t) => ItemView::Warning(t@),
            Item::Problem(t) => ItemView::Problem(t@),
            Item::Separator => ItemView::Separator,
            Item::Number { field, label, low, high } => ItemView::Number {
                field,
                label: label@,
                low,
                high,
            },
            Item::Whole { field, label } => ItemView::Whole { field, label: label@ },
            Item::Real { field, label, from, to } => ItemView::Real {
                field,
                label: label@,
                from,
                to,
            },
            Item::Entry { field, label } => ItemView::Entry { field, label: label@ },
            Item::Check { field, label } => ItemView::Check { field, label: label@ },
            Item::Choice { field, label, options, chosen } => ItemView::Choice {
                field,
                label: label@,
                options: texts(options@),
                chosen,
            },
            Item::Button { action, label, enabled } => ItemView::Button {
                action,
                label: label@,
                enabled,
            },
            Item::Line { chart, name } => ItemView::Line { chart, name: name@ },
            Item::Row(cells) => ItemView::Row(texts(cells@)),
        }
    }
}

/// The items of a page, from top to bottom.
#[derive(Debug)]
pub struct Page {
    pub items: Vec<Item>,
}

impl View for Page {
    type V = Seq<ItemView>;

    open spec fn view(&self) -> Seq<ItemView> {
        self.items@.map_values(|i: Item| i@)
    }
}

impl Page {
    pub fn new() -> (page: Page)
        ensures
            page@ == Seq::<ItemView>::empty(),
    {
        let page: Page = Page { items: Vec::new() };
        assert(page@ =~= Seq::<ItemView>::empty());
        page
    }

    fn push(&mut self, item: Item)
        ensures
            final(self)@ == old(self)@.push(item@),
    {
        self.items.push(item);
        assert(self@ =~= old(self)@.push(item@));
    }

    pub fn heading(&mut self, text: &str)
        ensures
            final(self)@ == old(self)@.push(ItemView::Heading(text@)),
    {
        self.push(Item::Heading(owned(text)));
    }

    pub fn label(&mut self, text: &str)
        ensures
            final(self)@ == old(self)@.push(ItemView::Label(text@)),
    {
        self.push(Item::Label(owned(text)));
    }

    pub fn warning(&mut self, text: &str)
        ensures
            final(self)@ == old(self)@.push(ItemView::Warning(text@)),
    {
        self.push(Item::Warning(owned(text)));
    }

    pub fn problem(&mut self, text: &str)
        ensures
            final(self)@ == old(self)@.push(ItemView::Problem(text@)),
    {
        self.push(Item::Problem(owned(text)));
    }

    pub fn separator(&mut self)
        ensures
            final(self)@ == old(self)@.push(ItemView::Separator),
    {
        self.push(Item::Separator);
    }

    pub fn number(&mut self, field: Field, label: &str, low: usize, high: usize)
        ensures
            final(self)@ == old(self)@.push(ItemView::Number { field, label: label@, low, high }),
    {
        self.push(Item::Number { field, label: owned(label), low, high });
    }

    pub fn whole(&mut self, field: Field, label: &str)
        ensures
            final(self)@ == old(self)@.push(ItemView::Whole { field, label: label@ }),
    {
        self.push(Item::Whole { field, label: owned(label) });
    }

    pub fn fraction(&mut self, field: Field, label: &str, from: u32, to: u32)
        ensures
            final(self)@ == old(self)@.push(
                ItemView::Real {
                    field,
                    label: label@,
                    from: Single { bits: from },
                    to: Single { bits: to },
                },
            ),
    {
        self.push(
            Item::Real {
                field,
                label: owned(label),
                from: Single { bits: from },
                to: Single { bits: to },
            },
        );
    }

    pub fn entry(&mut self, field: Field, label: &str)
        ensures
            final(self)@ == old(self)@.push(ItemView::Entry { field, label: label@ }),
    {
        self.push(Item::Entry { field, label: owned(label) });
    }

    pub fn check(&mut self, field: Field, label: &str)
        ensures
            final(self)@ == old(self)@.push(ItemView::Check { field, label: label@ }),
    {
        self.push(Item::Check { field, label: owned(label) });
    }

    pub fn choice(&mut self, field: Field, label: &str, options: Vec<String>, chosen: usize)
        ensures
            final(self)@ == old(self)@.push(
                ItemView::Choice { field, label: label@, options: texts(options@), chosen },
            ),
    {
        self.push(Item::Choice { field, label: owned(label), options, chosen });
    }

    pub fn button(&mut self, action: Action, label: &str, enabled: bool)
        ensures
            final(self)@ == old(self)@.push(
                ItemView::Button { action, label: label@, enabled },
            ),
    {
        self.push(Item::Button { action, label: owned(label), enabled });
    }

    pub fn line(&mut self, chart: Chart, name: &str)
        ensures
            final(self)@ == old(self)@.push(ItemView::Line { chart, name: name@ }),
    {
        self.push(Item::Line { chart, name: owned(name) });
    }

    pub fn row(&mut self, cells: Vec<String>)
        ensures
            final(self)@ == old(self)@.push(ItemView::Row(texts(cells@))),
    {
        self.push(Item::Row(cells));
    }

    /// Puts the items of another page below.
    pub fn append(&mut self, more: Page)
        ensures
            final(self)@ == old(self)@ + more@,
    {
        let mut rest: Vec<Item> = more.items;
        self.items.append(&mut rest);
        assert(self@ =~= old(self)@ + more@);
    }
}

/// Three texts in a list.
pub fn three(a: &str, b: &str, c: &str) -> (list: Vec<String>)
    ensures
        texts(list@) == seq![a@, b@, c@],
{
    let mut list: Vec<String> = Vec::new();
    list.push(owned(a));
    list.push(owned(b));
    list.push(owned(c));
    assert(texts(list@) =~= seq![a@, b@, c@]);
    list
}

/// Four texts in a list.
pub fn four(a: &str, b: &str, c: &str, d: &str) -> (list: Vec<String>)
    ensures
        texts(list@) == seq![a@, b@, c@, d@],
{
    let mut list: Vec<String> = three(a, b, c);
    let ghost before = list@;
    list.push(owned(d));
    assert(texts(list@) =~= texts(before).push(d@));
    assert(texts(list@) =~= seq![a@, b@, c@, d@]);
    list
}

/// Is this item a button for the action?
pub open spec fn button_for(item: ItemView, action: Action) -> bool {
    item matches ItemView::Button { action: a, .. } && a == action
}

/// The items hold a button for the action, and each one is open or closed as
/// `enabled` says.
pub open spec fn offers(items: Seq<ItemView>, action: Action, enabled: bool) -> bool {
    &&& exists|i: int| 0 <= i < items.len() && button_for(#[trigger] items[i], action)
    &&& forall|i: int|
        0 <= i < items.len() && button_for(#[trigger] items[i], action)
            ==> items[i]->Button_enabled == enabled
}

/// The items hold no button for the action.
pub open spec fn withholds(items: Seq<ItemView>, action: Action) -> bool {
    forall|i: int| 0 <= i < items.len() ==> !button_for(#[trigger] items[i], action)
}

/// The items hold this warning.
pub open spec fn warns(items: Seq<ItemView>, text: Seq<char>) -> bool {
    exists|i: int| 0 <= i < items.len() && #[trigger] items[i] == ItemView::Warning(text)
}

/// The items hold a line of this chart.
pub open spec fn draws(items: Seq<ItemView>, chart: Chart) -> bool {
    exists|i: int|
        0 <= i < items.len() && (#[trigger] items[i] matches ItemView::Line { chart: c, .. } && c
            == chart)
}

/// The setting that an item asks for.
pub open spec fn field_of(item: ItemView) -> Option<Field> {
    match item {
        ItemView::Number { field, .. } => Some(field),
        ItemView::Whole { field, .. } => Some(field),
        ItemView::Real { field, .. } => Some(field),
        ItemView::Entry { field, .. } => Some(field),
        ItemView::Check { field, .. } => Some(field),
        ItemView::Choice { field, .. } => Some(field),
        _ => None,
    }
}

/// The items ask for the setting.
pub open spec fn asks_for(items: Seq<ItemView>, field: Field) -> bool {
    exists|i: int| 0 <= i < items.len() && field_of(#[trigger] items[i]) == Some(field)
}

} // verus!

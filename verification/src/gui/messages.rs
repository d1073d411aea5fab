//! What the window and its worker tell each other: plain data only.

use crate::config::ModelKind;
use crate::data::NumericDataset;
use crate::diagnostics::SensitivityReport;
use crate::lifecycle::{Metrics, RunStamp};
use crate::schema::ModelSchema;
use crate::single::Single;
use crate::text::owned;
use vstd::prelude::*;
use vstd::string::StringExecFns;

verus! {

/// Where the active data came from.
#[derive(Debug)]
pub enum DatasetOrigin {
    /// A built-in task.
    Blackbox(String),
    /// A file with its own schema.
    File(String),
    /// A table that was marked up.
    Table(String),
}

impl DatasetOrigin {
    /// The name for the head line: a path is shown by its file name, where
    /// it has one.
    pub open spec fn short(self, file_name: Option<Seq<char>>) -> Seq<char> {
        match self {
            DatasetOrigin::Blackbox(name) => "чёрный ящик: "@ + name@,
            DatasetOrigin::File(path) | DatasetOrigin::Table(path) => match file_name {
                Some(n) => n,
                None => path@,
            },
        }
    }

    pub fn short_name(&self, file_name: Option<&str>) -> (name: String)
        ensures
            name@ == self.short(
                match file_name {
                    Some(n) => Some(n@),
                    None => None,
                },
            ),
    {
        match self {
            DatasetOrigin::Blackbox(task) => {
                let mut name: String = owned("чёрный ящик: ");
                name.append(task.as_str());
                name
            },
            DatasetOrigin::File(path) | DatasetOrigin::Table(path) => match file_name {
                Some(n) => owned(n),
                None => owned(path.as_str()),
            },
        }
    }

    /// The built-in task, where the data are of one.
    pub fn blackbox(&self) -> (task: Option<&str>)
        ensures
            match task {
                Some(t) => self matches DatasetOrigin::Blackbox(name) && t@ == name@,
                None => !(self is Blackbox),
            },
    {
        match self {
            DatasetOrigin::Blackbox(name) => Some(name.as_str()),
            _ => None,
        }
    }

    /// The source as a model's description shows it.
    pub open spec fn described(self) -> Seq<char> {
        match self {
            DatasetOrigin::Blackbox(name) => "blackbox: "@ + name@,
            DatasetOrigin::File(path) => "файл: "@ + path@,
            DatasetOrigin::Table(path) => "таблица: "@ + path@,
        }
    }

    pub fn source_desc(&self) -> (text: String)
        ensures
            text@ == self.described(),
    {
        match self {
            DatasetOrigin::Blackbox(name) => {
                let mut text: String = owned("blackbox: ");
                text.append(name.as_str());
                text
            },
            DatasetOrigin::File(path) => {
                let mut text: String = owned("файл: ");
                text.append(path.as_str());
                text
            },
            DatasetOrigin::Table(path) => {
                let mut text: String = owned("таблица: ");
                text.append(path.as_str());
                text
            },
        }
    }
}

/// Data ready to work with: the values, the schema and the origin, so that a
/// file is never opened twice.
#[derive(Debug)]
pub struct PreparedData {
    pub origin: DatasetOrigin,
    pub data: NumericDataset,
    pub schema: ModelSchema,
}

/// What the active model is.
#[derive(Clone, Copy, Debug)]
pub enum ModelOrigin {
    /// A checked candidate, trained on a part of the data.
    Development(RunStamp),
    /// Trained on everything but the test rows, which were measured once.
    Final(RunStamp),
    /// Read from a file.
    Checkpoint,
}

impl ModelOrigin {
    pub open spec fn name(self) -> Seq<char> {
        match self {
            ModelOrigin::Development(_) => "отладочная (обучена на train, без validation)"@,
            ModelOrigin::Final(_) => "финальная (train + validation)"@,
            ModelOrigin::Checkpoint => "загружена из файла"@,
        }
    }

    pub fn label(&self) -> (text: &'static str)
        ensures
            text@ == self.name(),
    {
        match self {
            ModelOrigin::Development(_) => "отладочная (обучена на train, без validation)",
            ModelOrigin::Final(_) => "финальная (train + validation)",
            ModelOrigin::Checkpoint => "загружена из файла",
        }
    }

    pub fn is_final(&self) -> (yes: bool)
        ensures
            yes == (self is Final),
    {
        match self {
            ModelOrigin::Final(_) => true,
            _ => false,
        }
    }

    /// The name of the button that saves the model: it says what it saves.
    pub open spec fn save_name(origin: Option<ModelOrigin>) -> Seq<char> {
        match origin {
            Some(ModelOrigin::Final(_)) => "Сохранить финальную модель…"@,
            Some(ModelOrigin::Development(_)) => "Сохранить отладочную модель…"@,
            _ => "Сохранить модель…"@,
        }
    }

    pub fn save_label(origin: Option<ModelOrigin>) -> (text: &'static str)
        ensures
            text@ == ModelOrigin::save_name(origin),
    {
        match origin {
            Some(ModelOrigin::Final(_)) => "Сохранить финальную модель…",
            Some(ModelOrigin::Development(_)) => "Сохранить отладочную модель…",
            _ => "Сохранить модель…",
        }
    }
}

/// A part of a training.
#[derive(Clone, Copy, Debug, PartialEq, Eq, Structural)]
pub enum Phase {
    Development,
    Final,
}

impl Phase {
    pub open spec fn name(self) -> Seq<char> {
        match self {
            Phase::Development => "development"@,
            Phase::Final => "финальное обучение"@,
        }
    }

    pub fn label(&self) -> (text: &'static str)
        ensures
            text@ == self.name(),
    {
        match self {
            Phase::Development => "development",
            Phase::Final => "финальное обучение",
        }
    }
}

/// A point of a learning curve.
#[derive(Clone, Copy, Debug, PartialEq, Eq, Structural)]
pub struct CurvePoint {
    pub epoch: usize,
    pub train_loss: Single,
    /// Measured only where the schedule asks for it.
    pub val_r2: Option<Single>,
}

/// The sizes of a KAN.
#[derive(Debug)]
pub struct KanModelInfo {
    pub layer_dims: Vec<(usize, usize)>,
    pub domain: (Single, Single),
    /// Formulas need the activations of a training.
    pub symbolic_available: bool,
}

/// An edge whose formula is only approximate.
#[derive(Debug)]
pub struct KanWeakEdge {
    pub layer: usize,
    pub input: String,
    pub output: String,
    pub primitive: String,
    pub r2: Single,
}

#[derive(Debug)]
pub struct KanSymbolicInfo {
    pub formulas: String,
    pub min_edge_r2: Single,
    pub mean_edge_r2: Single,
    pub formula_metrics: Option<Metrics>,
    pub kan_r2: Option<Single>,
    pub evaluation_label: Option<String>,
    pub weak_edges: Vec<KanWeakEdge>,
}

#[derive(Debug)]
pub struct DiagnosticsResult {
    pub overfit_loss: Single,
    pub extrapolation_rows: usize,
    pub extrapolation_total: usize,
    pub evaluation_label: String,
    /// For each input: how often the residual changes its sign, and the tail
    /// against the middle.
    pub residuals: Vec<(Single, Single)>,
    pub sensitivity: Result<SensitivityReport, String>,
}

pub open spec fn kind_name(kind: ModelKind) -> Seq<char> {
    match kind {
        ModelKind::Transformer => "transformer"@,
        ModelKind::Mlp => "mlp"@,
        ModelKind::Kan => "kan"@,
    }
}

pub fn model_kind_label(kind: ModelKind) -> (text: &'static str)
    ensures
        text@ == kind_name(kind),
{
    match kind {
        ModelKind::Transformer => "transformer",
        ModelKind::Mlp => "mlp",
        ModelKind::Kan => "kan",
    }
}

/// A model is saved under the name of what it is: one from a file is neither
/// final nor one of a check.
pub proof fn law_models_are_saved_by_what_they_are(stamp: RunStamp)
    ensures
        ModelOrigin::save_name(Some(ModelOrigin::Final(stamp))) == "Сохранить финальную модель…"@,
        ModelOrigin::save_name(Some(ModelOrigin::Development(stamp)))
            == "Сохранить отладочную модель…"@,
        ModelOrigin::save_name(Some(ModelOrigin::Checkpoint)) == "Сохранить модель…"@,
        ModelOrigin::save_name(None) == "Сохранить модель…"@,
{
}

/// The source of data is told with its kind and its name.
pub proof fn law_sources_are_told_with_their_names(name: String)
    ensures
        DatasetOrigin::Blackbox(name).described() == "blackbox: "@ + name@,
        DatasetOrigin::File(name).described() == "файл: "@ + name@,
        DatasetOrigin::Table(name).described() == "таблица: "@ + name@,
{
}

} // verus!

//! The state of a session: the active data, the active model, what is
//! running, and how each event of the worker changes it.

use crate::batch_predict::ExportSummary;
use crate::config::ModelKind;
use crate::data::{NumericDataset, OutOfRange};
use crate::epoch_sweep::EvalSource;
use crate::fingerprint::{blake3_digest, dataset_bytes, DatasetFingerprint};
use crate::gui::forms::{fresh_search_form, fresh_train_form, said, SearchForm, TrainForm};
use crate::gui::markup::MarkupState;
use crate::gui::messages::{
    DatasetOrigin, DiagnosticsResult, KanModelInfo, KanSymbolicInfo, ModelOrigin, Phase, PreparedData,
};
use crate::interpret::{no_overrides, InterpretOverrides, InterpretReports};
use crate::lifecycle::{CheckEval, CheckedRun, FinalEval, Lifecycle, RunStamp, SplitPlan, TestDisclosure};
use crate::schema::ModelSchema;
use crate::single::Single;
use crate::sweep::{ranked, sort_rows, SweepObjective, SweepRow};
use crate::text::{decimal, decimal_text, is_empty, join, joined, owned, texts};
use vstd::prelude::*;
use vstd::string::StringExecFns;

verus! {

/// The parts of the window.
#[derive(Clone, Copy, Debug, PartialEq, Eq, Structural)]
pub enum Section {
    Data,
    Training,
    Model,
    Predict,
    Demo,
}

impl Section {
    pub open spec fn name(self) -> Seq<char> {
        match self {
            Section::Data => "Данные"@,
            Section::Training => "Обучение"@,
            Section::Model => "Модель"@,
            Section::Predict => "Прогноз"@,
            Section::Demo => "Демо"@,
        }
    }

    pub fn label(self) -> (text: &'static str)
        ensures
            text@ == self.name(),
    {
        match self {
            Section::Data => "Данные",
            Section::Training => "Обучение",
            Section::Model => "Модель",
            Section::Predict => "Прогноз",
            Section::Demo => "Демо",
        }
    }
}

/// How many points the curve of a KAN edge is drawn with.
pub const KAN_CURVE_SAMPLES: usize = 201;

/// A point that is drawn.
#[derive(Clone, Copy, Debug, PartialEq, Eq, Structural)]
pub struct Mark {
    pub at: usize,
    pub value: Single,
}

/// The one active dataset of a session.
#[derive(Debug)]
pub struct ActiveDataset {
    pub prepared: PreparedData,
    /// How many remarks the profile of a table has; other data have none.
    pub profile_notes: Option<usize>,
    /// How many remarks depend on the confirmed roles.
    pub role_notes: usize,
    pub split: SplitPlan,
    /// How the table was read.
    pub table_has_header: bool,
    pub revision: u64,
    pub fingerprint: DatasetFingerprint,
}

pub open spec fn fits(prepared: PreparedData) -> bool {
    &&& prepared.data.wf()
    &&& prepared.schema@.inputs.len() == prepared.data.inputs.cols
    &&& prepared.schema@.outputs.len() == prepared.data.outputs.cols
}

/// The identity of prepared data.
pub open spec fn identity_of(prepared: PreparedData) -> Seq<u8> {
    blake3_digest(
        dataset_bytes(
            prepared.schema@.specs(),
            prepared.data.inputs.cols as nat,
            prepared.data.outputs.cols as nat,
            prepared.data.inputs@,
            prepared.data.outputs@,
        ),
    )
}

impl ActiveDataset {
    /// The dataset is what it is identified by.
    pub open spec fn wf(self) -> bool {
        fits(self.prepared) && self.fingerprint.0@ == identity_of(self.prepared)
    }

    pub fn new(
        prepared: PreparedData,
        profile_notes: Option<usize>,
        role_notes: usize,
        table_has_header: bool,
        revision: u64,
        split: SplitPlan,
    ) -> (active: ActiveDataset)
        requires
            fits(prepared),
        ensures
            active.wf(),
            active == (ActiveDataset {
                prepared,
                profile_notes,
                role_notes,
                split,
                table_has_header,
                revision,
                fingerprint: active.fingerprint,
            }),
    {
        let fingerprint: DatasetFingerprint = match DatasetFingerprint::of(
            &prepared.data,
            &prepared.schema,
        ) {
            Ok(f) => f,
            Err(_) => {
                assert(false);
                DatasetFingerprint::from_bytes([0; 32])
            },
        };
        ActiveDataset {
            prepared,
            profile_notes,
            role_notes,
            split,
            table_has_header,
            revision,
            fingerprint,
        }
    }

    /// How many remarks there are on the quality of the data.
    pub fn data_notes(&self) -> (n: u128)
        ensures
            n == self.role_notes + match self.profile_notes {
                Some(k) => k as int,
                None => 0,
            },
    {
        let profile: u128 = match self.profile_notes {
            Some(k) => k as u128,
            None => 0,
        };
        profile + self.role_notes as u128
    }

    /// The division in short: the rows of each part. How many rows the first
    /// two parts have is rounded by the caller; the rest goes to the last.
    pub open spec fn split_text(self, first: usize, second: usize) -> Seq<char> {
        let rows = self.prepared.data.inputs@.len() as int;
        match self.split {
            SplitPlan::Holdout { .. } => {
                let rest = if rows > first + second {
                    rows - first - second
                } else {
                    0
                };
                "holdout "@ + decimal(first as nat) + "/"@ + decimal(second as nat) + "/"@
                    + decimal(rest as nat)
            },
            SplitPlan::KFold { k, .. } => {
                let pool = if rows > first {
                    rows - first
                } else {
                    0
                };
                decimal(k as nat) + "-fold по "@ + decimal(pool as nat) + " строкам + test "@
                    + decimal(first as nat)
            },
        }
    }

    /// The division in short. Of a holdout `first` is the number of training
    /// rows and `second` of validation rows; of folds `first` is the number
    /// of test rows.
    pub fn split_summary(&self, first: usize, second: usize) -> (text: String)
        requires
            first + second <= usize::MAX,
        ensures
            text@ == self.split_text(first, second),
    {
        let rows: usize = self.prepared.data.inputs.nrows();
        match self.split {
            SplitPlan::Holdout { .. } => {
                let used: usize = first + second;
                let rest: usize = if rows > used {
                    rows - used
                } else {
                    0
                };
                let mut text: String = owned("holdout ");
                text.append(decimal_text(first as u64).as_str());
                text.append("/");
                text.append(decimal_text(second as u64).as_str());
                text.append("/");
                text.append(decimal_text(rest as u64).as_str());
                text
            },
            SplitPlan::KFold { k, .. } => {
                let pool: usize = if rows > first {
                    rows - first
                } else {
                    0
                };
                let mut text: String = decimal_text(k as u64);
                text.append("-fold по ");
                text.append(decimal_text(pool as u64).as_str());
                text.append(" строкам + test ");
                text.append(decimal_text(first as u64).as_str());
                text
            },
        }
    }

    /// The head line: what is open, of which shape, divided how.
    pub fn summary(&self, file_name: Option<&str>, first: usize, second: usize) -> (text: String)
        requires
            first + second <= usize::MAX,
            self.wf(),
        ensures
            text@ == self.prepared.origin.short(
                match file_name {
                    Some(n) => Some(n@),
                    None => None,
                },
            ) + " · "@ + decimal(self.prepared.data.inputs@.len()) + " строк · "@ + decimal(
                self.prepared.schema@.inputs.len(),
            ) + " вход → "@ + decimal(self.prepared.schema@.outputs.len()) + " выход · "@
                + self.split_text(first, second),
    {
        let mut text: String = self.prepared.origin.short_name(file_name);
        text.append(" · ");
        text.append(decimal_text(self.prepared.data.len() as u64).as_str());
        text.append(" строк · ");
        text.append(decimal_text(self.prepared.schema.n_inputs() as u64).as_str());
        text.append(" вход → ");
        text.append(decimal_text(self.prepared.schema.n_outputs() as u64).as_str());
        text.append(" выход · ");
        text.append(self.split_summary(first, second).as_str());
        text
    }
}

/// The active model as the window sees it.
#[derive(Debug)]
pub struct ModelInfo {
    pub schema: ModelSchema,
    pub kind: ModelKind,
    pub source: String,
    pub origin: ModelOrigin,
    pub parameter_count: usize,
    /// What the interpretation pipeline did to this very model.
    pub interpret: Option<InterpretReports>,
}

impl KanModelInfo {
    /// Every layer has an input and an output.
    pub open spec fn wf(self) -> bool {
        forall|i: int|
            0 <= i < self.layer_dims@.len() ==> (#[trigger] self.layer_dims@[i]).0 > 0
                && self.layer_dims@[i].1 > 0
    }
}

/// What the training page works on.
#[derive(Clone, Copy, Debug, PartialEq, Eq, Structural)]
pub enum TrainingMode {
    /// One configuration, by hand.
    Single,
    /// A ready-made grid.
    Auto(crate::gui::forms::SearchBudget),
    /// A grid by hand.
    Custom,
}

/// The drawn curves of the last training.
#[derive(Debug)]
pub struct Curves {
    pub loss: Vec<Mark>,
    pub val: Vec<Mark>,
    pub final_loss: Vec<Mark>,
    /// How many folds the curves are the mean of.
    pub folds: usize,
    pub parameter_count: Option<usize>,
}

/// The prediction of one row.
#[derive(Debug)]
pub struct PredictState {
    pub inputs: Vec<Single>,
    pub outputs: Option<Vec<Single>>,
    pub extrapolation: Vec<OutOfRange>,
}

/// The curves and formulas of the active KAN.
#[derive(Debug)]
pub struct KanState {
    pub info: Option<KanModelInfo>,
    pub layer: usize,
    pub input: usize,
    pub output: usize,
    pub curve: Vec<(Single, Single)>,
    pub symbolic: Option<KanSymbolicInfo>,
    pub pending: bool,
}

/// A search and its results.
#[derive(Debug)]
pub struct SearchState {
    pub form: SearchForm,
    pub running: bool,
    pub rows: Vec<SweepRow>,
    /// How many configurations and runs there are.
    pub total: Option<(usize, usize)>,
    pub cancelled: bool,
    /// The revision and division of the data that the results are of.
    pub stamp: Option<(u64, SplitPlan)>,
    pub selected: Option<usize>,
}

/// The text model.
#[derive(Debug)]
pub struct TextState {
    pub training: bool,
    pub ready: bool,
    pub curve: Vec<Mark>,
    pub vocab_size: Option<usize>,
    pub generated: String,
    pub seed_text: String,
}

/// The state of a session.
#[derive(Debug)]
pub struct Session {
    pub section: Section,
    pub status: String,
    pub form: TrainForm,
    pub dataset: Option<ActiveDataset>,
    pub dataset_opening: bool,
    pub dataset_revision: u64,
    pub training: bool,
    /// How often the validation rows are measured during a training.
    pub eval_every: usize,
    pub curves: Curves,
    pub model_info: Option<ModelInfo>,
    pub table_opening: bool,
    pub markup: Option<MarkupState>,
    pub predict: PredictState,
    pub batch_predicting: bool,
    pub kan: KanState,
    pub diagnostics: Option<DiagnosticsResult>,
    pub search: SearchState,
    pub lifecycle: Lifecycle,
    pub interpret_enabled: bool,
    pub interpret_overrides: InterpretOverrides,
    pub mode: TrainingMode,
    pub text: TextState,
}

/// What is being cancelled.
#[derive(Clone, Copy, Debug, PartialEq, Eq, Structural)]
pub enum Cancelling {
    Training,
    Search,
    Optimize,
    Sweep,
    Text,
    EpochSweep,
}

impl Cancelling {
    pub open spec fn text(self) -> Seq<char> {
        match self {
            Cancelling::Training => "отмена…"@,
            Cancelling::Search => "отмена поиска…"@,
            Cancelling::Optimize => "отмена optimize…"@,
            Cancelling::Sweep => "отмена sweep…"@,
            Cancelling::Text => "отмена text…"@,
            Cancelling::EpochSweep => "отмена epoch-sweep…"@,
        }
    }

    pub fn message(self) -> (text: String)
        ensures
            text@ == self.text(),
    {
        match self {
            Cancelling::Training => owned("отмена…"),
            Cancelling::Search => owned("отмена поиска…"),
            Cancelling::Optimize => owned("отмена optimize…"),
            Cancelling::Sweep => owned("отмена sweep…"),
            Cancelling::Text => owned("отмена text…"),
            Cancelling::EpochSweep => owned("отмена epoch-sweep…"),
        }
    }
}

pub(crate) fn error_message(reason: &str) -> (text: String)
    ensures
        text@ == "Ошибка: "@ + reason@,
{
    let mut text: String = owned("Ошибка: ");
    text.append(reason);
    text
}

/// What the window asks the worker for in answer to an event.
#[derive(Clone, Copy, Debug, PartialEq, Eq, Structural)]
pub struct SampleKanEdge {
    pub layer: usize,
    pub input: usize,
    pub output: usize,
    pub samples: usize,
}

impl Curves {
    pub open spec fn is_clear(self) -> bool {
        self.loss@.len() == 0 && self.val@.len() == 0 && self.final_loss@.len() == 0
    }

    /// No curves, and this number of parameters.
    fn clear(&mut self, parameter_count: Option<usize>)
        ensures
            final(self).is_clear(),
            final(self).parameter_count == parameter_count,
            final(self).folds == old(self).folds,
    {
        self.loss = Vec::new();
        self.val = Vec::new();
        self.final_loss = Vec::new();
        self.parameter_count = parameter_count;
    }
}

impl Session {
    /// The layers of the active KAN have inputs and outputs, and the active
    /// dataset has its identity and a revision that was given out.
    pub open spec fn wf(self) -> bool {
        &&& self.kan.wf()
        &&& self.dataset matches Some(active) ==> active.wf() && active.revision
            <= self.dataset_revision
    }

    pub fn new() -> (session: Session)
        ensures
            session.wf(),
            session.section == Section::Data,
            session.status@ == "–"@,
            session.form == fresh_train_form(),
            session.dataset is None,
            session.dataset_revision == 0,
            !session.is_busy(),
            session.curves.is_clear(),
            session.curves.folds == 1,
            session.curves.parameter_count is None,
            session.eval_every == 5,
            session.model_info is None,
            session.predict.inputs@.len() == 0,
            session.predict.outputs is None,
            session.predict.extrapolation@.len() == 0,
            session.kan.info is None,
            session.kan.layer == 0,
            session.kan.input == 0,
            session.kan.output == 0,
            session.kan.curve@.len() == 0,
            session.kan.symbolic is None,
            session.diagnostics is None,
            session.search.form == fresh_search_form(),
            session.search.rows@.len() == 0,
            session.search.total is None,
            !session.search.cancelled,
            session.search.stamp is None,
            session.search.selected is None,
            session.lifecycle.last_check is None,
            session.lifecycle.disclosures@.len() == 0,
            !session.interpret_enabled,
            session.interpret_overrides == no_overrides(),
            session.mode == TrainingMode::Single,
            !session.text.ready,
            session.text.curve@.len() == 0,
            session.text.vocab_size is None,
            session.text.generated@.len() == 0,
            session.text.seed_text@.len() == 0,
    {
        proof {
            reveal_strlit("");
        }
        Session {
            section: Section::Data,
            status: owned("–"),
            form: TrainForm::default(),
            dataset: None,
            dataset_opening: false,
            dataset_revision: 0,
            training: false,
            eval_every: 5,
            curves: Curves {
                loss: Vec::new(),
                val: Vec::new(),
                final_loss: Vec::new(),
                folds: 1,
                parameter_count: None,
            },
            model_info: None,
            table_opening: false,
            markup: None,
            predict: PredictState {
                inputs: Vec::new(),
                outputs: None,
                extrapolation: Vec::new(),
            },
            batch_predicting: false,
            kan: KanState {
                info: None,
                layer: 0,
                input: 0,
                output: 0,
                curve: Vec::new(),
                symbolic: None,
                pending: false,
            },
            diagnostics: None,
            search: SearchState {
                form: SearchForm::default(),
                running: false,
                rows: Vec::new(),
                total: None,
                cancelled: false,
                stamp: None,
                selected: None,
            },
            lifecycle: Lifecycle::new(),
            interpret_enabled: false,
            interpret_overrides: InterpretOverrides::default(),
            mode: TrainingMode::Single,
            text: TextState {
                training: false,
                ready: false,
                curve: Vec::new(),
                vocab_size: None,
                generated: owned(""),
                seed_text: owned(""),
            },
        }
    }

    /// Something runs, is being read or is being marked up.
    pub open spec fn is_busy(self) -> bool {
        self.training || self.search.running || self.batch_predicting || self.kan.pending
            || self.table_opening || self.dataset_opening || self.markup is Some
            || self.text.training
    }

    pub fn busy(&self) -> (yes: bool)
        ensures
            yes == self.is_busy(),
    {
        self.text.training || self.training || self.search.running || self.batch_predicting
            || self.kan.pending || self.table_opening || self.dataset_opening
            || self.markup.is_some()
    }

    /// Something is being cancelled.
    pub fn cancelling(&mut self, work: Cancelling)
        ensures
            *final(self) == (Session { status: final(self).status, ..*old(self) }),
            final(self).status@ == work.text(),
    {
        self.status = work.message();
    }

    /// The active model is being saved.
    pub fn saving(&mut self)
        ensures
            *final(self) == (Session { status: final(self).status, ..*old(self) }),
            final(self).status@ == "сохранение модели…"@,
    {
        self.status = owned("сохранение модели…");
    }

    /// What was asked for cannot be done.
    pub fn show_error(&mut self, reason: &str)
        ensures
            *final(self) == (Session { status: final(self).status, ..*old(self) }),
            final(self).status@ == "Ошибка: "@ + reason@,
    {
        self.status = error_message(reason);
    }

    /// The worker failed: nothing runs any more, and the reason is shown.
    pub open spec fn failed(self, next: Session, reason: Seq<char>) -> bool {
        &&& next == (Session {
            training: false,
            search: SearchState { running: false, ..self.search },
            text: TextState { training: false, ..self.text },
            batch_predicting: false,
            kan: KanState { pending: false, ..self.kan },
            table_opening: false,
            dataset_opening: false,
            status: next.status,
            ..self
        })
        &&& next.status@ == "Ошибка: "@ + reason
    }

    fn on_error(&mut self, reason: String)
        ensures
            old(self).failed(*final(self), reason@),
    {
        self.training = false;
        self.search.running = false;
        self.text.training = false;
        self.batch_predicting = false;
        self.kan.pending = false;
        self.table_opening = false;
        self.dataset_opening = false;
        self.status = error_message(reason.as_str());
    }

    /// A training began: the curves of the last one go.
    pub open spec fn train_began(self, next: Session, epochs: usize, parameters: usize) -> bool {
        &&& next == (Session {
            training: true,
            curves: next.curves,
            status: next.status,
            ..self
        })
        &&& next.curves.is_clear()
        &&& next.curves.folds == self.curves.folds
        &&& next.curves.parameter_count == Some(parameters)
        &&& next.status@ == "обучение: 0/"@ + decimal(epochs as nat) + " эпох, "@ + decimal(
            parameters as nat,
        ) + " параметров"@
    }

    fn on_train_started(&mut self, total_epochs: usize, parameter_count: usize)
        ensures
            old(self).train_began(*final(self), total_epochs, parameter_count),
    {
        self.training = true;
        self.curves.clear(Some(parameter_count));
        let mut status: String = owned("обучение: 0/");
        status.append(decimal_text(total_epochs as u64).as_str());
        status.append(" эпох, ");
        status.append(decimal_text(parameter_count as u64).as_str());
        status.append(" параметров");
        self.status = status;
    }
}

/// One epoch of a training.
#[derive(Debug)]
pub struct EpochEvent {
    pub phase: Phase,
    /// 0 for a single training; folds count up.
    pub fold: usize,
    pub epoch: usize,
    pub loss: Single,
    pub val_r2: Option<Single>,
    /// The loss and the score as they are shown.
    pub shown_loss: String,
    pub shown_r2: String,
}

impl EpochEvent {
    pub open spec fn text(self) -> Seq<char> {
        if self.fold > 0 {
            self.phase.name() + ": fold "@ + decimal((self.fold + 1) as nat) + ", эпоха "@
                + decimal(self.epoch as nat) + ", loss "@ + self.shown_loss@
        } else {
            let head = self.phase.name() + ": эпоха "@ + decimal(self.epoch as nat) + ", loss "@
                + self.shown_loss@;
            if self.val_r2 is Some {
                head + ", validation R² "@ + self.shown_r2@
            } else {
                head
            }
        }
    }
}

impl Curves {
    /// An epoch passed. Only the first fold draws: the epochs of the folds
    /// repeat, and one line through all of them would describe none. The
    /// validation score is drawn only while developing: the final training
    /// learns from the validation rows.
    pub open spec fn grew(self, next: Curves, e: EpochEvent) -> bool {
        let mark = Mark { at: e.epoch, value: e.loss };
        let develops = e.phase == Phase::Development;
        &&& next.folds == self.folds
        &&& next.parameter_count == self.parameter_count
        &&& next.loss@ == if e.fold == 0 && develops {
            self.loss@.push(mark)
        } else {
            self.loss@
        }
        &&& next.final_loss@ == if e.fold == 0 && !develops {
            self.final_loss@.push(mark)
        } else {
            self.final_loss@
        }
        &&& next.val@ == match e.val_r2 {
            Some(r2) => if e.fold == 0 && develops {
                self.val@.push(Mark { at: e.epoch, value: r2 })
            } else {
                self.val@
            },
            None => self.val@,
        }
    }

    fn grow(&mut self, e: &EpochEvent)
        ensures
            old(self).grew(*final(self), *e),
    {
        if e.fold == 0 {
            let mark: Mark = Mark { at: e.epoch, value: e.loss };
            match e.phase {
                Phase::Development => {
                    self.loss.push(mark);
                    if let Some(r2) = e.val_r2 {
                        self.val.push(Mark { at: e.epoch, value: r2 });
                    }
                },
                Phase::Final => {
                    self.final_loss.push(mark);
                },
            }
        }
    }
}

impl EpochEvent {
    fn shown(&self) -> (status: String)
        requires
            self.fold < usize::MAX,
        ensures
            status@ == self.text(),
    {
        let mut status: String = owned(self.phase.label());
        if self.fold == 0 {
            status.append(": эпоха ");
            status.append(decimal_text(self.epoch as u64).as_str());
            status.append(", loss ");
            status.append(self.shown_loss.as_str());
            if self.val_r2.is_some() {
                status.append(", validation R² ");
                status.append(self.shown_r2.as_str());
            }
        } else {
            status.append(": fold ");
            status.append(decimal_text(self.fold as u64 + 1).as_str());
            status.append(", эпоха ");
            status.append(decimal_text(self.epoch as u64).as_str());
            status.append(", loss ");
            status.append(self.shown_loss.as_str());
        }
        status
    }
}

impl Session {
    pub open spec fn epoch_passed(self, next: Session, e: EpochEvent) -> bool {
        &&& next == (Session { curves: next.curves, status: next.status, ..self })
        &&& self.curves.grew(next.curves, e)
        &&& next.status@ == e.text()
    }

    fn on_epoch(&mut self, e: EpochEvent)
        requires
            e.fold < usize::MAX,
        ensures
            old(self).epoch_passed(*final(self), e),
    {
        self.curves.grow(&e);
        self.status = e.shown();
    }
}

/// The end of a training.
#[derive(Debug)]
pub struct TrainDone {
    /// The run that the result belongs to; the form may have changed since.
    pub stamp: RunStamp,
    pub check: Option<CheckEval>,
    /// What the estimate is by what really ran.
    pub check_source: Option<EvalSource>,
    /// How many curves came back, and their mean over the folds.
    pub folds: usize,
    pub mean_loss: Vec<Mark>,
    pub mean_val: Vec<Mark>,
    pub final_eval: Option<FinalEval>,
    /// What the interpretation pipeline did in this run.
    pub interpret: Option<InterpretReports>,
    pub cancelled: bool,
}

impl TrainDone {
    /// The answer to a request for a measurement that was made already.
    pub fn repeated(disclosure: &TestDisclosure) -> (done: TrainDone)
        ensures
            done.stamp == disclosure.stamp,
            done.final_eval matches Some(eval) && eval@ == disclosure.eval@,
            done.check is None,
            done.check_source is None,
            done.folds == 0,
            done.mean_loss@.len() == 0,
            done.mean_val@.len() == 0,
            done.interpret is None,
            !done.cancelled,
    {
        TrainDone {
            stamp: disclosure.stamp,
            check: None,
            check_source: None,
            folds: 0,
            mean_loss: Vec::new(),
            mean_val: Vec::new(),
            final_eval: Some(disclosure.eval.copied()),
            interpret: None,
            cancelled: false,
        }
    }

    /// The estimate is of the kind that the run promised.
    pub open spec fn counts(self) -> bool {
        !self.cancelled && self.check is Some && self.check_source == Some(
            self.stamp.split.source(),
        )
    }

    /// There is an estimate, and it is of another kind.
    pub open spec fn strays(self) -> bool {
        !self.cancelled && self.check is Some && self.check_source is Some && self.check_source
            != Some(self.stamp.split.source())
    }

    /// The test rows were measured under another division than the run's.
    pub open spec fn mismatched(self) -> bool {
        !self.cancelled && (self.final_eval matches Some(eval) && !eval.plan.equals(
            self.stamp.split,
        ))
    }

    fn shown(&self) -> (text: String)
        ensures
            text@ == self.text(),
    {
        if self.cancelled {
            return owned("обучение отменено");
        }
        if let Some(eval) = &self.final_eval {
            if !eval.plan.same_as(&self.stamp.split) {
                return owned("внутренняя ошибка: test и stamp описывают разные split");
            }
        }
        if self.check.is_some() {
            if let Some(source) = self.check_source {
                if source != self.stamp.split.eval_source() {
                    return owned("внутренняя ошибка: оценка и stamp описывают разные протоколы");
                }
            }
        }
        if self.final_eval.is_some() {
            owned("финальное обучение завершено, test открыт")
        } else {
            owned("проверка завершена")
        }
    }

    pub open spec fn text(self) -> Seq<char> {
        if self.mismatched() {
            "внутренняя ошибка: test и stamp описывают разные split"@
        } else if self.strays() {
            "внутренняя ошибка: оценка и stamp описывают разные протоколы"@
        } else if self.cancelled {
            "обучение отменено"@
        } else if self.final_eval is Some {
            "финальное обучение завершено, test открыт"@
        } else {
            "проверка завершена"@
        }
    }
}

impl Curves {
    /// Several folds are drawn by their mean.
    pub open spec fn averaged(self, next: Curves, done: TrainDone) -> bool {
        &&& next.final_loss@ == self.final_loss@
        &&& next.parameter_count == self.parameter_count
        &&& next.loss@ == if done.folds > 1 {
            done.mean_loss@
        } else {
            self.loss@
        }
        &&& next.val@ == if done.folds > 1 {
            done.mean_val@
        } else {
            self.val@
        }
        &&& next.folds == if done.folds > 1 {
            done.folds
        } else {
            1
        }
    }
}

impl Lifecycle {
    /// An estimate is recorded for its own run, and only where it is of the
    /// promised kind; a measurement of the test rows is recorded always: it
    /// cannot be taken back.
    pub open spec fn recorded(self, next: Lifecycle, done: TrainDone) -> bool {
        &&& next.last_check == if done.counts() {
            Some(
                CheckedRun {
                    stamp: done.stamp,
                    eval: done.check->0,
                    interpret: done.interpret,
                },
            )
        } else {
            self.last_check
        }
        &&& next.disclosures@ == match done.final_eval {
            Some(eval) => self.disclosures@.push(TestDisclosure { stamp: done.stamp, eval }),
            None => self.disclosures@,
        }
    }
}

impl Session {
    /// A training ended. A cancelled one leaves no trace.
    pub open spec fn train_ended(self, next: Session, done: TrainDone) -> bool {
        &&& next == (Session {
            training: false,
            lifecycle: next.lifecycle,
            curves: next.curves,
            status: next.status,
            ..self
        })
        &&& next.status@ == done.text()
        &&& if done.cancelled {
            next.lifecycle == self.lifecycle && next.curves == self.curves
        } else {
            self.lifecycle.recorded(next.lifecycle, done) && self.curves.averaged(
                next.curves,
                done,
            )
        }
    }

    fn on_train_done(&mut self, done: TrainDone)
        ensures
            old(self).train_ended(*final(self), done),
    {
        self.training = false;
        self.status = done.shown();
        if done.cancelled {
            return;
        }
        if done.folds > 1 {
            self.curves.loss = done.mean_loss;
            self.curves.val = done.mean_val;
            self.curves.folds = done.folds;
        } else {
            self.curves.folds = 1;
        }
        match (done.check, done.check_source) {
            (Some(eval), Some(source)) => {
                if source == done.stamp.split.eval_source() {
                    self.lifecycle.record_check(
                        CheckedRun { stamp: done.stamp, eval, interpret: done.interpret },
                    );
                }
            },
            _ => {},
        }
        match done.final_eval {
            Some(eval) => {
                self.lifecycle.record_disclosure(TestDisclosure { stamp: done.stamp, eval });
            },
            None => {},
        }
    }

    /// The revision for the next dataset: a revision is never given out
    /// twice.
    pub fn next_revision(&mut self) -> (revision: u64)
        requires
            old(self).dataset_revision < u64::MAX,
        ensures
            revision == old(self).dataset_revision + 1,
            *final(self) == (Session { dataset_revision: revision, ..*old(self) }),
    {
        self.dataset_revision = self.dataset_revision + 1;
        self.dataset_revision
    }

    /// The active dataset changed: the results of a search and the last
    /// check were of other data. What was measured on test rows stays, and
    /// so does the model.
    pub open spec fn dataset_set(self, next: Session, dataset: ActiveDataset) -> bool {
        &&& next == (Session {
            dataset: Some(dataset),
            lifecycle: next.lifecycle,
            search: SearchState {
                rows: next.search.rows,
                total: None,
                stamp: None,
                selected: None,
                ..self.search
            },
            ..self
        })
        &&& next.lifecycle.last_check is None
        &&& next.lifecycle.disclosures@ == self.lifecycle.disclosures@
        &&& next.search.rows@.len() == 0
    }

    pub fn set_dataset(&mut self, dataset: ActiveDataset)
        ensures
            old(self).dataset_set(*final(self), dataset),
    {
        self.dataset = Some(dataset);
        self.lifecycle.on_dataset_changed();
        self.search.rows = Vec::new();
        self.search.total = None;
        self.search.stamp = None;
        self.search.selected = None;
    }

    /// The choice of columns was not applied: the dialogue says why, and
    /// nothing else changes.
    pub open spec fn markup_refused(self, next: Session, reason: Seq<char>) -> bool {
        &&& next == (Session { markup: next.markup, ..self })
        &&& next.markup matches Some(state) && state == (MarkupState {
            apply_error: state.apply_error,
            ..self.markup->0
        }) && said(state.apply_error) == Some(reason)
    }

    /// The choice of columns was applied: the table becomes the active
    /// dataset under a new revision, with the remarks on it, and the dialogue
    /// is closed.
    pub open spec fn markup_taken(
        self,
        next: Session,
        data: NumericDataset,
        schema: ModelSchema,
        split: SplitPlan,
    ) -> bool {
        let state = self.markup->0;
        &&& next.dataset matches Some(active) && active == (ActiveDataset {
            prepared: PreparedData { origin: DatasetOrigin::Table(state.path), data, schema },
            profile_notes: Some(state.profile@.len() as usize),
            role_notes: state.report@.len() as usize,
            split,
            table_has_header: state.has_header,
            revision: next.dataset_revision,
            fingerprint: active.fingerprint,
        })
        &&& next.dataset_revision == self.dataset_revision + 1
        &&& next.status@ == "разметка применена"@
        &&& (Session {
            markup: None,
            dataset_revision: next.dataset_revision,
            status: next.status,
            ..self
        }).dataset_set(next, next.dataset->0)
    }

    /// Applies the choice of columns, given what building the dataset from it
    /// came to. A remark that stands in the way comes before anything that
    /// was built.
    pub fn apply_markup(
        &mut self,
        built: Result<(NumericDataset, ModelSchema), String>,
        split: SplitPlan,
    ) -> (applied: bool)
        requires
            old(self).wf(),
            old(self).dataset_revision < u64::MAX,
            built matches Ok((data, schema)) ==> data.wf() && schema@.inputs.len()
                == data.inputs.cols && schema@.outputs.len() == data.outputs.cols,
        ensures
            final(self).wf(),
            match old(self).markup {
                None => !applied && *final(self) == *old(self),
                Some(state) => match (state.first_block(), built) {
                    (Some(text), _) => !applied && old(self).markup_refused(*final(self), text),
                    (None, Err(e)) => !applied && old(self).markup_refused(*final(self), e@),
                    (None, Ok((data, schema))) => applied && old(self).markup_taken(
                        *final(self),
                        data,
                        schema,
                        split,
                    ),
                },
            },
    {
        match self.markup.take() {
            None => false,
            Some(mut state) => match state.apply(built) {
                Err(e) => {
                    state.apply_error = Some(e);
                    self.markup = Some(state);
                    false
                },
                Ok((data, schema)) => {
                    let profile: usize = state.profile.len();
                    let roles: usize = state.report.len();
                    let prepared: PreparedData = PreparedData {
                        origin: DatasetOrigin::Table(state.path),
                        data,
                        schema,
                    };
                    let revision: u64 = self.next_revision();
                    self.status = owned("разметка применена");
                    self.set_dataset(
                        ActiveDataset::new(
                            prepared,
                            Some(profile),
                            roles,
                            state.has_header,
                            revision,
                            split,
                        ),
                    );
                    true
                },
            },
        }
    }

    /// Data were opened: they become the active dataset under a new
    /// revision.
    pub open spec fn data_opened(
        self,
        next: Session,
        data: PreparedData,
        file_name: Option<Seq<char>>,
        split: SplitPlan,
    ) -> bool {
        &&& next.dataset matches Some(active) && active == (ActiveDataset {
            prepared: data,
            profile_notes: None,
            role_notes: 0,
            split,
            table_has_header: true,
            revision: next.dataset_revision,
            fingerprint: active.fingerprint,
        })
        &&& next.dataset_revision == self.dataset_revision + 1
        &&& next.status@ == "данные открыты: "@ + data.origin.short(file_name)
        &&& (Session {
            dataset_opening: false,
            dataset_revision: next.dataset_revision,
            status: next.status,
            ..self
        }).dataset_set(next, next.dataset->0)
    }

    fn on_dataset_opened(&mut self, data: PreparedData, file_name: Option<String>, split: SplitPlan)
        requires
            old(self).wf(),
            fits(data),
            old(self).dataset_revision < u64::MAX,
        ensures
            final(self).wf(),
            old(self).data_opened(*final(self), data, said(file_name), split),
    {
        self.dataset_opening = false;
        let mut status: String = owned("данные открыты: ");
        let name: String = match &file_name {
            Some(n) => data.origin.short_name(Some(n.as_str())),
            None => data.origin.short_name(None),
        };
        status.append(name.as_str());
        self.status = status;
        let revision: u64 = self.next_revision();
        self.set_dataset(ActiveDataset::new(data, None, 0, true, revision, split));
    }

    /// A table was opened: its columns are to be marked up.
    pub open spec fn table_opened(self, next: Session, markup: MarkupState) -> bool {
        &&& next == (Session {
            table_opening: false,
            markup: Some(markup),
            status: next.status,
            ..self
        })
        &&& next.status@ == "таблица открыта: "@ + markup.path@
    }

    fn on_table_opened(&mut self, markup: MarkupState)
        ensures
            old(self).table_opened(*final(self), markup),
    {
        self.table_opening = false;
        let mut status: String = owned("таблица открыта: ");
        status.append(markup.path.as_str());
        self.status = status;
        self.markup = Some(markup);
    }
}

impl KanState {
    pub open spec fn wf(self) -> bool {
        self.info matches Some(info) ==> info.wf()
    }

    /// The edge that is drawn next: the chosen one, moved into the layer. No
    /// edge where the layer does not exist.
    pub open spec fn next_edge(self) -> Option<(usize, usize)> {
        match self.info {
            Some(info) => if self.layer < info.layer_dims@.len() {
                let dims = info.layer_dims@[self.layer as int];
                Some(
                    (
                        if self.input < dims.0 {
                            self.input
                        } else {
                            (dims.0 - 1) as usize
                        },
                        if self.output < dims.1 {
                            self.output
                        } else {
                            (dims.1 - 1) as usize
                        },
                    ),
                )
            } else {
                None
            },
            None => None,
        }
    }

    pub open spec fn edge_requested(
        self,
        next: KanState,
        command: Option<SampleKanEdge>,
    ) -> bool {
        match self.next_edge() {
            Some((input, output)) => {
                &&& next == (KanState { input, output, curve: next.curve, ..self })
                &&& next.curve@.len() == 0
                &&& command == Some(
                    SampleKanEdge {
                        layer: self.layer,
                        input,
                        output,
                        samples: KAN_CURVE_SAMPLES,
                    },
                )
            },
            None => next == self && command is None,
        }
    }

    /// Asks for the curve of the chosen edge.
    pub fn request_kan_curve(&mut self) -> (command: Option<SampleKanEdge>)
        requires
            old(self).wf(),
        ensures
            final(self).wf(),
            old(self).edge_requested(*final(self), command),
    {
        let dims: (usize, usize) = match &self.info {
            Some(info) => if self.layer < info.layer_dims.len() {
                info.layer_dims[self.layer]
            } else {
                return None;
            },
            None => {
                return None;
            },
        };
        if self.input >= dims.0 {
            self.input = dims.0 - 1;
        }
        if self.output >= dims.1 {
            self.output = dims.1 - 1;
        }
        self.curve = Vec::new();
        Some(
            SampleKanEdge {
                layer: self.layer,
                input: self.input,
                output: self.output,
                samples: KAN_CURVE_SAMPLES,
            },
        )
    }

    /// A new model: nothing of the old one stays.
    pub open spec fn fresh(self, info: Option<KanModelInfo>) -> bool {
        &&& self.info == info
        &&& self.layer == 0 && self.input == 0 && self.output == 0
        &&& self.curve@.len() == 0
        &&& self.symbolic is None
        &&& !self.pending
    }

    fn of_model(info: Option<KanModelInfo>) -> (state: KanState)
        ensures
            state.fresh(info),
    {
        KanState {
            info,
            layer: 0,
            input: 0,
            output: 0,
            curve: Vec::new(),
            symbolic: None,
            pending: false,
        }
    }
}

/// A model is ready to predict.
#[derive(Debug)]
pub struct ModelReady {
    pub info: ModelInfo,
    pub kan: Option<KanModelInfo>,
    /// The measurement of the test rows that a file brought with the model.
    pub disclosure: Option<TestDisclosure>,
}

fn zeros(n: usize) -> (list: Vec<Single>)
    ensures
        list@ == Seq::new(n as nat, |i: int| Single { bits: 0 }),
{
    let mut list: Vec<Single> = Vec::new();
    let mut i: usize = 0;
    while i < n
        invariant
            i <= n,
            list@ == Seq::new(i as nat, |k: int| Single { bits: 0 }),
        decreases n - i,
    {
        list.push(Single { bits: 0 });
        i += 1;
        assert(list@ =~= Seq::new(i as nat, |k: int| Single { bits: 0 }));
    }
    list
}

impl Session {
    /// A new model is in place. A model from a file has no curves of this
    /// session; what it brings about the test rows counts as measured.
    /// Everything that was said of the old model goes, and the first edge of
    /// a KAN is drawn.
    pub open spec fn model_placed(
        self,
        next: Session,
        ready: ModelReady,
        command: Option<SampleKanEdge>,
    ) -> bool {
        &&& next == (Session {
            curves: next.curves,
            lifecycle: next.lifecycle,
            model_info: Some(ready.info),
            predict: next.predict,
            kan: next.kan,
            diagnostics: None,
            status: next.status,
            ..self
        })
        &&& if ready.info.origin is Checkpoint {
            next.curves.is_clear() && next.curves.parameter_count is None && next.curves.folds
                == self.curves.folds
        } else {
            next.curves == self.curves
        }
        &&& next.lifecycle.last_check == self.lifecycle.last_check
        &&& next.lifecycle.disclosures@ == match ready.disclosure {
            Some(d) => self.lifecycle.disclosures@.push(d),
            None => self.lifecycle.disclosures@,
        }
        &&& next.predict.inputs@ == Seq::new(
            ready.info.schema@.inputs.len(),
            |i: int| Single { bits: 0 },
        )
        &&& next.predict.outputs is None
        &&& next.predict.extrapolation@.len() == 0
        &&& exists|fresh: KanState|
            fresh.fresh(ready.kan) && #[trigger] fresh.edge_requested(next.kan, command)
        &&& next.status@ == "модель готова к предсказанию"@
    }

    fn on_model_ready(&mut self, ready: ModelReady) -> (command: Option<SampleKanEdge>)
        requires
            old(self).wf(),
            ready.kan matches Some(info) ==> info.wf(),
        ensures
            final(self).wf(),
            old(self).model_placed(*final(self), ready, command),
    {
        self.predict = PredictState {
            inputs: zeros(ready.info.schema.n_inputs()),
            outputs: None,
            extrapolation: Vec::new(),
        };
        if let ModelOrigin::Checkpoint = ready.info.origin {
            self.curves.clear(None);
        }
        if let Some(d) = ready.disclosure {
            self.lifecycle.record_disclosure(d);
        }
        self.model_info = Some(ready.info);
        self.diagnostics = None;
        self.status = owned("модель готова к предсказанию");
        let mut kan: KanState = KanState::of_model(ready.kan);
        let ghost fresh = kan;
        let command: Option<SampleKanEdge> = kan.request_kan_curve();
        assert(fresh.fresh(ready.kan) && fresh.edge_requested(kan, command));
        self.kan = kan;
        command
    }

    /// A table was filled: how many rows, how many of them outside the
    /// trained range, and which columns were replaced or added.
    pub open spec fn export_text(output: Seq<char>, summary: ExportSummary) -> Seq<char> {
        let head = "Таблица с прогнозами: "@ + output + " ("@ + decimal(summary.rows as nat)
            + " строк"@;
        let ranged = if summary.extrapolated_rows > 0 {
            head + ", "@ + decimal(summary.extrapolated_rows as nat)
                + " вне обученного диапазона"@
        } else {
            head
        };
        let replaced = if summary.replaced@.len() > 0 {
            ranged + "; заменены: "@ + joined(texts(summary.replaced@), ", "@)
        } else {
            ranged
        };
        let added = if summary.added@.len() > 0 {
            replaced + "; добавлены: "@ + joined(texts(summary.added@), ", "@)
        } else {
            replaced
        };
        added + ")"@
    }

    pub open spec fn exported(self, next: Session, output: Seq<char>, summary: ExportSummary) -> bool {
        &&& next == (Session { batch_predicting: false, status: next.status, ..self })
        &&& next.status@ == Session::export_text(output, summary)
    }

    fn on_export_done(&mut self, output: String, summary: ExportSummary)
        ensures
            old(self).exported(*final(self), output@, summary),
    {
        self.batch_predicting = false;
        self.status = export_status(output.as_str(), &summary);
    }
}

fn export_status(output: &str, summary: &ExportSummary) -> (status: String)
    ensures
        status@ == Session::export_text(output@, *summary),
{
    let mut status: String = owned("Таблица с прогнозами: ");
    status.append(output);
    status.append(" (");
    status.append(decimal_text(summary.rows as u64).as_str());
    status.append(" строк");
    if summary.extrapolated_rows > 0 {
        status.append(", ");
        status.append(decimal_text(summary.extrapolated_rows as u64).as_str());
        status.append(" вне обученного диапазона");
    }
    if summary.replaced.len() > 0 {
        status.append("; заменены: ");
        status.append(join(&summary.replaced, ", ").as_str());
    }
    if summary.added.len() > 0 {
        status.append("; добавлены: ");
        status.append(join(&summary.added, ", ").as_str());
    }
    status.append(")");
    status
}

impl Session {
    pub open spec fn search_began(self, next: Session, configs: usize, runs: usize) -> bool {
        &&& next == (Session {
            search: SearchState {
                running: true,
                rows: next.search.rows,
                total: Some((configs, runs)),
                cancelled: false,
                ..self.search
            },
            status: next.status,
            ..self
        })
        &&& next.search.rows@.len() == 0
        &&& next.status@ == "поиск: 0/"@ + decimal(configs as nat) + " конфигураций ("@ + decimal(
            runs as nat,
        ) + " прогонов)"@
    }

    fn on_search_started(&mut self, total_configs: usize, total_runs: usize)
        ensures
            old(self).search_began(*final(self), total_configs, total_runs),
    {
        self.search.running = true;
        self.search.rows = Vec::new();
        self.search.total = Some((total_configs, total_runs));
        self.search.cancelled = false;
        let mut status: String = owned("поиск: 0/");
        status.append(decimal_text(total_configs as u64).as_str());
        status.append(" конфигураций (");
        status.append(decimal_text(total_runs as u64).as_str());
        status.append(" прогонов)");
        self.status = status;
    }

    /// A configuration came to a result: the results stay ranked.
    pub open spec fn search_grew(self, next: Session, row: SweepRow) -> bool {
        &&& next == (Session {
            search: SearchState { rows: next.search.rows, ..self.search },
            status: next.status,
            ..self
        })
        &&& next.search.rows@ == ranked(
            self.search.rows@.push(row),
            SweepObjective::numbered(self.search.form.objective),
        )
        &&& next.status@ == match self.search.total {
            Some((configs, _)) => "поиск: "@ + decimal(next.search.rows@.len()) + "/"@ + decimal(
                configs as nat,
            ) + " конфигураций"@,
            None => self.status@,
        }
    }

    fn on_search_row(&mut self, row: SweepRow)
        ensures
            old(self).search_grew(*final(self), row),
    {
        self.search.rows.push(row);
        let objective: SweepObjective = self.search.form.objective();
        sort_rows(&mut self.search.rows, objective);
        if let Some((configs, _)) = self.search.total {
            let mut status: String = owned("поиск: ");
            status.append(decimal_text(self.search.rows.len() as u64).as_str());
            status.append("/");
            status.append(decimal_text(configs as u64).as_str());
            status.append(" конфигураций");
            self.status = status;
        }
    }

    pub open spec fn search_ended(
        self,
        next: Session,
        rows: Seq<SweepRow>,
        cancelled: bool,
    ) -> bool {
        &&& next == (Session {
            search: SearchState {
                running: false,
                rows: next.search.rows,
                cancelled,
                ..self.search
            },
            status: next.status,
            ..self
        })
        &&& next.search.rows@ == ranked(rows, SweepObjective::numbered(self.search.form.objective))
        &&& next.status@ == if cancelled {
            "поиск отменён"@
        } else {
            "поиск завершён"@
        }
    }

    fn on_search_done(&mut self, rows: Vec<SweepRow>, cancelled: bool)
        ensures
            old(self).search_ended(*final(self), rows@, cancelled),
    {
        self.search.running = false;
        self.search.rows = rows;
        let objective: SweepObjective = self.search.form.objective();
        sort_rows(&mut self.search.rows, objective);
        self.search.cancelled = cancelled;
        self.status = if cancelled {
            owned("поиск отменён")
        } else {
            owned("поиск завершён")
        };
    }

    pub open spec fn text_began(self, next: Session, steps: usize) -> bool {
        &&& next == (Session {
            text: TextState {
                training: true,
                ready: false,
                curve: next.text.curve,
                generated: next.text.generated,
                vocab_size: None,
                ..self.text
            },
            status: next.status,
            ..self
        })
        &&& next.text.curve@.len() == 0
        &&& next.text.generated@.len() == 0
        &&& next.status@ == "text: 0/"@ + decimal(steps as nat) + " шагов"@
    }

    fn on_text_started(&mut self, total_steps: usize)
        ensures
            old(self).text_began(*final(self), total_steps),
    {
        proof {
            reveal_strlit("");
        }
        self.text.training = true;
        self.text.ready = false;
        self.text.curve = Vec::new();
        self.text.generated = owned("");
        self.text.vocab_size = None;
        let mut status: String = owned("text: 0/");
        status.append(decimal_text(total_steps as u64).as_str());
        status.append(" шагов");
        self.status = status;
    }
}

/// A step of a text training, with its loss and perplexity as shown.
#[derive(Debug)]
pub struct TextProgress {
    pub step: usize,
    pub perplexity: Single,
    pub shown_loss: String,
    pub shown_perplexity: String,
}

/// The end of a text training.
#[derive(Debug)]
pub struct TextDone {
    /// The last loss and its perplexity as shown.
    pub shown: Option<(String, String)>,
    pub cancelled: bool,
    pub vocab_size: usize,
    pub seed_hint: String,
}

impl Session {
    pub open spec fn text_moved(self, next: Session, p: TextProgress) -> bool {
        &&& next == (Session {
            text: TextState { curve: next.text.curve, ..self.text },
            status: next.status,
            ..self
        })
        &&& next.text.curve@ == self.text.curve@.push(Mark { at: p.step, value: p.perplexity })
        &&& next.status@ == "text шаг "@ + decimal(p.step as nat) + ": loss "@ + p.shown_loss@
            + ", ppl "@ + p.shown_perplexity@
    }

    fn on_text_progress(&mut self, p: TextProgress)
        ensures
            old(self).text_moved(*final(self), p),
    {
        self.text.curve.push(Mark { at: p.step, value: p.perplexity });
        let mut status: String = owned("text шаг ");
        status.append(decimal_text(p.step as u64).as_str());
        status.append(": loss ");
        status.append(p.shown_loss.as_str());
        status.append(", ppl ");
        status.append(p.shown_perplexity.as_str());
        self.status = status;
    }

    /// A text training ended. One that was not cancelled leaves a model that
    /// can generate, and a seed for it where none was written.
    pub open spec fn text_ended(self, next: Session, done: TextDone) -> bool {
        &&& next == (Session {
            text: TextState {
                training: false,
                vocab_size: Some(done.vocab_size),
                ready: self.text.ready || !done.cancelled,
                seed_text: next.text.seed_text,
                ..self.text
            },
            status: next.status,
            ..self
        })
        &&& next.text.seed_text@ == if !done.cancelled && self.text.seed_text@.len() == 0 {
            done.seed_hint@
        } else {
            self.text.seed_text@
        }
        &&& next.status@ == if done.cancelled {
            "text обучение отменено"@
        } else {
            match done.shown {
                Some((loss, ppl)) => "text готов: loss "@ + loss@ + ", ppl "@ + ppl@,
                None => "text готов"@,
            }
        }
    }

    fn on_text_done(&mut self, done: TextDone)
        ensures
            old(self).text_ended(*final(self), done),
    {
        self.text.training = false;
        self.text.vocab_size = Some(done.vocab_size);
        if done.cancelled {
            self.status = owned("text обучение отменено");
            return;
        }
        self.text.ready = true;
        self.status = match &done.shown {
            Some((loss, ppl)) => {
                let mut status: String = owned("text готов: loss ");
                status.append(loss.as_str());
                status.append(", ppl ");
                status.append(ppl.as_str());
                status
            },
            None => owned("text готов"),
        };
        if is_empty(self.text.seed_text.as_str()) {
            self.text.seed_text = done.seed_hint;
        }
    }
}

/// What the worker reports.
#[allow(inconsistent_fields)]
#[derive(Debug)]
pub enum Event {
    Status(String),
    Error(String),
    TrainStarted { total_epochs: usize, parameter_count: usize },
    Epoch(EpochEvent),
    TrainDone(TrainDone),
    DatasetOpened { data: PreparedData, file_name: Option<String>, split: SplitPlan },
    TableOpened(MarkupState),
    ModelReady(ModelReady),
    PredictResult { outputs: Vec<Single>, extrapolation: Vec<OutOfRange> },
    ExportDone { output: String, summary: ExportSummary },
    KanEdgeCurve { layer: usize, input: usize, output: usize, points: Vec<(Single, Single)> },
    KanSymbolic(KanSymbolicInfo),
    Diagnostics(DiagnosticsResult),
    SearchStarted { total_configs: usize, total_runs: usize },
    SearchRow(SweepRow),
    SearchDone { rows: Vec<SweepRow>, cancelled: bool },
    TextStarted { total_steps: usize },
    TextProgress(TextProgress),
    TextDone(TextDone),
    GeneratedText(String),
    PrepareDone { output: String, rows: usize, n_inputs: usize, n_outputs: usize },
}

pub open spec fn prepared_text(output: Seq<char>, rows: usize, inputs: usize, outputs: usize) -> Seq<
    char,
> {
    "записано "@ + output + ": "@ + decimal(rows as nat) + " строк, "@ + decimal(inputs as nat)
        + " вход -> "@ + decimal(outputs as nat) + " выход"@
}

impl Session {
    /// What the worker may report in this state.
    pub open spec fn expects(self, event: Event) -> bool {
        match event {
            Event::Epoch(e) => e.fold < usize::MAX,
            Event::DatasetOpened { data, .. } => fits(data) && self.dataset_revision < u64::MAX,
            Event::ModelReady(ready) => ready.kan matches Some(info) ==> info.wf(),
            _ => true,
        }
    }

    /// What an event changes; everything else stays.
    pub open spec fn changes(
        self,
        next: Session,
        event: Event,
        command: Option<SampleKanEdge>,
    ) -> bool {
        match event {
            Event::Status(s) => next == (Session { status: s, ..self }),
            Event::Error(e) => self.failed(next, e@),
            Event::TrainStarted { total_epochs, parameter_count } => self.train_began(
                next,
                total_epochs,
                parameter_count,
            ),
            Event::Epoch(e) => self.epoch_passed(next, e),
            Event::TrainDone(done) => self.train_ended(next, done),
            Event::DatasetOpened { data, file_name, split } => self.data_opened(
                next,
                data,
                said(file_name),
                split,
            ),
            Event::TableOpened(markup) => self.table_opened(next, markup),
            Event::ModelReady(ready) => self.model_placed(next, ready, command),
            Event::PredictResult { outputs, extrapolation } => next == (Session {
                predict: PredictState { outputs: Some(outputs), extrapolation, ..self.predict },
                ..self
            }),
            Event::ExportDone { output, summary } => self.exported(next, output@, summary),
            Event::KanEdgeCurve { layer, input, output, points } => next == if layer
                == self.kan.layer && input == self.kan.input && output == self.kan.output {
                Session { kan: KanState { curve: points, ..self.kan }, ..self }
            } else {
                self
            },
            Event::KanSymbolic(result) => next == (Session {
                kan: KanState { symbolic: Some(result), pending: false, ..self.kan },
                status: next.status,
                ..self
            }) && next.status@ == "символьные формулы готовы"@,
            Event::Diagnostics(result) => next == (Session {
                diagnostics: Some(result),
                status: next.status,
                ..self
            }) && next.status@ == "диагностика готова"@,
            Event::SearchStarted { total_configs, total_runs } => self.search_began(
                next,
                total_configs,
                total_runs,
            ),
            Event::SearchRow(row) => self.search_grew(next, row),
            Event::SearchDone { rows, cancelled } => self.search_ended(next, rows@, cancelled),
            Event::TextStarted { total_steps } => self.text_began(next, total_steps),
            Event::TextProgress(p) => self.text_moved(next, p),
            Event::TextDone(done) => self.text_ended(next, done),
            Event::GeneratedText(text) => next == (Session {
                text: TextState { generated: text, ..self.text },
                status: next.status,
                ..self
            }) && next.status@ == "генерация готова"@,
            Event::PrepareDone { output, rows, n_inputs, n_outputs } => next == (Session {
                status: next.status,
                ..self
            }) && next.status@ == prepared_text(output@, rows, n_inputs, n_outputs),
        }
    }

    /// Takes in one event of the worker, and says what to ask the worker for
    /// in turn: a new KAN is drawn at once.
    pub fn take_event(&mut self, event: Event) -> (command: Option<SampleKanEdge>)
        requires
            old(self).wf(),
            old(self).expects(event),
        ensures
            final(self).wf(),
            old(self).changes(*final(self), event, command),
            !(event is ModelReady) ==> command is None,
    {
        match event {
            Event::Status(s) => {
                self.status = s;
            },
            Event::Error(e) => {
                self.on_error(e);
            },
            Event::TrainStarted { total_epochs, parameter_count } => {
                self.on_train_started(total_epochs, parameter_count);
            },
            Event::Epoch(e) => {
                self.on_epoch(e);
            },
            Event::TrainDone(done) => {
                self.on_train_done(done);
            },
            Event::DatasetOpened { data, file_name, split } => {
                self.on_dataset_opened(data, file_name, split);
            },
            Event::TableOpened(markup) => {
                self.on_table_opened(markup);
            },
            Event::ModelReady(ready) => {
                return self.on_model_ready(ready);
            },
            Event::PredictResult { outputs, extrapolation } => {
                self.predict.outputs = Some(outputs);
                self.predict.extrapolation = extrapolation;
            },
            Event::ExportDone { output, summary } => {
                self.on_export_done(output, summary);
            },
            Event::KanEdgeCurve { layer, input, output, points } => {
                if layer == self.kan.layer && input == self.kan.input && output
                    == self.kan.output {
                    self.kan.curve = points;
                }
            },
            Event::KanSymbolic(result) => {
                self.kan.symbolic = Some(result);
                self.kan.pending = false;
                self.status = owned("символьные формулы готовы");
            },
            Event::Diagnostics(result) => {
                self.diagnostics = Some(result);
                self.status = owned("диагностика готова");
            },
            Event::SearchStarted { total_configs, total_runs } => {
                self.on_search_started(total_configs, total_runs);
            },
            Event::SearchRow(row) => {
                self.on_search_row(row);
            },
            Event::SearchDone { rows, cancelled } => {
                self.on_search_done(rows, cancelled);
            },
            Event::TextStarted { total_steps } => {
                self.on_text_started(total_steps);
            },
            Event::TextProgress(p) => {
                self.on_text_progress(p);
            },
            Event::TextDone(done) => {
                self.on_text_done(done);
            },
            Event::GeneratedText(text) => {
                self.text.generated = text;
                self.status = owned("генерация готова");
            },
            Event::PrepareDone { output, rows, n_inputs, n_outputs } => {
                let mut status: String = owned("записано ");
                status.append(output.as_str());
                status.append(": ");
                status.append(decimal_text(rows as u64).as_str());
                status.append(" строк, ");
                status.append(decimal_text(n_inputs as u64).as_str());
                status.append(" вход -> ");
                status.append(decimal_text(n_outputs as u64).as_str());
                status.append(" выход");
                self.status = status;
            },
        }
        None
    }
}

/// Whatever the worker reports, data whose test rows were measured stay
/// measured.
pub proof fn law_what_was_measured_stays(
    before: Session,
    after: Session,
    event: Event,
    command: Option<SampleKanEdge>,
    dataset: Seq<u8>,
)
    requires
        before.changes(after, event, command),
        before.lifecycle.spent(dataset),
    ensures
        after.lifecycle.spent(dataset),
{
    let old_list = before.lifecycle.disclosures@;
    let i = choose|i: int|
        0 <= i < old_list.len() && (#[trigger] old_list[i]).stamp.dataset.0@ == dataset;
    assert(after.lifecycle.disclosures@[i] == old_list[i]);
}

/// After an error nothing keeps the window busy but an open mark-up dialogue.
pub proof fn law_an_error_frees_the_window(
    before: Session,
    after: Session,
    reason: String,
    command: Option<SampleKanEdge>,
)
    requires
        before.changes(after, Event::Error(reason), command),
    ensures
        after.is_busy() == before.markup is Some,
{
}

/// A curve of an edge that is no longer chosen is not drawn.
pub proof fn law_late_curves_are_dropped(
    before: Session,
    after: Session,
    layer: usize,
    input: usize,
    output: usize,
    points: Vec<(Single, Single)>,
    command: Option<SampleKanEdge>,
)
    requires
        before.changes(
            after,
            Event::KanEdgeCurve { layer, input, output, points },
            command,
        ),
        layer != before.kan.layer || input != before.kan.input || output != before.kan.output,
    ensures
        after == before,
{
}

/// Whatever a training ends with, the reports that stand by the last check are
/// those of the checked run: they come with its estimate or stay as they were.
pub proof fn law_reports_stay_with_their_run(before: Session, after: Session, done: TrainDone)
    requires
        before.train_ended(after, done),
    ensures
        done.counts() ==> (after.lifecycle.last_check matches Some(run) && run.stamp == done.stamp
            && run.interpret == done.interpret),
        !done.counts() ==> after.lifecycle.last_check == before.lifecycle.last_check,
{
}

/// The window is busy exactly as long as something runs, is being read or is
/// being marked up.
pub proof fn law_any_work_keeps_the_window_busy(session: Session)
    ensures
        !session.is_busy() <==> {
            &&& !session.training
            &&& !session.search.running
            &&& !session.text.training
            &&& !session.batch_predicting
            &&& !session.kan.pending
            &&& !session.table_opening
            &&& !session.dataset_opening
            &&& session.markup is None
        },
{
}

/// Each kind of work is running from the event that starts it to the event
/// that ends it or an error: no other event touches it.
pub proof fn law_work_runs_from_its_start_to_its_end(
    before: Session,
    after: Session,
    event: Event,
    command: Option<SampleKanEdge>,
)
    requires
        before.changes(after, event, command),
    ensures
        after.training == if event is TrainStarted {
            true
        } else {
            before.training && !(event is TrainDone) && !(event is Error)
        },
        after.search.running == if event is SearchStarted {
            true
        } else {
            before.search.running && !(event is SearchDone) && !(event is Error)
        },
        after.text.training == if event is TextStarted {
            true
        } else {
            before.text.training && !(event is TextDone) && !(event is Error)
        },
        after.batch_predicting == (before.batch_predicting && !(event is ExportDone) && !(
        event is Error)),
        after.kan.pending == (before.kan.pending && !(event is KanSymbolic) && !(
        event is ModelReady) && !(event is Error)),
        after.dataset_opening == (before.dataset_opening && !(event is DatasetOpened) && !(
        event is Error)),
        after.table_opening == (before.table_opening && !(event is TableOpened) && !(
        event is Error)),
{
    if let Event::ModelReady(ready) = event {
        let fresh = choose|fresh: KanState|
            fresh.fresh(ready.kan) && #[trigger] fresh.edge_requested(after.kan, command);
        assert(!fresh.pending);
    }
}

/// Each part of the session changes only on the events that are about it: the
/// data on opening them, the model on a new one, the dialogue on a table, what
/// was measured on the end of a training or a model from a file, and what the
/// user set on none.
pub proof fn law_events_touch_their_own_part(
    before: Session,
    after: Session,
    event: Event,
    command: Option<SampleKanEdge>,
)
    requires
        before.changes(after, event, command),
    ensures
        after.section == before.section,
        after.form == before.form,
        after.eval_every == before.eval_every,
        after.mode == before.mode,
        after.interpret_enabled == before.interpret_enabled,
        after.interpret_overrides == before.interpret_overrides,
        after.search.form == before.search.form,
        !(event is DatasetOpened) ==> after.dataset == before.dataset && after.dataset_revision
            == before.dataset_revision && after.search.stamp == before.search.stamp
            && after.search.selected == before.search.selected,
        !(event is ModelReady) ==> after.model_info == before.model_info && after.kan.info
            == before.kan.info,
        !(event is TableOpened) ==> after.markup == before.markup,
        !(event is TrainDone) && !(event is ModelReady) ==> after.lifecycle.disclosures@
            == before.lifecycle.disclosures@,
        !(event is TrainDone) && !(event is DatasetOpened) ==> after.lifecycle.last_check
            == before.lifecycle.last_check,
        !(event is SearchStarted) && !(event is SearchRow) && !(event is SearchDone) && !(
        event is DatasetOpened) ==> after.search.rows@ == before.search.rows@,
        !(event is Diagnostics) && !(event is ModelReady) ==> after.diagnostics
            == before.diagnostics,
        !(event is PredictResult) && !(event is ModelReady) ==> after.predict == before.predict,
        !(event is TrainStarted) && !(event is Epoch) && !(event is TrainDone) && !(
        event is ModelReady) ==> after.curves == before.curves,
        !(event is TextStarted) && !(event is TextProgress) && !(event is TextDone) && !(
        event is GeneratedText) && !(event is Error) ==> after.text == before.text,
{
}

/// New data make everything void that was found on the old ones: the last
/// check, the results of a search and the chosen row. The revision counts up,
/// the model stays, and so does what was measured.
pub proof fn law_new_data_void_what_was_found_on_the_old(
    before: Session,
    after: Session,
    data: PreparedData,
    file_name: Option<String>,
    split: SplitPlan,
    command: Option<SampleKanEdge>,
)
    requires
        before.changes(after, Event::DatasetOpened { data, file_name, split }, command),
    ensures
        after.dataset matches Some(active) && active.prepared == data && active.split == split
            && active.revision == after.dataset_revision && active.revision
            == before.dataset_revision + 1 && active.profile_notes is None && active.role_notes
            == 0,
        after.lifecycle.last_check is None,
        after.lifecycle.disclosures@ == before.lifecycle.disclosures@,
        after.search.rows@.len() == 0,
        after.search.total is None,
        after.search.stamp is None,
        after.search.selected is None,
        after.model_info == before.model_info,
        after.curves == before.curves,
{
}

/// A training that ended is the last check exactly if it was not cancelled
/// and brought the kind of estimate that its division promises; otherwise the
/// last check stays. A measurement of a training that was not cancelled is
/// always added, behind the earlier ones.
pub proof fn law_only_promised_estimates_are_recorded(
    before: Session,
    after: Session,
    done: TrainDone,
    command: Option<SampleKanEdge>,
)
    requires
        before.changes(after, Event::TrainDone(done), command),
    ensures
        if !done.cancelled && done.check is Some && done.check_source == Some(
            done.stamp.split.source(),
        ) {
            after.lifecycle.last_check matches Some(run) && run.stamp == done.stamp && Some(
                run.eval,
            ) == done.check && run.interpret == done.interpret
        } else {
            after.lifecycle.last_check == before.lifecycle.last_check
        },
        if !done.cancelled && done.final_eval is Some {
            after.lifecycle.disclosures@ == before.lifecycle.disclosures@.push(
                TestDisclosure { stamp: done.stamp, eval: done.final_eval->0 },
            )
        } else {
            after.lifecycle.disclosures@ == before.lifecycle.disclosures@
        },
        done.cancelled ==> after.curves == before.curves,
        !done.cancelled ==> after.curves.folds == if done.folds > 1 {
            done.folds
        } else {
            1
        },
        !done.cancelled && done.folds > 1 ==> after.curves.loss@ == done.mean_loss@
            && after.curves.val@ == done.mean_val@,
        !done.cancelled && done.folds <= 1 ==> after.curves.loss@ == before.curves.loss@
            && after.curves.val@ == before.curves.val@,
        after.curves.final_loss@ == before.curves.final_loss@,
{
}

/// What is said of the end of a training names a measurement under another
/// division before an estimate of another kind, and says nothing of success
/// where one of them occurred.
pub proof fn law_contradictions_are_said(done: TrainDone)
    ensures
        ({
            let other_split = done.final_eval matches Some(eval) && !eval.plan.equals(
                done.stamp.split,
            );
            let other_kind = done.check is Some && done.check_source is Some && done.check_source
                != Some(done.stamp.split.source());
            done.text() == if done.cancelled {
                "обучение отменено"@
            } else if other_split {
                "внутренняя ошибка: test и stamp описывают разные split"@
            } else if other_kind {
                "внутренняя ошибка: оценка и stamp описывают разные протоколы"@
            } else if done.final_eval is Some {
                "финальное обучение завершено, test открыт"@
            } else {
                "проверка завершена"@
            }
        }),
{
}

/// Only the first fold draws. While developing it adds its loss and, where it
/// was measured, its validation score; the final training adds to a curve of
/// its own and never to the validation scores.
pub proof fn law_the_first_fold_draws(
    before: Session,
    after: Session,
    e: EpochEvent,
    command: Option<SampleKanEdge>,
)
    requires
        before.changes(after, Event::Epoch(e), command),
    ensures
        e.fold > 0 ==> after.curves.loss@ == before.curves.loss@ && after.curves.val@
            == before.curves.val@ && after.curves.final_loss@ == before.curves.final_loss@,
        e.fold == 0 && e.phase == Phase::Final ==> after.curves.loss@ == before.curves.loss@
            && after.curves.val@ == before.curves.val@ && after.curves.final_loss@
            == before.curves.final_loss@.push(Mark { at: e.epoch, value: e.loss }),
        e.fold == 0 && e.phase == Phase::Development ==> after.curves.final_loss@
            == before.curves.final_loss@ && after.curves.loss@ == before.curves.loss@.push(
            Mark { at: e.epoch, value: e.loss },
        ),
        e.fold == 0 && e.phase == Phase::Development && e.val_r2 is None ==> after.curves.val@
            == before.curves.val@,
        e.fold == 0 && e.phase == Phase::Development && e.val_r2 is Some ==> after.curves.val@
            == before.curves.val@.push(Mark { at: e.epoch, value: e.val_r2->0 }),
{
}

/// A new model drops what was said of the old one: the prediction, the
/// diagnostics, the curve and the formulas. Of a KAN the first edge is asked
/// for. Only a model from a file clears the curves of the session, and only
/// one that brings a measurement adds one.
pub proof fn law_nothing_of_the_old_model_stays(
    before: Session,
    after: Session,
    ready: ModelReady,
    command: Option<SampleKanEdge>,
)
    requires
        before.changes(after, Event::ModelReady(ready), command),
        ready.kan matches Some(info) ==> info.wf(),
    ensures
        after.model_info == Some(ready.info),
        after.diagnostics is None,
        after.predict.outputs is None,
        after.predict.extrapolation@.len() == 0,
        after.predict.inputs@.len() == ready.info.schema@.inputs.len(),
        after.kan.info == ready.kan,
        after.kan.symbolic is None,
        after.kan.curve@.len() == 0,
        after.kan.layer == 0 && after.kan.input == 0 && after.kan.output == 0,
        command is Some <==> (ready.kan matches Some(info) && info.layer_dims@.len() > 0),
        command matches Some(c) ==> c.layer == 0 && c.input == 0 && c.output == 0,
        if ready.info.origin is Checkpoint {
            after.curves.loss@.len() == 0 && after.curves.val@.len() == 0
                && after.curves.final_loss@.len() == 0 && after.curves.parameter_count is None
        } else {
            after.curves == before.curves
        },
        match ready.disclosure {
            Some(d) => after.lifecycle.disclosures@ == before.lifecycle.disclosures@.push(d),
            None => after.lifecycle.disclosures@ == before.lifecycle.disclosures@,
        },
{
    let fresh = choose|fresh: KanState|
        fresh.fresh(ready.kan) && #[trigger] fresh.edge_requested(after.kan, command);
    assert(fresh.fresh(ready.kan));
    if let Some(info) = ready.kan {
        if info.layer_dims@.len() > 0 {
            assert(info.layer_dims@[0].0 > 0 && info.layer_dims@[0].1 > 0);
        }
    }
}

/// The edge that is asked for lies in its layer: it is the chosen one where that
/// exists, and the last one where the choice lies beyond it.
pub proof fn law_the_edge_that_is_asked_for_exists(
    kan: KanState,
    next: KanState,
    command: Option<SampleKanEdge>,
)
    requires
        kan.wf(),
        kan.edge_requested(next, command),
    ensures
        match command {
            Some(c) => {
                &&& kan.info matches Some(info)
                &&& c.layer == kan.layer && c.layer < info.layer_dims@.len()
                &&& c.input < info.layer_dims@[c.layer as int].0
                &&& c.output < info.layer_dims@[c.layer as int].1
                &&& kan.input < info.layer_dims@[c.layer as int].0 ==> c.input == kan.input
                &&& kan.output < info.layer_dims@[c.layer as int].1 ==> c.output == kan.output
                &&& kan.input >= info.layer_dims@[c.layer as int].0 ==> c.input + 1
                    == info.layer_dims@[c.layer as int].0
                &&& kan.output >= info.layer_dims@[c.layer as int].1 ==> c.output + 1
                    == info.layer_dims@[c.layer as int].1
                &&& c.samples == KAN_CURVE_SAMPLES
                &&& next.input == c.input && next.output == c.output && next.layer == c.layer
                &&& next.curve@.len() == 0
            },
            None => next == kan && (kan.info matches Some(info) ==> kan.layer
                >= info.layer_dims@.len()),
        },
{
    if let Some(info) = kan.info {
        if kan.layer < info.layer_dims@.len() {
            assert(info.layer_dims@[kan.layer as int].0 > 0 && info.layer_dims@[kan.layer as int].1
                > 0);
        }
    }
}

/// A text training leaves a model exactly if it was not cancelled or there was
/// one before, and it offers its seed only where none was written.
pub proof fn law_a_cancelled_text_training_leaves_no_model(
    before: Session,
    after: Session,
    done: TextDone,
    command: Option<SampleKanEdge>,
)
    requires
        before.changes(after, Event::TextDone(done), command),
    ensures
        after.text.ready <==> before.text.ready || !done.cancelled,
        done.cancelled || before.text.seed_text@.len() > 0 ==> after.text.seed_text@
            == before.text.seed_text@,
        !done.cancelled && before.text.seed_text@.len() == 0 ==> after.text.seed_text@
            == done.seed_hint@,
        after.text.curve@ == before.text.curve@,
        after.text.generated@ == before.text.generated@,
        after.text.vocab_size == Some(done.vocab_size),
{
}

/// The parts of a holdout that are shown make up all the rows, as long as the
/// first two fit into them.
pub proof fn law_the_parts_of_a_holdout_make_up_the_rows(
    active: ActiveDataset,
    first: usize,
    second: usize,
    rest: nat,
)
    requires
        active.split is Holdout,
        first + second + rest == active.prepared.data.inputs@.len(),
    ensures
        active.split_text(first, second) == "holdout "@ + decimal(first as nat) + "/"@ + decimal(
            second as nat,
        ) + "/"@ + decimal(rest),
{
}

/// The rows of the folds and the test rows that are shown make up all the
/// rows.
pub proof fn law_folds_and_test_rows_make_up_the_rows(
    active: ActiveDataset,
    first: usize,
    second: usize,
    pool: nat,
)
    requires
        active.split is KFold,
        pool + first == active.prepared.data.inputs@.len(),
    ensures
        active.split_text(first, second) == decimal(active.split->k as nat) + "-fold по "@
            + decimal(pool) + " строкам + test "@ + decimal(first as nat),
{
}

/// Columns that were applied become the active data under the next revision,
/// with the path and the header of their table and the number of remarks on
/// it. The dialogue is closed, and what was found on the old data no longer
/// holds; models, predictions and measurements stay.
pub proof fn law_applied_columns_become_the_data(
    before: Session,
    after: Session,
    data: NumericDataset,
    schema: ModelSchema,
    split: SplitPlan,
)
    requires
        before.markup is Some,
        before.markup_taken(after, data, schema, split),
    ensures
        after.markup is None,
        after.dataset_revision == before.dataset_revision + 1,
        after.dataset matches Some(active) && active.prepared.data == data && active.prepared.schema
            == schema && active.prepared.origin == DatasetOrigin::Table(before.markup->0.path)
            && active.split == split && active.table_has_header == before.markup->0.has_header
            && active.revision == before.dataset_revision + 1 && (
        before.markup->0.profile@.len() <= usize::MAX ==> (active.profile_notes matches Some(p) && p
            == before.markup->0.profile@.len())) && (before.markup->0.report@.len() <= usize::MAX
            ==> active.role_notes == before.markup->0.report@.len()),
        after.lifecycle.last_check is None,
        after.lifecycle.disclosures@ == before.lifecycle.disclosures@,
        after.search.rows@.len() == 0,
        after.search.stamp is None,
        after.search.selected is None,
        after.search.total is None,
        after.model_info == before.model_info,
        after.predict == before.predict,
        after.kan == before.kan,
        after.diagnostics == before.diagnostics,
        after.form == before.form,
        after.training == before.training,
{
}

/// Columns that were refused change nothing but the reason that the dialogue
/// gives: it stays open with every choice that was made in it.
pub proof fn law_refused_columns_change_nothing_else(
    before: Session,
    after: Session,
    reason: Seq<char>,
)
    requires
        before.markup is Some,
        before.markup_refused(after, reason),
    ensures
        after.markup matches Some(state) && (state.apply_error matches Some(e) && e@ == reason)
            && state.columns == before.markup->0.columns && state.path == before.markup->0.path
            && state.has_header == before.markup->0.has_header,
        after.dataset == before.dataset,
        after.dataset_revision == before.dataset_revision,
        after.lifecycle == before.lifecycle,
        after.search == before.search,
        after.status == before.status,
        after.model_info == before.model_info,
{
}

} // verus!

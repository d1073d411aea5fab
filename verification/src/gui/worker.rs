//! The worker's decisions: what each command comes to, what becomes the
//! active model, and what a run may publish.

use crate::blackbox::{boxes, by_name, BlackBox};
use crate::config::ModelConfig;
use crate::data::Vocab;
use crate::epoch_sweep::EvalSource;
use crate::gui::forms::{agree, said};
use crate::gui::messages::{DatasetOrigin, ModelOrigin, Phase};
use crate::gui::runs::{PrepareSpec, TextTrainConfig};
use crate::gui::session::{Mark, TrainDone};
use crate::interpret::{InterpretProfile, InterpretReport, InterpretReports};
use crate::lifecycle::{
    refusal_text, CheckEval, CheckedRun, FinalEval, FinalizeRefusal, Lifecycle, RunStamp, TestDisclosure,
};
use crate::single::Single;
use crate::text::{chars_of, decimal, decimal_text, owned, string_of};
use vstd::prelude::*;
use vstd::string::StringExecFns;

verus! {

/// What the worker is asked for.
#[derive(Clone, Copy, Debug)]
pub enum Job {
    Check(RunStamp),
    Finalize(RunStamp),
    LoadModel,
    SaveModel,
    Diagnose,
    Predict,
    Export,
    SampleEdge,
    ExtractFormulas,
    Search,
    TrainText,
    GenerateText,
    OpenDataset,
    OpenTable,
    Prepare,
    Shutdown,
}

/// What the worker does about it.
#[derive(Debug)]
pub enum Step {
    /// Does the work.
    Work,
    /// Answers with this measurement: it was made already.
    Repeat(usize),
    /// Answers with this error.
    Refuse(String),
    Stop,
}

/// What the worker holds on to between commands.
#[derive(Debug)]
pub struct WorkerState {
    /// The worker's own account of what was checked and measured: it does not
    /// rely on a button being disabled.
    pub lifecycle: Lifecycle,
    /// What the active model is, where there is one.
    pub origin: Option<ModelOrigin>,
    /// What the interpretation pipeline did to the active model.
    pub interpret: Option<InterpretReports>,
    /// There is a text model.
    pub has_text: bool,
}

/// What is answered to a job that needs a model where there is none.
pub open spec fn no_model_text(job: Job) -> Option<Seq<char>> {
    match job {
        Job::SaveModel => Some("нет модели: сначала обучите или загрузите .bin"@),
        Job::Diagnose => Some("нет модели для диагностики"@),
        Job::Predict | Job::Export => Some("нет модели: обучите или загрузите .bin"@),
        Job::SampleEdge => Some("нет модели: обучите или загрузите KAN"@),
        Job::ExtractFormulas => Some("нет модели: сначала обучите KAN"@),
        _ => None,
    }
}

/// What a check leaves as the active model.
#[derive(Clone, Copy, Debug, PartialEq, Eq, Structural)]
pub enum AfterCheck {
    /// The checked model becomes active.
    Replace,
    /// The active model is a result and stays.
    Keep,
    /// There is no checked model.
    Nothing,
}

impl WorkerState {
    /// No dataset was measured twice, and there are reports only on a model
    /// that was trained here.
    pub open spec fn wf(self) -> bool {
        &&& self.origin is None || self.origin == Some(ModelOrigin::Checkpoint)
            ==> self.interpret is None
        &&& forall|i: int, j: int|
            0 <= i < j < self.lifecycle.disclosures@.len() ==> (
            #[trigger] self.lifecycle.disclosures@[i]).stamp.dataset.0@ != (
            #[trigger] self.lifecycle.disclosures@[j]).stamp.dataset.0@
    }

    /// A final or loaded model is a result, and no check replaces it.
    pub open spec fn keeps(self) -> bool {
        self.origin matches Some(origin) && !(origin is Development)
    }

    pub fn new() -> (state: WorkerState)
        ensures
            state.wf(),
            state.lifecycle.last_check is None,
            state.lifecycle.disclosures@.len() == 0,
            state.origin is None,
            state.interpret is None,
            !state.has_text,
    {
        WorkerState { lifecycle: Lifecycle::new(), origin: None, interpret: None, has_text: false }
    }

    /// What a job comes to before any work is done. A candidate is measured
    /// only where the worker's own account allows it.
    pub open spec fn answers(self, job: Job, step: Step) -> bool {
        match job {
            Job::Shutdown => step is Stop,
            Job::Finalize(stamp) => match self.lifecycle.verdict(stamp) {
                Ok(_) => step is Work,
                Err(FinalizeRefusal::AlreadyFinalized) => step matches Step::Repeat(i) && i
                    < self.lifecycle.disclosures@.len()
                    && self.lifecycle.disclosures@[i as int].stamp.equals(stamp),
                Err(refusal) => step matches Step::Refuse(e) && e@ == refusal_text(refusal),
            },
            Job::GenerateText => if self.has_text {
                step is Work
            } else {
                step matches Step::Refuse(e) && e@ == "нет text-модели: сначала обучите"@
            },
            _ => match no_model_text(job) {
                Some(text) => if self.origin is Some {
                    step is Work
                } else {
                    step matches Step::Refuse(e) && e@ == text
                },
                None => step is Work,
            },
        }
    }

    fn with_model(&self, refusal: &str) -> (step: Step)
        ensures
            if self.origin is Some {
                step is Work
            } else {
                step matches Step::Refuse(e) && e@ == refusal@
            },
    {
        if self.origin.is_some() {
            Step::Work
        } else {
            Step::Refuse(owned(refusal))
        }
    }

    pub fn begin(&self, job: &Job) -> (step: Step)
        ensures
            self.answers(*job, step),
    {
        match *job {
            Job::Shutdown => Step::Stop,
            Job::Finalize(stamp) => match self.lifecycle.can_finalize(&stamp) {
                Ok(_) => Step::Work,
                Err(refusal) => {
                    if let Some(i) = self.lifecycle.disclosure_for(&stamp) {
                        return Step::Repeat(i);
                    }
                    Step::Refuse(refusal.message())
                },
            },
            Job::GenerateText => if self.has_text {
                Step::Work
            } else {
                Step::Refuse(owned("нет text-модели: сначала обучите"))
            },
            Job::SaveModel => self.with_model("нет модели: сначала обучите или загрузите .bin"),
            Job::Diagnose => self.with_model("нет модели для диагностики"),
            Job::Predict | Job::Export => self.with_model("нет модели: обучите или загрузите .bin"),
            Job::SampleEdge => self.with_model("нет модели: обучите или загрузите KAN"),
            Job::ExtractFormulas => self.with_model("нет модели: сначала обучите KAN"),
            _ => Step::Work,
        }
    }

    /// A check ended with this estimate, these reports and, perhaps, a model.
    /// A checked model becomes active only as long as there is no result to
    /// keep, and brings its reports along.
    pub fn finish_check(
        &mut self,
        stamp: RunStamp,
        eval: Option<CheckEval>,
        interpret: Option<InterpretReports>,
        trained: bool,
    ) -> (after: AfterCheck)
        requires
            old(self).wf(),
        ensures
            final(self).wf(),
            final(self).lifecycle.disclosures@ == old(self).lifecycle.disclosures@,
            final(self).lifecycle.last_check == match eval {
                Some(e) => Some(CheckedRun { stamp, eval: e, interpret }),
                None => old(self).lifecycle.last_check,
            },
            final(self).has_text == old(self).has_text,
            after == if !trained {
                AfterCheck::Nothing
            } else if old(self).keeps() {
                AfterCheck::Keep
            } else {
                AfterCheck::Replace
            },
            final(self).origin == if after == AfterCheck::Replace {
                Some(ModelOrigin::Development(stamp))
            } else {
                old(self).origin
            },
            final(self).interpret == if after == AfterCheck::Replace {
                interpret
            } else {
                old(self).interpret
            },
    {
        if let Some(e) = eval {
            self.lifecycle.record_check(CheckedRun { stamp, eval: e, interpret });
        }
        if !trained {
            return AfterCheck::Nothing;
        }
        let keep: bool = match self.origin {
            Some(ModelOrigin::Final(_)) | Some(ModelOrigin::Checkpoint) => true,
            _ => false,
        };
        if keep {
            AfterCheck::Keep
        } else {
            self.origin = Some(ModelOrigin::Development(stamp));
            self.interpret = interpret;
            AfterCheck::Replace
        }
    }

    /// A final training ended with this measurement, these reports and,
    /// perhaps, a model.
    pub fn finish_finalize(
        &mut self,
        stamp: RunStamp,
        eval: Option<FinalEval>,
        interpret: Option<InterpretReports>,
        trained: bool,
    )
        requires
            old(self).wf(),
            old(self).lifecycle.verdict(stamp) is Ok,
        ensures
            final(self).wf(),
            final(self).lifecycle.last_check == old(self).lifecycle.last_check,
            final(self).lifecycle.disclosures@ == match eval {
                Some(e) => old(self).lifecycle.disclosures@.push(
                    TestDisclosure { stamp, eval: e },
                ),
                None => old(self).lifecycle.disclosures@,
            },
            final(self).has_text == old(self).has_text,
            final(self).origin == if trained {
                Some(ModelOrigin::Final(stamp))
            } else {
                old(self).origin
            },
            final(self).interpret == if trained {
                interpret
            } else {
                old(self).interpret
            },
    {
        if let Some(e) = eval {
            self.lifecycle.record_disclosure(TestDisclosure { stamp, eval: e });
            assert forall|i: int, j: int|
                0 <= i < j < self.lifecycle.disclosures@.len() implies (
            #[trigger] self.lifecycle.disclosures@[i]).stamp.dataset.0@ != (
            #[trigger] self.lifecycle.disclosures@[j]).stamp.dataset.0@ by {
                let before = old(self).lifecycle.disclosures@;
                assert(self.lifecycle.disclosures@[i] == before[i]);
                if j < before.len() {
                    assert(self.lifecycle.disclosures@[j] == before[j]);
                } else {
                    assert(!old(self).lifecycle.spent(stamp.dataset.0@));
                }
            }
        }
        if trained {
            self.origin = Some(ModelOrigin::Final(stamp));
            self.interpret = interpret;
        }
    }

    /// A model was read from a file.
    pub fn finish_load(&mut self)
        requires
            old(self).wf(),
        ensures
            final(self).wf(),
            final(self).origin == Some(ModelOrigin::Checkpoint),
            final(self).interpret is None,
            final(self).lifecycle == old(self).lifecycle,
            final(self).has_text == old(self).has_text,
    {
        self.origin = Some(ModelOrigin::Checkpoint);
        self.interpret = None;
    }

    /// A text training ended; a cancelled one leaves the old model.
    pub fn finish_text(&mut self, trained: bool)
        requires
            old(self).wf(),
        ensures
            final(self).wf(),
            final(self).has_text == (old(self).has_text || trained),
            final(self).lifecycle == old(self).lifecycle,
            final(self).origin == old(self).origin,
            final(self).interpret == old(self).interpret,
    {
        if trained {
            self.has_text = true;
        }
    }
}

/// Whatever is asked of the worker, it measures the test rows of a dataset
/// once: after a measurement every further request for the same data is
/// answered without work.
pub proof fn law_worker_measures_a_dataset_once(state: WorkerState, i: int, stamp: RunStamp, step: Step)
    requires
        state.wf(),
        0 <= i < state.lifecycle.disclosures@.len(),
        state.lifecycle.disclosures@[i].stamp.dataset.0@ == stamp.dataset.0@,
        state.answers(Job::Finalize(stamp), step),
    ensures
        !(step is Work),
{
    crate::lifecycle::law_test_rows_open_once(state.lifecycle, i, stamp);
}

/// A candidate that was not the last one checked is not measured.
pub proof fn law_worker_measures_only_what_was_checked(state: WorkerState, stamp: RunStamp, step: Step)
    requires
        state.answers(Job::Finalize(stamp), step),
        step is Work,
    ensures
        state.lifecycle.was_checked(stamp),
{
}

/// What a run is for.
#[derive(Clone, Copy, Debug, PartialEq, Eq, Structural)]
pub enum RunKind {
    /// An estimate on the validation rows or over folds.
    Check,
    /// A training on everything but the test rows, and their measurement.
    Finalize,
}

/// The report of a pipeline on the model of a phase.
#[derive(Clone, Copy, Debug, PartialEq, Eq)]
pub struct PipelineReport {
    pub phase: Phase,
    pub report: InterpretReport,
}

/// The first report of a phase from the `k`-th on.
pub open spec fn first_report(reports: Seq<PipelineReport>, phase: Phase, k: int) -> Option<
    InterpretReport,
>
    decreases reports.len() - k,
{
    if k < 0 || k >= reports.len() {
        None
    } else if reports[k].phase == phase {
        Some(reports[k].report)
    } else {
        first_report(reports, phase, k + 1)
    }
}

/// A running training and its interpretation pipeline.
#[derive(Debug)]
pub struct Run {
    pub kind: RunKind,
    pub profile: Option<InterpretProfile>,
    pub error: Option<String>,
    /// The training is to stop at its next opportunity.
    pub cancel: bool,
    pub reports: Vec<PipelineReport>,
}

/// How a run ends.
#[derive(Clone, Copy, Debug, PartialEq, Eq, Structural)]
pub enum Ending {
    /// The pipeline failed: the error is all there is.
    Failed,
    /// Cancelled: no estimate, no model, no measurement.
    Cancelled,
    /// An estimate over folds: there are as many models as folds, and none
    /// of them stands for it.
    FoldsOnly,
    Trained,
}

impl Run {
    /// A failed pipeline stops the training.
    pub open spec fn wf(self) -> bool {
        self.error is Some ==> self.cancel
    }

    pub fn new(kind: RunKind, profile: Option<InterpretProfile>, cancel: bool) -> (run: Run)
        ensures
            run.wf(),
            run.kind == kind,
            run.profile == profile,
            run.error is None,
            run.cancel == cancel,
            run.reports@.len() == 0,
    {
        Run { kind, profile, error: None, cancel, reports: Vec::new() }
    }

    /// Whether the pipeline is to be applied to a model: where one was asked
    /// for and has not failed yet.
    pub open spec fn applies(self) -> bool {
        self.profile is Some && self.error is None
    }

    pub fn wants_pipeline(&self) -> (yes: bool)
        ensures
            yes == self.applies(),
    {
        self.profile.is_some() && self.error.is_none()
    }

    /// A step of the pipeline ended. A failure stops the training before the
    /// test rows are measured.
    pub fn pipeline_done(&mut self, outcome: Result<Option<PipelineReport>, String>)
        requires
            old(self).wf(),
            old(self).applies(),
        ensures
            final(self).wf(),
            final(self).kind == old(self).kind,
            final(self).profile == old(self).profile,
            match outcome {
                Ok(report) => {
                    &&& final(self).error is None
                    &&& final(self).cancel == old(self).cancel
                    &&& final(self).reports@ == match report {
                        Some(r) => old(self).reports@.push(r),
                        None => old(self).reports@,
                    }
                },
                Err(e) => {
                    &&& final(self).error == Some(e)
                    &&& final(self).cancel
                    &&& final(self).reports@ == old(self).reports@
                },
            },
    {
        match outcome {
            Ok(Some(r)) => {
                self.reports.push(r);
            },
            Ok(None) => {},
            Err(e) => {
                self.error = Some(e);
                self.cancel = true;
            },
        }
    }

    /// Some report says that its pipeline did not finish.
    pub open spec fn unfinished(self) -> bool {
        exists|i: int| 0 <= i < self.reports@.len() && (#[trigger] self.reports@[i]).report.cancelled
    }

    /// How the run ends, given whether the training came to an outcome and to
    /// one model.
    pub open spec fn ending(self, outcome: bool, model: bool) -> Ending {
        if self.error is Some {
            Ending::Failed
        } else {
            match self.kind {
                RunKind::Finalize => if !model || self.unfinished() {
                    Ending::Cancelled
                } else {
                    Ending::Trained
                },
                RunKind::Check => if !outcome || self.cancel {
                    Ending::Cancelled
                } else if !model {
                    Ending::FoldsOnly
                } else if self.unfinished() {
                    Ending::Cancelled
                } else {
                    Ending::Trained
                },
            }
        }
    }

    pub fn settle(&self, outcome: bool, model: bool) -> (ending: Ending)
        ensures
            ending == self.ending(outcome, model),
    {
        if self.error.is_some() {
            return Ending::Failed;
        }
        let mut unfinished: bool = false;
        let mut i: usize = 0;
        while i < self.reports.len()
            invariant
                i <= self.reports.len(),
                unfinished == exists|k: int|
                    0 <= k < i && (#[trigger] self.reports@[k]).report.cancelled,
            decreases self.reports.len() - i,
        {
            if self.reports[i].report.cancelled {
                assert(self.reports@[i as int].report.cancelled);
                unfinished = true;
            }
            i += 1;
        }
        match self.kind {
            RunKind::Finalize => if !model || unfinished {
                Ending::Cancelled
            } else {
                Ending::Trained
            },
            RunKind::Check => if !outcome || self.cancel {
                Ending::Cancelled
            } else if !model {
                Ending::FoldsOnly
            } else if unfinished {
                Ending::Cancelled
            } else {
                Ending::Trained
            },
        }
    }

    /// The first report of a phase.
    fn report_of(&self, phase: Phase) -> (found: Option<InterpretReport>)
        ensures
            found == first_report(self.reports@, phase, 0),
    {
        let mut i: usize = 0;
        while i < self.reports.len()
            invariant
                i <= self.reports.len(),
                first_report(self.reports@, phase, 0) == first_report(
                    self.reports@,
                    phase,
                    i as int,
                ),
            decreases self.reports.len() - i,
        {
            if self.reports[i].phase == phase {
                return Some(self.reports[i].report);
            }
            i += 1;
        }
        None
    }

    /// The reports of the run, where there are any.
    pub open spec fn own_reports(self) -> Option<InterpretReports> {
        let development = first_report(self.reports@, Phase::Development, 0);
        let final_model = first_report(self.reports@, Phase::Final, 0);
        if development is None && final_model is None {
            None
        } else {
            Some(InterpretReports { profile: self.profile, development, final_model })
        }
    }

    pub fn interpret_reports(&self) -> (out: Option<InterpretReports>)
        ensures
            out == self.own_reports(),
    {
        let development: Option<InterpretReport> = self.report_of(Phase::Development);
        let final_model: Option<InterpretReport> = self.report_of(Phase::Final);
        if development.is_none() && final_model.is_none() {
            None
        } else {
            Some(InterpretReports { profile: self.profile, development, final_model })
        }
    }

    /// The rows that the model's diagnostics are about: never the test rows.
    pub open spec fn rows_name(self) -> Seq<char> {
        match self.kind {
            RunKind::Finalize => "train+validation"@,
            RunKind::Check => "validation"@,
        }
    }

    pub fn eval_label(&self) -> (text: &'static str)
        ensures
            text@ == self.rows_name(),
    {
        match self.kind {
            RunKind::Finalize => "train+validation",
            RunKind::Check => "validation",
        }
    }
}

impl Ending {
    /// Whether the model of the run is handed over.
    pub fn hands_over(self) -> (yes: bool)
        ensures
            yes == (self == Ending::Trained),
    {
        match self {
            Ending::Trained => true,
            _ => false,
        }
    }
}

/// What a training came to, before it is decided what of it is published.
#[derive(Debug)]
pub struct Trained {
    pub check: Option<CheckEval>,
    pub check_source: Option<EvalSource>,
    pub folds: usize,
    pub mean_loss: Vec<Mark>,
    pub mean_val: Vec<Mark>,
    pub final_eval: Option<FinalEval>,
}

/// What is published of a run: nothing of a failed one, and only the fact of
/// a cancelled one. A check publishes its estimate, a final training its
/// measurement, and a run with one model the reports on it: over folds each
/// model has a structure of its own, and none stands for the others.
pub open spec fn published(run: Run, stamp: RunStamp, ending: Ending, trained: Trained, done: Option<TrainDone>) -> bool {
    &&& done matches Some(d) ==> d.interpret == if ending == Ending::Trained {
        run.own_reports()
    } else {
        None
    }
    &&& match ending {
        Ending::Failed => done is None,
        Ending::Cancelled => done matches Some(d) && d.stamp == stamp && d.cancelled && d.check
            is None && d.check_source is None && d.final_eval is None && d.folds == 0
            && d.mean_loss@.len() == 0 && d.mean_val@.len() == 0,
        _ => done matches Some(d) && d.stamp == stamp && !d.cancelled && match run.kind {
            RunKind::Check => d.check == trained.check && d.check_source == trained.check_source
                && d.final_eval is None && d.folds == trained.folds && d.mean_loss
                == trained.mean_loss && d.mean_val == trained.mean_val,
            RunKind::Finalize => d.check is None && d.check_source is None && d.final_eval
                == trained.final_eval && d.folds == 0 && d.mean_loss@.len() == 0
                && d.mean_val@.len() == 0,
        },
    }
}

pub fn publish(run: &Run, stamp: RunStamp, ending: Ending, trained: Trained) -> (done: Option<
    TrainDone,
>)
    ensures
        published(*run, stamp, ending, trained, done),
{
    let interpret: Option<InterpretReports> = if ending.hands_over() {
        run.interpret_reports()
    } else {
        None
    };
    match ending {
        Ending::Failed => None,
        Ending::Cancelled => Some(
            TrainDone {
                stamp,
                check: None,
                check_source: None,
                folds: 0,
                mean_loss: Vec::new(),
                mean_val: Vec::new(),
                final_eval: None,
                interpret: None,
                cancelled: true,
            },
        ),
        _ => match run.kind {
            RunKind::Check => Some(
                TrainDone {
                    stamp,
                    check: trained.check,
                    check_source: trained.check_source,
                    folds: trained.folds,
                    mean_loss: trained.mean_loss,
                    mean_val: trained.mean_val,
                    final_eval: None,
                    interpret,
                    cancelled: false,
                },
            ),
            RunKind::Finalize => Some(
                TrainDone {
                    stamp,
                    check: None,
                    check_source: None,
                    folds: 0,
                    mean_loss: Vec::new(),
                    mean_val: Vec::new(),
                    final_eval: trained.final_eval,
                    interpret,
                    cancelled: false,
                },
            ),
        },
    }
}

/// A run whose pipeline failed or did not finish publishes no measurement of
/// the test rows, and neither does a check.
pub proof fn law_only_finished_final_runs_publish_a_measurement(
    run: Run,
    stamp: RunStamp,
    outcome: bool,
    model: bool,
    trained: Trained,
    done: Option<TrainDone>,
)
    requires
        run.wf(),
        published(run, stamp, run.ending(outcome, model), trained, done),
        done matches Some(d) && d.final_eval is Some,
    ensures
        run.kind == RunKind::Finalize,
        run.error is None,
        model,
        !run.unfinished(),
{
}

/// What is published of the pipeline comes from a run that finished it and has
/// one model, and it is the first report of each phase.
pub proof fn law_only_finished_pipelines_are_reported(
    run: Run,
    stamp: RunStamp,
    outcome: bool,
    model: bool,
    trained: Trained,
    done: Option<TrainDone>,
)
    requires
        run.wf(),
        published(run, stamp, run.ending(outcome, model), trained, done),
        done matches Some(d) && d.interpret is Some,
    ensures
        run.error is None,
        model,
        !run.unfinished(),
        done->0.interpret->0.profile == run.profile,
        done->0.interpret->0.development == first_report(run.reports@, Phase::Development, 0),
        done->0.interpret->0.final_model == first_report(run.reports@, Phase::Final, 0),
{
}

/// What is wrong with a request for the curve of an edge.
pub open spec fn edge_fault(
    dims: Option<Seq<(usize, usize)>>,
    layer: usize,
    input: usize,
    output: usize,
    samples: usize,
) -> Option<Seq<char>> {
    match dims {
        None => Some("графики функций доступны только для KAN"@),
        Some(list) => if samples < 2 {
            Some("для графика нужно минимум 2 точки"@)
        } else if layer >= list.len() {
            Some("KAN: нет слоя "@ + decimal(layer as nat))
        } else if input >= list[layer as int].0 {
            Some(
                "KAN: в слое "@ + decimal(layer as nat) + " нет входа "@ + decimal(input as nat),
            )
        } else if output >= list[layer as int].1 {
            Some(
                "KAN: в слое "@ + decimal(layer as nat) + " нет выхода "@ + decimal(
                    output as nat,
                ),
            )
        } else {
            None
        },
    }
}

/// Checks a request for the curve of an edge, given the sizes of the layers
/// where the model is a KAN.
pub fn check_edge(
    dims: Option<&Vec<(usize, usize)>>,
    layer: usize,
    input: usize,
    output: usize,
    samples: usize,
) -> (fault: Option<String>)
    ensures
        said(fault) == edge_fault(
            match dims {
                Some(d) => Some(d@),
                None => None,
            },
            layer,
            input,
            output,
            samples,
        ),
{
    match dims {
        None => Some(owned("графики функций доступны только для KAN")),
        Some(list) => {
            if samples < 2 {
                return Some(owned("для графика нужно минимум 2 точки"));
            }
            if layer >= list.len() {
                let mut text: String = owned("KAN: нет слоя ");
                text.append(decimal_text(layer as u64).as_str());
                return Some(text);
            }
            if input >= list[layer].0 {
                let mut text: String = owned("KAN: в слое ");
                text.append(decimal_text(layer as u64).as_str());
                text.append(" нет входа ");
                text.append(decimal_text(input as u64).as_str());
                return Some(text);
            }
            if output >= list[layer].1 {
                let mut text: String = owned("KAN: в слое ");
                text.append(decimal_text(layer as u64).as_str());
                text.append(" нет выхода ");
                text.append(decimal_text(output as u64).as_str());
                return Some(text);
            }
            None
        },
    }
}

/// What is wrong with a text training, in the order in which it is said.
pub open spec fn text_fault(model: ModelConfig, train: TextTrainConfig) -> Option<Seq<char>> {
    if model.d_model == 0 {
        Some("d_model должен быть > 0"@)
    } else if model.d_ff == 0 {
        Some("d_ff должен быть > 0"@)
    } else if model.n_heads == 0 || model.d_model % model.n_heads != 0 {
        Some(
            "d_model="@ + decimal(model.d_model as nat) + " должен делиться на heads="@ + decimal(
                model.n_heads as nat,
            ),
        )
    } else if model.n_enc_layers == 0 || model.n_dec_layers == 0 {
        Some("число слоёв должно быть >= 1"@)
    } else if train.steps == 0 {
        Some("steps должен быть >= 1"@)
    } else if train.batch_size == 0 {
        Some("batch должен быть >= 1"@)
    } else if train.ctx_len == 0 || train.tgt_len == 0 {
        Some("ctx/tgt должны быть >= 1"@)
    } else if !train.lr.finite() || train.lr.at_most(Single { bits: 0 }) {
        Some("lr должен быть конечным и > 0"@)
    } else {
        None
    }
}

pub fn validate_text_config(model: &ModelConfig, train: &TextTrainConfig) -> (fault: Option<String>)
    ensures
        said(fault) == text_fault(*model, *train),
{
    if model.d_model == 0 {
        return Some(owned("d_model должен быть > 0"));
    }
    if model.d_ff == 0 {
        return Some(owned("d_ff должен быть > 0"));
    }
    if model.n_heads == 0 || model.d_model % model.n_heads != 0 {
        let mut text: String = owned("d_model=");
        text.append(decimal_text(model.d_model as u64).as_str());
        text.append(" должен делиться на heads=");
        text.append(decimal_text(model.n_heads as u64).as_str());
        return Some(text);
    }
    if model.n_enc_layers == 0 || model.n_dec_layers == 0 {
        return Some(owned("число слоёв должно быть >= 1"));
    }
    if train.steps == 0 {
        return Some(owned("steps должен быть >= 1"));
    }
    if train.batch_size == 0 {
        return Some(owned("batch должен быть >= 1"));
    }
    if train.ctx_len == 0 || train.tgt_len == 0 {
        return Some(owned("ctx/tgt должны быть >= 1"));
    }
    if !train.lr.is_finite() || train.lr.is_at_most(Single { bits: 0 }) {
        return Some(owned("lr должен быть конечным и > 0"));
    }
    None
}

/// A corpus has at least one window, and its beginning is the seed that is
/// offered.
pub fn text_seed(text: &str, ctx_len: usize, tgt_len: usize) -> (out: Result<String, String>)
    requires
        ctx_len + tgt_len <= usize::MAX,
    ensures
        match out {
            Ok(seed) => text@.len() >= ctx_len + tgt_len && seed@ == text@.take(ctx_len as int),
            Err(e) => text@.len() < ctx_len + tgt_len && e@ == "корпус короче окна ctx+tgt"@,
        },
{
    let chars: Vec<char> = chars_of(text);
    if chars.len() < ctx_len + tgt_len {
        return Err(owned("корпус короче окна ctx+tgt"));
    }
    Ok(crate::text::slice_of(&chars, 0, ctx_len))
}

/// What is wrong with a request to generate: a seed that does not fill the
/// context, no characters asked for, a temperature that is no number, or a
/// character that the corpus does not have, the first one of the seed.
pub fn generation_fault(
    vocab: &Vocab,
    ctx_len: usize,
    seed: &str,
    total_new: usize,
    temperature: Single,
) -> (fault: Option<String>)
    ensures
        seed@.len() < ctx_len ==> said(fault) == Some(
            "затравка короче ctx_len="@ + decimal(ctx_len as nat),
        ),
        seed@.len() >= ctx_len && total_new == 0 ==> said(fault) == Some(
            "число новых символов должно быть >= 1"@,
        ),
        seed@.len() >= ctx_len && total_new > 0 && !temperature.finite() ==> said(fault) == Some(
            "temperature должен быть конечным"@,
        ),
        seed@.len() >= ctx_len && total_new > 0 && temperature.finite() ==> match fault {
            None => forall|i: int|
                0 <= i < seed@.len() ==> vocab.itos@.contains(#[trigger] seed@[i]),
            Some(e) => exists|i: int|
                #![trigger seed@[i]]
                0 <= i < seed@.len() && !vocab.itos@.contains(seed@[i]) && (forall|k: int|
                    0 <= k < i ==> vocab.itos@.contains(#[trigger] seed@[k])) && e@
                    == "символ '"@ + seq![seed@[i]] + "' отсутствует в словаре корпуса"@,
        },
{
    let chars: Vec<char> = chars_of(seed);
    if chars.len() < ctx_len {
        let mut text: String = owned("затравка короче ctx_len=");
        text.append(decimal_text(ctx_len as u64).as_str());
        return Some(text);
    }
    if total_new == 0 {
        return Some(owned("число новых символов должно быть >= 1"));
    }
    if !temperature.is_finite() {
        return Some(owned("temperature должен быть конечным"));
    }
    let mut i: usize = 0;
    while i < chars.len()
        invariant
            i <= chars.len(),
            chars@ == seed@,
            seed@.len() >= ctx_len,
            total_new > 0,
            temperature.finite(),
            forall|k: int| 0 <= k < i ==> vocab.itos@.contains(#[trigger] seed@[k]),
        decreases chars.len() - i,
    {
        if !vocab.contains(chars[i]) {
            let mut one: Vec<char> = Vec::new();
            one.push(chars[i]);
            assert(one@ =~= seq![seed@[i as int]]);
            let mut text: String = owned("символ '");
            text.append(string_of(&one).as_str());
            text.append("' отсутствует в словаре корпуса");
            assert(!vocab.itos@.contains(seed@[i as int]));
            return Some(text);
        }
        i += 1;
    }
    None
}

/// A row to predict has a value for each input.
pub fn check_inputs(expected: usize, given: usize) -> (fault: Option<String>)
    ensures
        said(fault) == if expected == given {
            None::<Seq<char>>
        } else {
            Some(
                "ожидалось "@ + decimal(expected as nat) + " входов, получено "@ + decimal(
                    given as nat,
                ),
            )
        },
{
    if expected == given {
        return None;
    }
    let mut text: String = owned("ожидалось ");
    text.append(decimal_text(expected as u64).as_str());
    text.append(" входов, получено ");
    text.append(decimal_text(given as u64).as_str());
    Some(text)
}

/// Where data are opened from.
#[derive(Debug)]
pub enum Opening {
    /// The rows are drawn from a built-in function.
    Task(BlackBox),
    /// Read this file.
    File(String),
}

/// Where data of this origin are opened from. A marked-up table comes out of
/// its dialogue and is not read here.
pub fn opening(origin: &DatasetOrigin) -> (out: Result<Opening, String>)
    ensures
        match *origin {
            DatasetOrigin::Blackbox(name) => match out {
                Ok(Opening::Task(task)) => task@.name == name@ && boxes().contains(task@),
                Ok(_) => false,
                Err(e) => e@ == "неизвестный чёрный ящик: "@ + name@ && forall|i: int|
                    0 <= i < boxes().len() ==> (#[trigger] boxes()[i]).name != name@,
            },
            DatasetOrigin::File(path) => out matches Ok(Opening::File(p)) && p@ == path@,
            DatasetOrigin::Table(path) => out matches Err(e) && e@ == path@
                + ": размеченная таблица приходит из диалога разметки, а не из чтения"@,
        },
{
    match origin {
        DatasetOrigin::Blackbox(name) => match by_name(name.as_str()) {
            Some(task) => Ok(Opening::Task(task)),
            None => {
                let mut text: String = owned("неизвестный чёрный ящик: ");
                text.append(name.as_str());
                Err(text)
            },
        },
        DatasetOrigin::File(path) => Ok(Opening::File(owned(path.as_str()))),
        DatasetOrigin::Table(path) => {
            let mut text: String = owned(path.as_str());
            text.append(": размеченная таблица приходит из диалога разметки, а не из чтения");
            Err(text)
        },
    }
}

/// Which activations formulas are fitted to.
#[derive(Clone, Copy, Debug, PartialEq, Eq, Structural)]
pub enum FormulaSource {
    /// The training rows of this session.
    Session,
    /// The sample that a file brought with the model.
    File,
}

/// The activations that formulas are fitted to: those of this session first.
/// Without any there are no formulas; made-up ones would distort them.
pub fn formula_source(is_kan: bool, trained_here: bool, calibrated: bool) -> (out: Result<
    FormulaSource,
    String,
>)
    ensures
        agree(
            out,
            if !is_kan {
                Err("символьные формулы доступны только для KAN"@)
            } else if trained_here {
                Ok(FormulaSource::Session)
            } else if calibrated {
                Ok(FormulaSource::File)
            } else {
                Err("формулы недоступны: checkpoint без секции calibration и без train-данных"@)
            },
            |s: FormulaSource| s,
        ),
{
    if !is_kan {
        return Err(owned("символьные формулы доступны только для KAN"));
    }
    if trained_here {
        return Ok(FormulaSource::Session);
    }
    if calibrated {
        return Ok(FormulaSource::File);
    }
    Err(owned("формулы недоступны: checkpoint без секции calibration и без train-данных"))
}

/// The columns of these pairs.
pub open spec fn column_numbers(pairs: Seq<(usize, usize)>) -> Seq<usize> {
    pairs.map_values(|p: (usize, usize)| p.0)
}

/// What the layout read off a table suggests for its columns: how many of
/// them are inputs, and which are categories. Nothing is suggested for a
/// table without a header, or where no layout was recognised.
pub fn suggestions(has_header: bool, inferred: Result<PrepareSpec, String>) -> (out: (
    Option<usize>,
    Vec<usize>,
))
    ensures
        match inferred {
            Ok(spec) if has_header => out.0 == Some(spec.n_inputs) && out.1@ == column_numbers(
                spec.categorical@,
            ),
            _ => out.0 is None && out.1@.len() == 0,
        },
{
    let mut categories: Vec<usize> = Vec::new();
    if !has_header {
        return (None, categories);
    }
    match inferred {
        Err(_) => (None, categories),
        Ok(spec) => {
            let mut i: usize = 0;
            while i < spec.categorical.len()
                invariant
                    i <= spec.categorical@.len(),
                    categories@ == column_numbers(spec.categorical@).take(i as int),
                decreases spec.categorical.len() - i,
            {
                categories.push(spec.categorical[i].0);
                i += 1;
                assert(categories@ =~= column_numbers(spec.categorical@).take(i as int));
            }
            assert(categories@ =~= column_numbers(spec.categorical@));
            (Some(spec.n_inputs), categories)
        },
    }
}

/// How many training rows the capacity probe learns by heart.
pub const PROBE_ROWS: usize = 48;

/// The rows of the capacity probe: the first ones.
pub fn probe_rows(n: usize) -> (rows: Vec<usize>)
    ensures
        rows@ == Seq::new(
            if n < PROBE_ROWS {
                n as nat
            } else {
                PROBE_ROWS as nat
            },
            |i: int| i as usize,
        ),
{
    let m: usize = if n < PROBE_ROWS {
        n
    } else {
        PROBE_ROWS
    };
    let mut rows: Vec<usize> = Vec::new();
    let mut i: usize = 0;
    while i < m
        invariant
            i <= m,
            rows@ == Seq::new(i as nat, |k: int| k as usize),
        decreases m - i,
    {
        rows.push(i);
        i += 1;
        assert(rows@ =~= Seq::new(i as nat, |k: int| k as usize));
    }
    rows
}

/// Saving, diagnosing, predicting, exporting, drawing and extracting formulas
/// need a model and nothing else; generating text needs a text model; every
/// other job but a measurement is done in any state.
pub proof fn law_jobs_wait_for_their_model(state: WorkerState, job: Job, step: Step)
    requires
        state.answers(job, step),
    ensures
        ({
            let on_model = job is SaveModel || job is Diagnose || job is Predict || job is Export
                || job is SampleEdge || job is ExtractFormulas;
            &&& on_model && state.origin is Some ==> step is Work
            &&& on_model && state.origin is None ==> step is Refuse
            &&& job is GenerateText ==> (step is Work <==> state.has_text) && (step is Refuse
                <==> !state.has_text)
            &&& job is Shutdown <==> step is Stop
            &&& !on_model && !(job is GenerateText) && !(job is Shutdown) && !(job is Finalize)
                ==> step is Work
        }),
{
}

/// A final model and a model from a file are results: exactly these are kept
/// when a check brings another model.
pub proof fn law_results_are_kept(state: WorkerState)
    ensures
        state.keeps() <==> match state.origin {
            Some(ModelOrigin::Final(_)) => true,
            Some(ModelOrigin::Checkpoint) => true,
            Some(ModelOrigin::Development(_)) => false,
            None => false,
        },
{
}

proof fn lemma_first_report(reports: Seq<PipelineReport>, phase: Phase, k: int, i: int)
    requires
        0 <= k <= i <= reports.len(),
        forall|j: int| k <= j < i ==> (#[trigger] reports[j]).phase != phase,
        i < reports.len() ==> reports[i].phase == phase,
    ensures
        first_report(reports, phase, k) == if i < reports.len() {
            Some(reports[i].report)
        } else {
            None
        },
    decreases i - k,
{
    if k < i {
        assert(reports[k].phase != phase);
        lemma_first_report(reports, phase, k + 1, i);
    }
}

/// What stands for a phase is its first report: the one that no report of the
/// phase stands in front of. Nothing does where the phase has no report.
pub proof fn law_the_first_report_of_a_phase_counts(run: Run, phase: Phase, i: int)
    requires
        0 <= i <= run.reports@.len(),
        forall|j: int| 0 <= j < i ==> (#[trigger] run.reports@[j]).phase != phase,
        i < run.reports@.len() ==> run.reports@[i].phase == phase,
    ensures
        ({
            let first = if i < run.reports@.len() {
                Some(run.reports@[i].report)
            } else {
                None
            };
            match run.own_reports() {
                Some(own) => own.profile == run.profile && first == match phase {
                    Phase::Development => own.development,
                    Phase::Final => own.final_model,
                },
                None => first is None,
            }
        }),
{
    lemma_first_report(run.reports@, phase, 0, i);
}

/// A run ends trained exactly if nothing failed, there is one model, every
/// pipeline finished and, for a check, there is an outcome and nobody
/// cancelled it. It fails exactly if its pipeline failed.
pub proof fn law_a_run_ends_trained_only_if_all_finished(run: Run, outcome: bool, model: bool)
    ensures
        ({
            let finished = forall|i: int|
                0 <= i < run.reports@.len() ==> !(#[trigger] run.reports@[i]).report.cancelled;
            let ending = run.ending(outcome, model);
            &&& ending == Ending::Failed <==> run.error is Some
            &&& ending == Ending::Trained <==> run.error is None && model && finished && (run.kind
                == RunKind::Finalize || (outcome && !run.cancel))
            &&& ending == Ending::FoldsOnly <==> run.error is None && run.kind == RunKind::Check
                && outcome && !run.cancel && !model
        }),
{
    if run.unfinished() {
        let i = choose|i: int|
            0 <= i < run.reports@.len() && (#[trigger] run.reports@[i]).report.cancelled;
        assert(run.reports@[i].report.cancelled);
    }
}

/// The curve of an edge can be drawn exactly if the model is a KAN, there are
/// two points at least, and the layer, its input and its output exist.
pub proof fn law_only_edges_that_exist_are_drawn(
    dims: Option<Seq<(usize, usize)>>,
    layer: usize,
    input: usize,
    output: usize,
    samples: usize,
)
    ensures
        edge_fault(dims, layer, input, output, samples) is None <==> (dims matches Some(list)
            && samples >= 2 && layer < list.len() && input < list[layer as int].0 && output
            < list[layer as int].1),
{
}

/// A text training is accepted exactly if each of its sizes is positive, the
/// heads divide the width, and the rate is a finite positive number.
pub proof fn law_sound_text_trainings_are_accepted(model: ModelConfig, train: TextTrainConfig)
    ensures
        text_fault(model, train) is None <==> {
            &&& model.d_model > 0 && model.d_ff > 0 && model.n_heads > 0
            &&& model.d_model % model.n_heads == 0
            &&& model.n_enc_layers > 0 && model.n_dec_layers > 0
            &&& train.steps > 0 && train.batch_size > 0 && train.ctx_len > 0 && train.tgt_len > 0
            &&& 0 < train.lr.bits < 0x7f80_0000
        },
{
    crate::single::law_patterns_compare_as_numbers(train.lr, Single { bits: 0 });
}

/// A pipeline is applied where one was asked for, and not again once it failed.
/// What is diagnosed is never the test rows: a check is about the validation
/// rows, a final training about all rows that it was made on.
pub proof fn law_a_failed_pipeline_is_not_applied_again(run: Run)
    ensures
        run.profile is None ==> !run.applies(),
        run.error is Some ==> !run.applies(),
        run.profile is Some && run.error is None ==> run.applies(),
        run.kind == RunKind::Check ==> run.rows_name() == "validation"@,
        run.kind == RunKind::Finalize ==> run.rows_name() == "train+validation"@,
{
}

/// The columns that are suggested as categories are those of the layout, each
/// in its place.
pub proof fn law_categories_are_suggested_by_column(pairs: Seq<(usize, usize)>, i: int)
    ensures
        column_numbers(pairs).len() == pairs.len(),
        0 <= i < pairs.len() ==> column_numbers(pairs)[i] == pairs[i].0,
{
}

} // verus!

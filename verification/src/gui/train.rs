//! From the forms to a run: which candidate is meant, on which data, and
//! whether it may be checked or measured.

use crate::config::{ModelConfig, ModelKind, NumericConfig, LN_EPS};
use crate::gui::forms::{agree, said};
use crate::gui::messages::DatasetOrigin;
use crate::gui::session::{Section, Session, TrainingMode};
use crate::interpret::{resolve, resolved, InterpretProfile};
use crate::lifecycle::{CandidateSpec, FinalizeRefusal, RunStamp, SplitPlan, TrainConfig};
use crate::single::Single;
use crate::sweep::{SweepAxes, SweepChoice, SweepObjective};
use crate::text::owned;
use vstd::prelude::*;
use vstd::string::StringExecFns;

verus! {

/// When a training measures the validation rows.
#[derive(Clone, Copy, Debug, PartialEq, Eq, Structural)]
pub enum EvalSchedule {
    Never,
    Every(usize),
}

/// What the window asks the worker for.
#[derive(Debug)]
pub enum Command {
    OpenDataset(DatasetOrigin),
    OpenTable { path: String, has_header: bool },
    CheckCandidate { stamp: RunStamp, eval: EvalSchedule },
    FinalizeCandidate { stamp: RunStamp },
    Search { split: SplitPlan, axes: SweepAxes, objective: SweepObjective },
}

/// A description of the data of a search is that of the active data.
pub open spec fn stamps_equal(a: Option<(u64, SplitPlan)>, b: Option<(u64, SplitPlan)>) -> bool {
    match (a, b) {
        (Some(x), Some(y)) => x.0 == y.0 && x.1.equals(y.1),
        _ => false,
    }
}

impl Session {
    pub open spec fn stamp_of_data(self) -> Option<(u64, SplitPlan)> {
        match self.dataset {
            Some(active) => Some((active.revision, active.split)),
            None => None,
        }
    }

    /// The revision and division of the active data.
    pub fn dataset_stamp(&self) -> (stamp: Option<(u64, SplitPlan)>)
        ensures
            stamp == self.stamp_of_data(),
    {
        match &self.dataset {
            Some(active) => Some((active.revision, active.split)),
            None => None,
        }
    }

    /// The results of the search are of the active data, divided as now.
    pub open spec fn search_current(self) -> bool {
        stamps_equal(self.search.stamp, self.stamp_of_data())
    }

    pub fn search_matches_dataset(&self) -> (yes: bool)
        ensures
            yes == self.search_current(),
    {
        match (self.search.stamp, self.dataset_stamp()) {
            (Some(x), Some(y)) => x.0 == y.0 && x.1.same_as(&y.1),
            _ => false,
        }
    }

    /// Asks for data to be opened.
    pub fn open_dataset(&mut self, origin: DatasetOrigin, file_name: Option<&str>) -> (command:
        Command)
        ensures
            command == Command::OpenDataset(origin),
            *final(self) == (Session {
                dataset_opening: true,
                status: final(self).status,
                ..*old(self)
            }),
            final(self).status@ == "открываю "@ + origin.short(
                match file_name {
                    Some(n) => Some(n@),
                    None => None,
                },
            ) + "…"@,
    {
        self.dataset_opening = true;
        let mut status: String = owned("открываю ");
        status.append(origin.short_name(file_name).as_str());
        status.append("…");
        self.status = status;
        Command::OpenDataset(origin)
    }

    /// Asks for a table to be opened.
    pub fn open_table(&mut self, path: String, has_header: bool) -> (command: Command)
        ensures
            command == (Command::OpenTable { path, has_header }),
            *final(self) == (Session {
                table_opening: true,
                status: final(self).status,
                ..*old(self)
            }),
            final(self).status@ == "чтение "@ + path@ + "…"@,
    {
        self.table_opening = true;
        let mut status: String = owned("чтение ");
        status.append(path.as_str());
        status.append("…");
        self.status = status;
        Command::OpenTable { path, has_header }
    }

    /// The table that can be marked up again, and how it was read.
    pub fn markup_source(&self) -> (source: Option<(String, bool)>)
        ensures
            match source {
                Some((path, header)) => self.dataset matches Some(active)
                    && active.prepared.origin matches DatasetOrigin::Table(p) && path@ == p@
                    && header == active.table_has_header,
                None => self.dataset matches Some(active) ==> !(active.prepared.origin is Table),
            },
    {
        match &self.dataset {
            Some(active) => match &active.prepared.origin {
                DatasetOrigin::Table(path) => Some((owned(path.as_str()), active.table_has_header)),
                _ => None,
            },
            None => None,
        }
    }

    /// The division of the active data, given what is wrong with it.
    pub open spec fn split_or(self, fault: Option<Seq<char>>) -> Result<SplitPlan, Seq<char>> {
        match self.dataset {
            None => Err("сначала откройте данные"@),
            Some(active) => match fault {
                Some(e) => Err(e),
                None => Ok(active.split),
            },
        }
    }

    pub fn active_split(&self, fault: Option<String>) -> (out: Result<SplitPlan, String>)
        ensures
            agree(out, self.split_or(said(fault)), |s: SplitPlan| s),
    {
        match &self.dataset {
            None => Err(owned("сначала откройте данные")),
            Some(active) => match fault {
                Some(e) => Err(e),
                None => Ok(active.split),
            },
        }
    }

    /// The interpretation pipeline of a run: only a KAN has one, and a
    /// setting that cannot be met is an error, not a run without it.
    pub open spec fn profile_or(self, kind: ModelKind) -> Result<
        Option<InterpretProfile>,
        Seq<char>,
    > {
        if !self.interpret_enabled || kind != ModelKind::Kan {
            Ok(None)
        } else {
            match resolved(true, self.interpret_overrides) {
                Ok(profile) => Ok(profile),
                Err(e) => Err("конвейер интерпретации: "@ + e.text()),
            }
        }
    }

    pub fn interpret_profile(&self, kind: ModelKind) -> (out: Result<
        Option<InterpretProfile>,
        String,
    >)
        ensures
            agree(out, self.profile_or(kind), |p: Option<InterpretProfile>| p),
    {
        if !self.interpret_enabled || kind != ModelKind::Kan {
            return Ok(None);
        }
        match resolve(true, &self.interpret_overrides) {
            Ok(profile) => Ok(profile),
            Err(e) => {
                let mut text: String = owned("конвейер интерпретации: ");
                text.append(e.message().as_str());
                Err(text)
            },
        }
    }
}

/// The model of a search result.
pub open spec fn choice_config(choice: SweepChoice) -> NumericConfig {
    NumericConfig {
        kind: choice.kind,
        transformer: ModelConfig {
            d_model: choice.d_model,
            n_heads: choice.heads,
            n_enc_layers: choice.layers,
            n_dec_layers: choice.layers,
            d_ff: choice.d_ff,
            ln_eps: Single { bits: LN_EPS },
        },
        value: choice.value,
        mlp_width: choice.mlp_width,
        mlp_layers: choice.mlp_layers,
        kan: choice.kan,
    }
}

/// The training of a search result: the full number of epochs, not the short
/// one of the search, and a seed that was fixed beforehand.
pub open spec fn choice_train(choice: SweepChoice, seed: u64) -> TrainConfig {
    TrainConfig {
        epochs: choice.final_epochs,
        batch_size: choice.batch_size,
        lr: choice.lr,
        seed,
        schedule: choice.schedule,
    }
}

pub fn config_of(choice: &SweepChoice) -> (config: NumericConfig)
    ensures
        config == choice_config(*choice),
{
    NumericConfig {
        kind: choice.kind,
        transformer: ModelConfig {
            d_model: choice.d_model,
            n_heads: choice.heads,
            n_enc_layers: choice.layers,
            n_dec_layers: choice.layers,
            d_ff: choice.d_ff,
            ln_eps: Single { bits: LN_EPS },
        },
        value: choice.value,
        mlp_width: choice.mlp_width,
        mlp_layers: choice.mlp_layers,
        kan: choice.kan,
    }
}

pub open spec fn candidate_or(
    config: NumericConfig,
    train: TrainConfig,
    profile: Result<Option<InterpretProfile>, Seq<char>>,
) -> Result<CandidateSpec, Seq<char>> {
    match profile {
        Err(e) => Err(e),
        Ok(interpret) => Ok(CandidateSpec { config, train, interpret }),
    }
}

impl Session {
    /// The chosen row, the best one where none was chosen.
    pub open spec fn chosen_row(self) -> Option<int> {
        let row = match self.search.selected {
            Some(i) => i as int,
            None => 0,
        };
        if row < self.search.rows@.len() {
            Some(row)
        } else {
            None
        }
    }

    pub fn chosen(&self) -> (row: Option<usize>)
        ensures
            match row {
                Some(i) => self.chosen_row() == Some(i as int),
                None => self.chosen_row() is None,
            },
    {
        let row: usize = match self.search.selected {
            Some(i) => i,
            None => 0,
        };
        if row < self.search.rows.len() {
            Some(row)
        } else {
            None
        }
    }

    /// The candidate of a search result, given what is wrong with its model
    /// and its training.
    pub open spec fn choice_or(
        self,
        choice: SweepChoice,
        seed: u64,
        numeric: Option<Seq<char>>,
        train: Option<Seq<char>>,
    ) -> Result<CandidateSpec, Seq<char>> {
        match numeric {
            Some(e) => Err(e),
            None => match train {
                Some(e) => Err(e),
                None => candidate_or(
                    choice_config(choice),
                    choice_train(choice, seed),
                    self.profile_or(choice.kind),
                ),
            },
        }
    }

    pub fn candidate_from_choice(
        &self,
        choice: &SweepChoice,
        seed: u64,
        numeric: Option<String>,
        train: Option<String>,
    ) -> (out: Result<CandidateSpec, String>)
        ensures
            agree(
                out,
                self.choice_or(*choice, seed, said(numeric), said(train)),
                |c: CandidateSpec| c,
            ),
    {
        if let Some(e) = numeric {
            return Err(e);
        }
        if let Some(e) = train {
            return Err(e);
        }
        let interpret: Option<InterpretProfile> = self.interpret_profile(choice.kind)?;
        Ok(
            CandidateSpec {
                config: config_of(choice),
                train: TrainConfig {
                    epochs: choice.final_epochs,
                    batch_size: choice.batch_size,
                    lr: choice.lr,
                    seed,
                    schedule: choice.schedule,
                },
                interpret,
            },
        )
    }

    /// The candidate that is meant: that of the form in manual mode, and that
    /// of the chosen row after a search, as long as the search was on the
    /// active data.
    pub open spec fn meant_or(
        self,
        seed: u64,
        numeric: Option<Seq<char>>,
        train: Option<Seq<char>>,
    ) -> Result<CandidateSpec, Seq<char>> {
        match self.mode {
            TrainingMode::Single => match self.form.built(self.form.epochs, numeric, train) {
                Err(e) => Err(e),
                Ok(b) => candidate_or(b.0, b.1, self.profile_or(b.0.kind)),
            },
            _ => if !self.search_current() {
                Err("результат поиска относится к другим данным или разбиению"@)
            } else {
                match self.chosen_row() {
                    None => Err("сначала выполните поиск и выберите строку"@),
                    Some(i) => self.choice_or(
                        self.search.rows@[i].choice,
                        seed,
                        numeric,
                        train,
                    ),
                }
            },
        }
    }

    pub fn current_candidate(&self, seed: u64, numeric: Option<String>, train: Option<String>) -> (out:
        Result<CandidateSpec, String>)
        ensures
            agree(
                out,
                self.meant_or(seed, said(numeric), said(train)),
                |c: CandidateSpec| c,
            ),
    {
        match self.mode {
            TrainingMode::Single => {
                let (config, train): (NumericConfig, TrainConfig) = self.form.build(
                    numeric,
                    train,
                )?;
                let interpret: Option<InterpretProfile> = self.interpret_profile(config.kind)?;
                Ok(CandidateSpec { config, train, interpret })
            },
            _ => {
                if !self.search_matches_dataset() {
                    return Err(owned("результат поиска относится к другим данным или разбиению"));
                }
                match self.chosen() {
                    None => Err(owned("сначала выполните поиск и выберите строку")),
                    Some(i) => self.candidate_from_choice(
                        &self.search.rows[i].choice,
                        seed,
                        numeric,
                        train,
                    ),
                }
            },
        }
    }
}

/// What is wrong with a run, as far as it is known from outside the forms.
#[derive(Debug)]
pub struct Faults {
    pub split: Option<String>,
    pub numeric: Option<String>,
    pub train: Option<String>,
}

impl Session {
    /// The run that is meant, on the active data.
    pub open spec fn run_or(
        self,
        final_seed: u64,
        split: Option<Seq<char>>,
        numeric: Option<Seq<char>>,
        train: Option<Seq<char>>,
    ) -> Result<RunStamp, Seq<char>> {
        match self.split_or(split) {
            Err(e) => Err(e),
            Ok(plan) => match self.meant_or(final_seed, numeric, train) {
                Err(e) => Err(e),
                Ok(candidate) => Ok(
                    RunStamp {
                        dataset: self.dataset->0.fingerprint,
                        dataset_revision: self.dataset->0.revision,
                        split: plan,
                        candidate,
                        final_init_seed: final_seed,
                    },
                ),
            },
        }
    }

    pub fn current_stamp(&self, final_seed: u64, faults: Faults) -> (out: Result<RunStamp, String>)
        ensures
            agree(
                out,
                self.run_or(
                    final_seed,
                    said(faults.split),
                    said(faults.numeric),
                    said(faults.train),
                ),
                |s: RunStamp| s,
            ),
    {
        let split: SplitPlan = self.active_split(faults.split)?;
        let candidate: CandidateSpec = self.current_candidate(
            final_seed,
            faults.numeric,
            faults.train,
        )?;
        match &self.dataset {
            Some(active) => Ok(
                RunStamp {
                    dataset: active.fingerprint,
                    dataset_revision: active.revision,
                    split,
                    candidate,
                    final_init_seed: final_seed,
                },
            ),
            None => Err(owned("сначала откройте данные")),
        }
    }

    /// How often the validation rows are measured: no less often than once in
    /// a training.
    pub open spec fn eval_step(self) -> usize {
        if self.eval_every <= self.form.epochs {
            self.eval_every
        } else {
            self.form.epochs
        }
    }

    /// Lowers the setting of the form to the number of epochs.
    pub fn lower_eval_every(&mut self)
        ensures
            *final(self) == (Session { eval_every: old(self).eval_step(), ..*old(self) }),
    {
        if self.eval_every > self.form.epochs {
            self.eval_every = self.form.epochs;
        }
    }

    /// When a check measures the validation rows: as the form says in manual
    /// mode; after a search the number of epochs is chosen already.
    pub open spec fn check_schedule(self) -> EvalSchedule {
        if self.mode == TrainingMode::Single && self.eval_step() > 0 {
            EvalSchedule::Every(self.eval_step())
        } else {
            EvalSchedule::Never
        }
    }

    /// Sends a run to be checked.
    pub fn send_check(&mut self, stamp: RunStamp) -> (command: Command)
        ensures
            command == (Command::CheckCandidate { stamp, eval: old(self).check_schedule() }),
            *final(self) == (Session {
                curves: crate::gui::session::Curves {
                    parameter_count: None,
                    ..old(self).curves
                },
                ..*old(self)
            }),
    {
        self.curves.parameter_count = None;
        let eval: EvalSchedule = match self.mode {
            TrainingMode::Single => {
                let step: usize = if self.eval_every <= self.form.epochs {
                    self.eval_every
                } else {
                    self.form.epochs
                };
                if step == 0 {
                    EvalSchedule::Never
                } else {
                    EvalSchedule::Every(step)
                }
            },
            _ => EvalSchedule::Never,
        };
        Command::CheckCandidate { stamp, eval }
    }

    /// Sends the checked run to be measured: the run is taken from the check
    /// as it is, so that nothing else is measured than what was checked.
    pub fn send_finalize(&mut self, stamp: &RunStamp) -> (command: Option<Command>)
        ensures
            match command {
                Some(c) => old(self).lifecycle.last_check matches Some(run) && run.stamp.equals(
                    *stamp,
                ) && c == (Command::FinalizeCandidate { stamp: run.stamp }) && *final(self) == (
                Session {
                    curves: crate::gui::session::Curves {
                        parameter_count: None,
                        ..old(self).curves
                    },
                    ..*old(self)
                }),
                None => !old(self).lifecycle.was_checked(*stamp) && *final(self) == (Session {
                    status: final(self).status,
                    ..*old(self)
                }) && final(self).status@ == "Ошибка: проверка кандидата не найдена"@,
            },
    {
        let checked: Option<RunStamp> = match &self.lifecycle.last_check {
            Some(run) => if run.stamp.same_as(stamp) {
                Some(run.stamp)
            } else {
                None
            },
            None => None,
        };
        match checked {
            Some(run) => {
                self.curves.parameter_count = None;
                Some(Command::FinalizeCandidate { stamp: run })
            },
            None => {
                self.status = owned("Ошибка: проверка кандидата не найдена");
                None
            },
        }
    }

    /// The results of a search go to the manual form.
    pub fn apply_choice_to_train(&mut self, choice: &SweepChoice)
        ensures
            *final(self) == (Session {
                form: old(self).form.with_choice(*choice),
                section: Section::Training,
                status: final(self).status,
                ..*old(self)
            }),
            final(self).status@ == "выбранная конфигурация перенесена в ручной режим"@,
    {
        self.form.take_choice(choice);
        self.section = Section::Training;
        self.status = owned("выбранная конфигурация перенесена в ручной режим");
    }

    /// Starts a search on the active data: from now on its results are of
    /// these data, divided like this. Where it cannot start, the reason is
    /// shown and nothing else changes.
    pub fn start_search(
        &mut self,
        axes: Result<SweepAxes, String>,
        split_fault: Option<String>,
    ) -> (command: Option<Command>)
        ensures
            match (axes, old(self).split_or(said(split_fault))) {
                (Ok(a), Ok(split)) => {
                    &&& command == Some(
                        Command::Search {
                            split,
                            axes: a,
                            objective: SweepObjective::numbered(old(self).search.form.objective),
                        },
                    )
                    &&& *final(self) == (Session {
                        search: crate::gui::session::SearchState {
                            running: true,
                            rows: final(self).search.rows,
                            total: None,
                            cancelled: false,
                            stamp: old(self).stamp_of_data(),
                            selected: None,
                            ..old(self).search
                        },
                        ..*old(self)
                    })
                    &&& final(self).search.rows@.len() == 0
                },
                (Err(e), _) => {
                    &&& command is None
                    &&& *final(self) == (Session { status: final(self).status, ..*old(self) })
                    &&& final(self).status@ == "Ошибка: "@ + e@
                },
                (Ok(_), Err(e)) => {
                    &&& command is None
                    &&& *final(self) == (Session { status: final(self).status, ..*old(self) })
                    &&& final(self).status@ == "Ошибка: "@ + e
                },
            },
    {
        let objective: SweepObjective = self.search.form.objective();
        let found: Result<SplitPlan, String> = self.active_split(split_fault);
        match (axes, found) {
            (Ok(axes), Ok(split)) => {
                self.search.stamp = self.dataset_stamp();
                self.search.running = true;
                self.search.selected = None;
                self.search.rows = Vec::new();
                self.search.total = None;
                self.search.cancelled = false;
                Some(Command::Search { split, axes, objective })
            },
            (Err(e), _) => {
                self.show_error(e.as_str());
                None
            },
            (Ok(_), Err(e)) => {
                self.show_error(e.as_str());
                None
            },
        }
    }

    /// Another objective ranks the results anew and drops the choice.
    pub fn change_objective(&mut self, objective: usize)
        ensures
            objective == old(self).search.form.objective ==> *final(self) == *old(self),
            objective != old(self).search.form.objective ==> {
                &&& *final(self) == (Session {
                    search: crate::gui::session::SearchState {
                        form: crate::gui::forms::SearchForm { objective, ..old(self).search.form },
                        rows: final(self).search.rows,
                        selected: None,
                        ..old(self).search
                    },
                    ..*old(self)
                })
                &&& final(self).search.rows@ == crate::sweep::ranked(
                    old(self).search.rows@,
                    SweepObjective::numbered(objective),
                )
            },
    {
        if objective != self.search.form.objective {
            self.search.form.objective = objective;
            let by: SweepObjective = self.search.form.objective();
            crate::sweep::sort_rows(&mut self.search.rows, by);
            self.search.selected = None;
        }
    }
}

/// What the second step of a training shows.
#[derive(Clone, Copy, Debug, PartialEq, Eq, Structural)]
pub enum FinalizeStep {
    /// There is no candidate to speak of.
    Hidden,
    /// The candidate was measured on this many test rows.
    Measured { test_rows: usize },
    /// The candidate can be measured, unless something is running.
    Open { enabled: bool },
    Refused(FinalizeRefusal),
}

impl Session {
    /// The second step for a run.
    pub open spec fn step_for(self, stamp: Option<RunStamp>, step: FinalizeStep) -> bool {
        match stamp {
            None => step == FinalizeStep::Hidden,
            Some(s) => match self.lifecycle.verdict(s) {
                Ok(_) => step == (FinalizeStep::Open { enabled: !self.is_busy() }),
                Err(FinalizeRefusal::AlreadyFinalized) => exists|i: int|
                    0 <= i < self.lifecycle.disclosures@.len() && (
                    #[trigger] self.lifecycle.disclosures@[i]).stamp.equals(s) && step == (
                    FinalizeStep::Measured {
                        test_rows: self.lifecycle.disclosures@[i].eval.test_rows,
                    }),
                Err(refusal) => step == FinalizeStep::Refused(refusal),
            },
        }
    }

    pub fn finalize_step(&self, stamp: Option<RunStamp>) -> (step: FinalizeStep)
        ensures
            self.step_for(stamp, step),
    {
        match stamp {
            None => FinalizeStep::Hidden,
            Some(s) => {
                if let Some(i) = self.lifecycle.disclosure_for(&s) {
                    return FinalizeStep::Measured {
                        test_rows: self.lifecycle.disclosures[i].eval.test_rows,
                    };
                }
                match self.lifecycle.can_finalize(&s) {
                    Ok(_) => FinalizeStep::Open { enabled: !self.busy() },
                    Err(refusal) => FinalizeStep::Refused(refusal),
                }
            },
        }
    }
}

/// The results of a search are no longer used once the active data changed:
/// neither under their old stamp, because no revision is given out twice, nor
/// at all until another search was started.
pub proof fn law_search_results_do_not_outlive_their_data(
    before: Session,
    after: Session,
    data: crate::gui::messages::PreparedData,
    file_name: Option<Seq<char>>,
    split: SplitPlan,
)
    requires
        before.wf(),
        before.data_opened(after, data, file_name, split),
    ensures
        !after.search_current(),
        before.dataset matches Some(old_data) ==> after.dataset->0.revision > old_data.revision,
        before.search_current() ==> !stamps_equal(before.search.stamp, after.stamp_of_data()),
{
}

/// What a search ranks is what is sent on: the run that is meant after a
/// search is on the data that the search was on.
pub proof fn law_candidates_of_a_search_are_of_its_data(
    session: Session,
    seed: u64,
    numeric: Option<Seq<char>>,
    train: Option<Seq<char>>,
)
    requires
        session.mode != TrainingMode::Single,
        session.meant_or(seed, numeric, train) is Ok,
    ensures
        session.search_current(),
        session.chosen_row() is Some,
{
}

/// The results of a search are current exactly if there are active data, and
/// the search was on the same revision of them under an equal division.
pub proof fn law_current_results_are_of_the_active_data(session: Session)
    ensures
        session.search_current() <==> (session.dataset matches Some(active)
            && session.search.stamp matches Some(stamp) && stamp.0 == active.revision
            && stamp.1.equals(active.split)),
{
}

/// The row that is meant is the chosen one and the first where none was
/// chosen; there is none behind the last row.
pub proof fn law_the_best_row_is_meant_until_another_is_chosen(session: Session)
    ensures
        match session.chosen_row() {
            Some(i) => 0 <= i < session.search.rows@.len() && match session.search.selected {
                Some(k) => i == k,
                None => i == 0,
            },
            None => match session.search.selected {
                Some(k) => k >= session.search.rows@.len(),
                None => session.search.rows@.len() == 0,
            },
        },
{
}

/// Only a KAN has an interpretation pipeline, and only where it was asked for.
pub proof fn law_only_a_kan_is_interpreted(session: Session, kind: ModelKind)
    ensures
        !session.interpret_enabled || kind != ModelKind::Kan ==> session.profile_or(kind) == Ok::<
            Option<InterpretProfile>,
            Seq<char>,
        >(None),
        session.interpret_enabled && kind == ModelKind::Kan ==> match resolved(
            true,
            session.interpret_overrides,
        ) {
            Ok(profile) => session.profile_or(kind) == Ok::<Option<InterpretProfile>, Seq<char>>(
                profile,
            ),
            Err(_) => session.profile_or(kind) is Err,
        },
{
}

/// A run that is meant is on the active data, under their division, with the
/// seed that was fixed for it. Its candidate is what the form builds in manual
/// mode. After a search it is the row that is meant: its model, with the full
/// number of epochs and not the short one of the search.
pub proof fn law_a_run_is_what_the_session_shows(
    session: Session,
    final_seed: u64,
    split: Option<Seq<char>>,
    numeric: Option<Seq<char>>,
    train: Option<Seq<char>>,
)
    requires
        session.run_or(final_seed, split, numeric, train) is Ok,
    ensures
        ({
            let stamp = session.run_or(final_seed, split, numeric, train)->Ok_0;
            &&& split is None && numeric is None && train is None
            &&& session.dataset matches Some(active)
            &&& stamp.dataset == active.fingerprint
            &&& stamp.dataset_revision == active.revision
            &&& stamp.split == active.split
            &&& stamp.final_init_seed == final_seed
            &&& stamp.candidate.interpret is Some ==> session.interpret_enabled
                && stamp.candidate.config.kind == ModelKind::Kan
            &&& session.mode == TrainingMode::Single ==> session.form.built(
                session.form.epochs,
                None,
                None,
            ) == Ok::<(NumericConfig, TrainConfig), Seq<char>>(
                (stamp.candidate.config, stamp.candidate.train),
            )
            &&& session.mode != TrainingMode::Single ==> {
                &&& session.search.stamp matches Some(of) && of.0 == active.revision
                    && of.1.equals(active.split)
                &&& session.chosen_row() matches Some(i)
                &&& ({
                    let choice = session.search.rows@[i].choice;
                    let config = stamp.candidate.config;
                    let training = stamp.candidate.train;
                    &&& config.kind == choice.kind
                    &&& config.transformer.d_model == choice.d_model
                    &&& config.transformer.n_heads == choice.heads
                    &&& config.transformer.n_enc_layers == choice.layers
                    &&& config.transformer.n_dec_layers == choice.layers
                    &&& config.transformer.d_ff == choice.d_ff
                    &&& config.value == choice.value
                    &&& config.mlp_width == choice.mlp_width && config.mlp_layers
                        == choice.mlp_layers
                    &&& config.kan == choice.kan
                    &&& training.epochs == choice.final_epochs
                    &&& training.batch_size == choice.batch_size
                    &&& training.lr == choice.lr
                    &&& training.seed == final_seed
                    &&& training.schedule == choice.schedule
                })
            }
        }),
{
}

/// A check measures the validation rows on the way only in manual mode, as
/// often as the form says but at least once in a training, and never where
/// that is no number of epochs.
pub proof fn law_checks_measure_as_often_as_the_form_says(session: Session)
    ensures
        match session.check_schedule() {
            EvalSchedule::Every(n) => {
                &&& session.mode == TrainingMode::Single
                &&& 0 < n <= session.form.epochs
                &&& n <= session.eval_every
                &&& n == session.eval_every || n == session.form.epochs
            },
            EvalSchedule::Never => session.mode != TrainingMode::Single || session.eval_every == 0
                || session.form.epochs == 0,
        },
{
}

/// The second step is open exactly for the run that may be measured, and it
/// is enabled only while nothing runs.
pub proof fn law_the_second_step_waits_for_the_window(
    session: Session,
    stamp: Option<RunStamp>,
    step: FinalizeStep,
)
    requires
        session.step_for(stamp, step),
    ensures
        step is Open <==> (stamp matches Some(s) && session.lifecycle.verdict(s) is Ok),
        step == (FinalizeStep::Open { enabled: true }) ==> !session.is_busy(),
        step == (FinalizeStep::Open { enabled: false }) ==> session.is_busy(),
        step is Hidden <==> stamp is None,
        step matches FinalizeStep::Measured { test_rows } ==> exists|i: int|
            0 <= i < session.lifecycle.disclosures@.len() && (
            #[trigger] session.lifecycle.disclosures@[i]).stamp.equals(stamp->0)
                && session.lifecycle.disclosures@[i].eval.test_rows == test_rows,
{
}

} // verus!

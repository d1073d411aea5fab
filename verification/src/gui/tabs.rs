//! The window with tabs: its grid searches and learning curves, and what
//! moves from one tab to another.

use crate::epoch_sweep::EpochRow;
use crate::gui::forms::{said, TrainForm};
use crate::gui::runs::{EpochSweepForm, SourceForm, SourceKind};
use crate::gui::session::{error_message, Cancelling};
use crate::sweep::{
    is_ranked, law_ranking_orders_the_same_rows, ranked, sort_rows, SweepChoice, SweepObjective,
    SweepRow,
};
use crate::text::{decimal, decimal_text, owned};
use vstd::prelude::*;
use vstd::string::StringExecFns;

verus! {

#[derive(Clone, Copy, Debug, PartialEq, Eq, Structural)]
pub enum Tab {
    Train,
    Predict,
    KanCurves,
    KanFormulas,
    Diagnose,
    Optimize,
    Sweep,
    Text,
    Prepare,
    EpochSweep,
}

/// The results of a running or finished grid.
#[derive(Debug)]
pub struct Board {
    pub running: bool,
    pub rows: Vec<SweepRow>,
    /// How many configurations and runs there are.
    pub total: Option<(usize, usize)>,
    pub cancelled: bool,
}

/// The name under which a grid reports.
#[derive(Clone, Copy, Debug, PartialEq, Eq, Structural)]
pub enum Grid {
    Sweep,
    Optimize,
}

impl Grid {
    pub open spec fn name(self) -> Seq<char> {
        match self {
            Grid::Sweep => "sweep"@,
            Grid::Optimize => "optimize"@,
        }
    }

    fn label(self) -> (text: &'static str)
        ensures
            text@ == self.name(),
    {
        match self {
            Grid::Sweep => "sweep",
            Grid::Optimize => "optimize",
        }
    }
}

impl Board {
    pub open spec fn is_empty(self) -> bool {
        !self.running && self.rows@.len() == 0 && self.total is None && !self.cancelled
    }

    pub fn new() -> (board: Board)
        ensures
            board.is_empty(),
    {
        Board { running: false, rows: Vec::new(), total: None, cancelled: false }
    }

    /// A grid started.
    pub fn started(&mut self, grid: Grid, configs: usize, runs: usize) -> (status: String)
        ensures
            final(self).running,
            final(self).rows@.len() == 0,
            final(self).total == Some((configs, runs)),
            !final(self).cancelled,
            status@ == grid.name() + ": 0/"@ + decimal(configs as nat) + " конфигов ("@ + decimal(
                runs as nat,
            ) + " прогонов)"@,
    {
        self.running = true;
        self.rows = Vec::new();
        self.total = Some((configs, runs));
        self.cancelled = false;
        let mut status: String = owned(grid.label());
        status.append(": 0/");
        status.append(decimal_text(configs as u64).as_str());
        status.append(" конфигов (");
        status.append(decimal_text(runs as u64).as_str());
        status.append(" прогонов)");
        status
    }

    /// A configuration came to a result: the results stay ranked. Says how
    /// many there are, where the size of the grid is known.
    pub fn row(&mut self, grid: Grid, objective: SweepObjective, row: SweepRow) -> (status: Option<
        String,
    >)
        ensures
            final(self).rows@ == ranked(old(self).rows@.push(row), objective),
            final(self).running == old(self).running,
            final(self).total == old(self).total,
            final(self).cancelled == old(self).cancelled,
            said(status) == match old(self).total {
                Some((configs, _)) => Some(
                    grid.name() + ": "@ + decimal(final(self).rows@.len()) + "/"@ + decimal(
                        configs as nat,
                    ) + " конфигов"@,
                ),
                None => None::<Seq<char>>,
            },
    {
        self.rows.push(row);
        sort_rows(&mut self.rows, objective);
        match self.total {
            Some((configs, _)) => {
                let mut status: String = owned(grid.label());
                status.append(": ");
                status.append(decimal_text(self.rows.len() as u64).as_str());
                status.append("/");
                status.append(decimal_text(configs as u64).as_str());
                status.append(" конфигов");
                Some(status)
            },
            None => None,
        }
    }

    /// A grid ended. A search is ranked by its objective; a plain grid comes
    /// ranked already.
    pub fn done(
        &mut self,
        grid: Grid,
        objective: Option<SweepObjective>,
        rows: Vec<SweepRow>,
        cancelled: bool,
    ) -> (status: String)
        ensures
            !final(self).running,
            final(self).rows@ == match objective {
                Some(o) => ranked(rows@, o),
                None => rows@,
            },
            final(self).total == old(self).total,
            final(self).cancelled == cancelled,
            status@ == grid.name() + if cancelled {
                " отменён"@
            } else {
                " завершён"@
            },
    {
        self.running = false;
        self.rows = rows;
        if let Some(o) = objective {
            sort_rows(&mut self.rows, o);
        }
        self.cancelled = cancelled;
        let mut status: String = owned(grid.label());
        if cancelled {
            status.append(" отменён");
        } else {
            status.append(" завершён");
        }
        status
    }

    /// Ranks the results anew, by an objective that changed.
    pub fn rank(&mut self, objective: SweepObjective)
        ensures
            *final(self) == (Board { rows: final(self).rows, ..*old(self) }),
            final(self).rows@ == ranked(old(self).rows@, objective),
            is_ranked(final(self).rows@, objective),
    {
        proof {
            law_ranking_orders_the_same_rows(self.rows@, objective);
        }
        sort_rows(&mut self.rows, objective);
    }

    /// The best result, once the grid no longer runs.
    pub fn best(&self) -> (choice: Option<SweepChoice>)
        ensures
            choice == if self.rows@.len() > 0 && !self.running {
                Some(self.rows@[0].choice)
            } else {
                None::<SweepChoice>
            },
    {
        if self.rows.len() > 0 && !self.running {
            Some(self.rows[0].choice)
        } else {
            None
        }
    }
}

/// The results of a learning curve.
#[derive(Debug)]
pub struct EpochBoard {
    pub running: bool,
    pub rows: Vec<EpochRow>,
    pub total: Option<usize>,
    /// The recommended number of epochs and why.
    pub recommendation: Option<(usize, String)>,
    pub cancelled: bool,
}

impl EpochBoard {
    pub open spec fn is_empty(self) -> bool {
        self.rows@.len() == 0 && self.total is None && self.recommendation is None
            && !self.cancelled
    }

    pub fn new() -> (board: EpochBoard)
        ensures
            board.is_empty(),
            !board.running,
    {
        EpochBoard {
            running: false,
            rows: Vec::new(),
            total: None,
            recommendation: None,
            cancelled: false,
        }
    }

    /// Nothing is left of the last curve.
    pub fn clear(&mut self)
        ensures
            final(self).is_empty(),
            final(self).running == old(self).running,
    {
        self.rows = Vec::new();
        self.total = None;
        self.recommendation = None;
        self.cancelled = false;
    }

    pub fn started(&mut self, total_points: usize) -> (status: String)
        ensures
            final(self).running,
            final(self).rows@.len() == 0,
            final(self).total == Some(total_points),
            final(self).recommendation is None,
            !final(self).cancelled,
            status@ == "epoch-sweep: 0/"@ + decimal(total_points as nat),
    {
        self.clear();
        self.running = true;
        self.total = Some(total_points);
        let mut status: String = owned("epoch-sweep: 0/");
        status.append(decimal_text(total_points as u64).as_str());
        status
    }

    pub fn row(&mut self, row: EpochRow) -> (status: Option<String>)
        ensures
            final(self).rows@ == old(self).rows@.push(row),
            final(self).running == old(self).running,
            final(self).total == old(self).total,
            final(self).recommendation == old(self).recommendation,
            final(self).cancelled == old(self).cancelled,
            said(status) == match old(self).total {
                Some(total) => Some(
                    "epoch-sweep: "@ + decimal(final(self).rows@.len()) + "/"@ + decimal(
                        total as nat,
                    ),
                ),
                None => None::<Seq<char>>,
            },
    {
        self.rows.push(row);
        match self.total {
            Some(total) => {
                let mut status: String = owned("epoch-sweep: ");
                status.append(decimal_text(self.rows.len() as u64).as_str());
                status.append("/");
                status.append(decimal_text(total as u64).as_str());
                Some(status)
            },
            None => None,
        }
    }

    pub fn done(
        &mut self,
        rows: Vec<EpochRow>,
        recommendation: Option<(usize, String)>,
        cancelled: bool,
    ) -> (status: String)
        ensures
            !final(self).running,
            final(self).rows == rows,
            final(self).total == old(self).total,
            final(self).recommendation == recommendation,
            final(self).cancelled == cancelled,
            status@ == if cancelled {
                "epoch-sweep отменён"@
            } else {
                "epoch-sweep завершён"@
            },
    {
        self.running = false;
        self.rows = rows;
        self.recommendation = recommendation;
        self.cancelled = cancelled;
        if cancelled {
            owned("epoch-sweep отменён")
        } else {
            owned("epoch-sweep завершён")
        }
    }

    /// The recommended number of epochs, once the curve no longer grows.
    pub fn recommended(&self) -> (epochs: Option<usize>)
        ensures
            epochs == match self.recommendation {
                Some((e, _)) => if self.running {
                    None::<usize>
                } else {
                    Some(e)
                },
                None => None::<usize>,
            },
    {
        match &self.recommendation {
            Some((e, _)) => if self.running {
                None
            } else {
                Some(*e)
            },
            None => None,
        }
    }
}

/// What several tabs share: the tab that is open, the training form with its
/// data source, and the learning-curve form with its results.
#[derive(Debug)]
pub struct Tabs {
    pub tab: Tab,
    pub status: String,
    pub source: SourceForm,
    pub form: TrainForm,
    pub epoch_form: EpochSweepForm,
    pub epochs: EpochBoard,
}

impl Tabs {
    /// Something is being cancelled.
    pub fn cancelling(&mut self, work: Cancelling)
        ensures
            *final(self) == (Tabs { status: final(self).status, ..*old(self) }),
            final(self).status@ == work.text(),
    {
        self.status = work.message();
    }

    /// What was asked for cannot be done.
    pub fn show_error(&mut self, reason: &str)
        ensures
            *final(self) == (Tabs { status: final(self).status, ..*old(self) }),
            final(self).status@ == "Ошибка: "@ + reason@,
    {
        self.status = error_message(reason);
    }

    /// The table of a learning curve was written, or why it was not.
    pub fn csv_written(&mut self, path: &str, outcome: Result<(), String>)
        ensures
            *final(self) == (Tabs { status: final(self).status, ..*old(self) }),
            final(self).status@ == match outcome {
                Ok(()) => "CSV: "@ + path@,
                Err(e) => "Ошибка: запись CSV: "@ + e@,
            },
    {
        match outcome {
            Ok(()) => {
                let mut status: String = owned("CSV: ");
                status.append(path);
                self.status = status;
            },
            Err(e) => {
                let mut status: String = owned("Ошибка: запись CSV: ");
                status.append(e.as_str());
                self.status = status;
            },
        }
    }

    /// The best configuration goes to the training tab, for the file that it
    /// was found on.
    pub fn apply_choice_to_train(&mut self, file_path: &str, choice: &SweepChoice)
        ensures
            final(self).tab == Tab::Train,
            final(self).status@ == "лучший конфиг применён во вкладке Train"@,
            final(self).source.kind == SourceKind::Tnum,
            final(self).source.file_path@ == file_path@,
            final(self).source.blackbox == old(self).source.blackbox,
            final(self).source.prepared == old(self).source.prepared,
            final(self).form == old(self).form.with_choice(*choice),
            final(self).epoch_form == old(self).epoch_form,
            final(self).epochs == old(self).epochs,
    {
        self.source.kind = SourceKind::Tnum;
        self.source.file_path = owned(file_path);
        self.form.take_choice(choice);
        self.tab = Tab::Train;
        self.status = owned("лучший конфиг применён во вкладке Train");
    }

    /// The best configuration goes to the learning-curve tab, to look for its
    /// number of epochs.
    pub fn apply_choice_to_epoch_sweep(&mut self, file_path: &str, choice: &SweepChoice)
        ensures
            final(self).tab == Tab::EpochSweep,
            final(self).status@ == "конфиг перенесён в Epoch-sweep – запусти подбор эпох"@,
            final(self).source == old(self).source,
            final(self).form == old(self).form,
            final(self).epoch_form.file_path@ == file_path@,
            final(self).epoch_form.epochs@ == "20,40,60,80,120"@,
            final(self).epoch_form.model == old(self).epoch_form.model.with_choice(*choice),
            final(self).epoch_form.target_r2 == old(self).epoch_form.target_r2,
            final(self).epoch_form.min_gain == old(self).epoch_form.min_gain,
            final(self).epoch_form.plateau_min == old(self).epoch_form.plateau_min,
            final(self).epochs.is_empty(),
            final(self).epochs.running == old(self).epochs.running,
    {
        self.epoch_form.take_choice(file_path, choice);
        self.epochs.clear();
        self.tab = Tab::EpochSweep;
        self.status = owned("конфиг перенесён в Epoch-sweep – запусти подбор эпох");
    }

    /// The configuration of the learning curve goes to the training tab with
    /// this number of epochs.
    pub fn apply_epoch_form_to_train(&mut self, epochs: usize)
        ensures
            final(self).tab == Tab::Train,
            final(self).status@ == "конфиг и "@ + decimal(epochs as nat)
                + " эпох применены во вкладке Train"@,
            final(self).source.kind == SourceKind::Tnum,
            final(self).source.file_path@ == old(self).epoch_form.file_path@,
            final(self).source.blackbox == old(self).source.blackbox,
            final(self).source.prepared == old(self).source.prepared,
            final(self).form == (TrainForm { epochs, ..old(self).epoch_form.model }),
            final(self).epoch_form == old(self).epoch_form,
            final(self).epochs == old(self).epochs,
    {
        self.source.kind = SourceKind::Tnum;
        self.source.file_path = owned(self.epoch_form.file_path.as_str());
        self.form = self.epoch_form.model;
        self.form.epochs = epochs;
        self.tab = Tab::Train;
        let mut status: String = owned("конфиг и ");
        status.append(decimal_text(epochs as u64).as_str());
        status.append(" эпох применены во вкладке Train");
        self.status = status;
    }
}

/// The way from a search over a learning curve to a training keeps the
/// configuration: only the number of epochs is what the curve recommends.
pub proof fn law_configuration_survives_the_way_to_training(
    first: TrainForm,
    second: TrainForm,
    choice: SweepChoice,
    epochs: usize,
)
    ensures
        (TrainForm { epochs, ..second.with_choice(choice) }).config() == first.with_choice(
            choice,
        ).config(),
        (TrainForm { epochs, ..second.with_choice(choice) }).epochs == epochs,
{
}

} // verus!

//! What was checked, what was measured on the test rows, and whether a
//! candidate may be measured there: the test rows of a dataset are opened
//! once.

use crate::config::NumericConfig;
use crate::encoders::ValueEncoderConfig;
use crate::epoch_sweep::EvalSource;
use crate::fingerprint::DatasetFingerprint;
use crate::interpret::{InterpretProfile, InterpretReports};
use crate::single::Single;
use vstd::prelude::*;

verus! {

/// How a dataset is divided.
#[derive(Clone, Copy, Debug, PartialEq, Eq, Structural)]
pub enum SplitPlan {
    Holdout { train_frac: Single, val_frac: Single, split_seed: u64 },
    KFold { k: usize, folds_seed: u64, test_frac: Single, test_seed: u64 },
}

/// How the learning rate moves during a training.
#[derive(Clone, Copy, Debug, PartialEq, Eq, Structural)]
pub enum LrSchedule {
    Constant,
    WarmupCosine { warmup_frac: Single, min_lr_ratio: Single },
}

#[derive(Clone, Copy, Debug, PartialEq, Eq, Structural)]
pub struct TrainConfig {
    pub epochs: usize,
    pub batch_size: usize,
    pub lr: Single,
    pub seed: u64,
    pub schedule: LrSchedule,
}

/// A model and how it is trained.
#[derive(Clone, Copy, Debug, PartialEq, Eq, Structural)]
pub struct CandidateSpec {
    pub config: NumericConfig,
    pub train: TrainConfig,
    pub interpret: Option<InterpretProfile>,
}

/// Everything that identifies a run: on which data, divided how, with which
/// candidate.
#[derive(Clone, Copy, Debug)]
pub struct RunStamp {
    pub dataset: DatasetFingerprint,
    pub dataset_revision: u64,
    pub split: SplitPlan,
    pub candidate: CandidateSpec,
    pub final_init_seed: u64,
}

impl SplitPlan {
    /// The same division. Fractions are compared as numbers.
    pub open spec fn equals(self, other: SplitPlan) -> bool {
        match (self, other) {
            (
                SplitPlan::Holdout { train_frac: a, val_frac: b, split_seed: c },
                SplitPlan::Holdout { train_frac: x, val_frac: y, split_seed: z },
            ) => a.equals(x) && b.equals(y) && c == z,
            (
                SplitPlan::KFold { k: a, folds_seed: b, test_frac: c, test_seed: d },
                SplitPlan::KFold { k: x, folds_seed: y, test_frac: z, test_seed: w },
            ) => a == x && b == y && c.equals(z) && d == w,
            _ => false,
        }
    }

    pub fn same_as(&self, other: &SplitPlan) -> (yes: bool)
        ensures
            yes == self.equals(*other),
    {
        match (*self, *other) {
            (
                SplitPlan::Holdout { train_frac: a, val_frac: b, split_seed: c },
                SplitPlan::Holdout { train_frac: x, val_frac: y, split_seed: z },
            ) => a.is_equal(x) && b.is_equal(y) && c == z,
            (
                SplitPlan::KFold { k: a, folds_seed: b, test_frac: c, test_seed: d },
                SplitPlan::KFold { k: x, folds_seed: y, test_frac: z, test_seed: w },
            ) => a == x && b == y && c.is_equal(z) && d == w,
            _ => false,
        }
    }

    /// The source of an estimate made under this plan.
    pub open spec fn source(self) -> EvalSource {
        match self {
            SplitPlan::Holdout { .. } => EvalSource::Validation,
            SplitPlan::KFold { k, .. } => EvalSource::Cv { k },
        }
    }

    pub fn eval_source(&self) -> (source: EvalSource)
        ensures
            source == self.source(),
    {
        match *self {
            SplitPlan::Holdout { .. } => EvalSource::Validation,
            SplitPlan::KFold { k, .. } => EvalSource::Cv { k },
        }
    }

    /// How many trainings one check under this plan takes.
    pub open spec fn fold_count(self) -> usize {
        match self {
            SplitPlan::Holdout { .. } => 1,
            SplitPlan::KFold { k, .. } => k,
        }
    }

    pub fn folds(&self) -> (n: usize)
        ensures
            n == self.fold_count(),
    {
        match *self {
            SplitPlan::Holdout { .. } => 1,
            SplitPlan::KFold { k, .. } => k,
        }
    }
}

impl LrSchedule {
    pub open spec fn equals(self, other: LrSchedule) -> bool {
        match (self, other) {
            (LrSchedule::Constant, LrSchedule::Constant) => true,
            (
                LrSchedule::WarmupCosine { warmup_frac: a, min_lr_ratio: b },
                LrSchedule::WarmupCosine { warmup_frac: x, min_lr_ratio: y },
            ) => a.equals(x) && b.equals(y),
            _ => false,
        }
    }

    fn same_as(&self, other: &LrSchedule) -> (yes: bool)
        ensures
            yes == self.equals(*other),
    {
        match (*self, *other) {
            (LrSchedule::Constant, LrSchedule::Constant) => true,
            (
                LrSchedule::WarmupCosine { warmup_frac: a, min_lr_ratio: b },
                LrSchedule::WarmupCosine { warmup_frac: x, min_lr_ratio: y },
            ) => a.is_equal(x) && b.is_equal(y),
            _ => false,
        }
    }
}

pub open spec fn values_equal(a: ValueEncoderConfig, b: ValueEncoderConfig) -> bool {
    a.kind == b.kind && a.fourier_bands == b.fourier_bands && a.fourier_scale.equals(
        b.fourier_scale,
    )
}

pub open spec fn configs_equal(a: NumericConfig, b: NumericConfig) -> bool {
    &&& a.kind == b.kind
    &&& a.transformer.d_model == b.transformer.d_model
    &&& a.transformer.n_heads == b.transformer.n_heads
    &&& a.transformer.n_enc_layers == b.transformer.n_enc_layers
    &&& a.transformer.n_dec_layers == b.transformer.n_dec_layers
    &&& a.transformer.d_ff == b.transformer.d_ff
    &&& a.transformer.ln_eps.equals(b.transformer.ln_eps)
    &&& values_equal(a.value, b.value)
    &&& a.mlp_width == b.mlp_width
    &&& a.mlp_layers == b.mlp_layers
    &&& a.kan == b.kan
}

pub open spec fn trains_equal(a: TrainConfig, b: TrainConfig) -> bool {
    a.epochs == b.epochs && a.batch_size == b.batch_size && a.lr.equals(b.lr) && a.seed == b.seed
        && a.schedule.equals(b.schedule)
}

pub open spec fn profiles_equal(a: InterpretProfile, b: InterpretProfile) -> bool {
    &&& a.version == b.version
    &&& a.l1.equals(b.l1)
    &&& match (a.prune, b.prune) {
        (None, None) => true,
        (Some(x), Some(y)) => x.equals(y),
        _ => false,
    }
    &&& a.finetune_epochs == b.finetune_epochs
    &&& a.compact == b.compact
}

impl CandidateSpec {
    pub open spec fn equals(self, other: CandidateSpec) -> bool {
        &&& configs_equal(self.config, other.config)
        &&& trains_equal(self.train, other.train)
        &&& match (self.interpret, other.interpret) {
            (None, None) => true,
            (Some(x), Some(y)) => profiles_equal(x, y),
            _ => false,
        }
    }

    pub fn same_as(&self, other: &CandidateSpec) -> (yes: bool)
        ensures
            yes == self.equals(*other),
    {
        same_config(&self.config, &other.config) && same_train(&self.train, &other.train)
            && match (self.interpret, other.interpret) {
            (None, None) => true,
            (Some(x), Some(y)) => same_profile(&x, &y),
            _ => false,
        }
    }
}

fn same_config(a: &NumericConfig, b: &NumericConfig) -> (yes: bool)
    ensures
        yes == configs_equal(*a, *b),
{
    a.kind == b.kind && a.transformer.d_model == b.transformer.d_model && a.transformer.n_heads
        == b.transformer.n_heads && a.transformer.n_enc_layers == b.transformer.n_enc_layers
        && a.transformer.n_dec_layers == b.transformer.n_dec_layers && a.transformer.d_ff
        == b.transformer.d_ff && a.transformer.ln_eps.is_equal(b.transformer.ln_eps)
        && a.value.kind == b.value.kind && a.value.fourier_bands == b.value.fourier_bands
        && a.value.fourier_scale.is_equal(b.value.fourier_scale) && a.mlp_width == b.mlp_width
        && a.mlp_layers == b.mlp_layers && a.kan == b.kan
}

fn same_train(a: &TrainConfig, b: &TrainConfig) -> (yes: bool)
    ensures
        yes == trains_equal(*a, *b),
{
    a.epochs == b.epochs && a.batch_size == b.batch_size && a.lr.is_equal(b.lr) && a.seed == b.seed
        && a.schedule.same_as(&b.schedule)
}

fn same_profile(a: &InterpretProfile, b: &InterpretProfile) -> (yes: bool)
    ensures
        yes == profiles_equal(*a, *b),
{
    a.version == b.version && a.l1.is_equal(b.l1) && match (a.prune, b.prune) {
        (None, None) => true,
        (Some(x), Some(y)) => x.is_equal(y),
        _ => false,
    } && a.finetune_epochs == b.finetune_epochs && a.compact == b.compact
}

impl RunStamp {
    /// The same run. Numbers are compared as numbers, so a run with a NaN
    /// anywhere is not even the same as itself.
    pub open spec fn equals(self, other: RunStamp) -> bool {
        &&& self.dataset.0@ == other.dataset.0@
        &&& self.dataset_revision == other.dataset_revision
        &&& self.split.equals(other.split)
        &&& self.candidate.equals(other.candidate)
        &&& self.final_init_seed == other.final_init_seed
    }

    pub fn same_as(&self, other: &RunStamp) -> (yes: bool)
        ensures
            yes == self.equals(*other),
    {
        self.dataset.same_as(&other.dataset) && self.dataset_revision == other.dataset_revision
            && self.split.same_as(&other.split) && self.candidate.same_as(&other.candidate)
            && self.final_init_seed == other.final_init_seed
    }
}

/// The quality of predictions.
#[derive(Clone, Copy, Debug, PartialEq, Eq, Structural)]
pub struct Metrics {
    pub rmse: Single,
    pub mae: Single,
    pub rel_error: Single,
    pub r2: Single,
}

/// The estimate of a checked candidate.
#[derive(Debug)]
pub struct CheckEval {
    pub metrics: Metrics,
    pub per_output: Vec<Metrics>,
    pub r2_std_folds: Single,
}

#[derive(Debug)]
pub struct CheckedRun {
    pub stamp: RunStamp,
    pub eval: CheckEval,
    /// What the interpretation pipeline did in this very run.
    pub interpret: Option<InterpretReports>,
}

/// The one measurement on the test rows.
#[derive(Debug)]
pub struct FinalEval {
    pub plan: SplitPlan,
    pub final_init_seed: u64,
    pub test_rows: usize,
    pub metrics: Metrics,
    pub per_output: Vec<Metrics>,
}

pub struct FinalView {
    pub plan: SplitPlan,
    pub final_init_seed: u64,
    pub test_rows: usize,
    pub metrics: Metrics,
    pub per_output: Seq<Metrics>,
}

impl View for FinalEval {
    type V = FinalView;

    open spec fn view(&self) -> FinalView {
        FinalView {
            plan: self.plan,
            final_init_seed: self.final_init_seed,
            test_rows: self.test_rows,
            metrics: self.metrics,
            per_output: self.per_output@,
        }
    }
}

pub fn copy_metrics(list: &Vec<Metrics>) -> (out: Vec<Metrics>)
    ensures
        out@ == list@,
{
    let mut out: Vec<Metrics> = Vec::new();
    let mut i: usize = 0;
    while i < list.len()
        invariant
            i <= list.len(),
            out@ == list@.take(i as int),
        decreases list.len() - i,
    {
        out.push(list[i]);
        i += 1;
        assert(out@ =~= list@.take(i as int));
    }
    assert(out@ =~= list@);
    out
}

impl FinalEval {
    pub fn copied(&self) -> (out: FinalEval)
        ensures
            out@ == self@,
    {
        FinalEval {
            plan: self.plan,
            final_init_seed: self.final_init_seed,
            test_rows: self.test_rows,
            metrics: self.metrics,
            per_output: copy_metrics(&self.per_output),
        }
    }
}

#[derive(Debug)]
pub struct TestDisclosure {
    pub stamp: RunStamp,
    pub eval: FinalEval,
}

/// Why a candidate cannot be measured on the test rows.
#[derive(Clone, Copy, Debug, PartialEq, Eq, Structural)]
pub enum FinalizeRefusal {
    /// It was measured already.
    AlreadyFinalized,
    /// The test rows of these data were opened for another candidate.
    TestSpent,
    /// The last check was of another candidate, or there was none.
    NotChecked,
}

pub open spec fn refusal_text(refusal: FinalizeRefusal) -> Seq<char> {
    match refusal {
        FinalizeRefusal::AlreadyFinalized => "этот кандидат уже обучен финально"@,
        FinalizeRefusal::TestSpent => "test на этих данных уже открыт другим кандидатом"@,
        FinalizeRefusal::NotChecked => "сначала нажмите «Проверить конфигурацию»"@,
    }
}

impl FinalizeRefusal {
    pub fn message(&self) -> (text: String)
        ensures
            text@ == refusal_text(*self),
    {
        match *self {
            FinalizeRefusal::AlreadyFinalized => crate::text::owned(
                "этот кандидат уже обучен финально",
            ),
            FinalizeRefusal::TestSpent => crate::text::owned(
                "test на этих данных уже открыт другим кандидатом",
            ),
            FinalizeRefusal::NotChecked => crate::text::owned(
                "сначала нажмите «Проверить конфигурацию»",
            ),
        }
    }
}

/// What was checked and what was measured. Every measurement is kept: the
/// test rows of a dataset stay spent when other data are opened in between.
#[derive(Debug)]
pub struct Lifecycle {
    pub last_check: Option<CheckedRun>,
    pub disclosures: Vec<TestDisclosure>,
}

impl Lifecycle {
    /// The test rows of these data were opened.
    pub open spec fn spent(&self, dataset: Seq<u8>) -> bool {
        exists|i: int|
            0 <= i < self.disclosures@.len() && (#[trigger] self.disclosures@[i]).stamp.dataset.0@
                == dataset
    }

    /// This very run was measured.
    pub open spec fn finalized(&self, stamp: RunStamp) -> bool {
        exists|i: int|
            0 <= i < self.disclosures@.len() && (#[trigger] self.disclosures@[i]).stamp.equals(
                stamp,
            )
    }

    pub open spec fn was_checked(&self, stamp: RunStamp) -> bool {
        self.last_check matches Some(run) && run.stamp.equals(stamp)
    }

    /// The first measurement of this very run from the `k`-th on.
    pub open spec fn measure_from(&self, stamp: RunStamp, k: int) -> Option<TestDisclosure>
        decreases self.disclosures@.len() - k,
    {
        if k < 0 || k >= self.disclosures@.len() {
            None
        } else if self.disclosures@[k].stamp.equals(stamp) {
            Some(self.disclosures@[k])
        } else {
            self.measure_from(stamp, k + 1)
        }
    }

    pub open spec fn measure_of(&self, stamp: RunStamp) -> Option<TestDisclosure> {
        self.measure_from(stamp, 0)
    }

    /// Whether the run may be measured on the test rows, and why not.
    pub open spec fn verdict(&self, stamp: RunStamp) -> Result<(), FinalizeRefusal> {
        if self.finalized(stamp) {
            Err(FinalizeRefusal::AlreadyFinalized)
        } else if self.spent(stamp.dataset.0@) {
            Err(FinalizeRefusal::TestSpent)
        } else if !self.was_checked(stamp) {
            Err(FinalizeRefusal::NotChecked)
        } else {
            Ok(())
        }
    }

    pub fn new() -> (life: Lifecycle)
        ensures
            life.last_check is None,
            life.disclosures@.len() == 0,
    {
        Lifecycle { last_check: None, disclosures: Vec::new() }
    }

    /// The last check replaces the one before it.
    pub fn record_check(&mut self, run: CheckedRun)
        ensures
            final(self).last_check == Some(run),
            final(self).disclosures@ == old(self).disclosures@,
    {
        self.last_check = Some(run);
    }

    pub fn record_disclosure(&mut self, disclosure: TestDisclosure)
        ensures
            final(self).last_check == old(self).last_check,
            final(self).disclosures@ == old(self).disclosures@.push(disclosure),
    {
        self.disclosures.push(disclosure);
    }

    /// Other data were opened: the check was not about them. What was
    /// measured stays.
    pub fn on_dataset_changed(&mut self)
        ensures
            final(self).last_check is None,
            final(self).disclosures@ == old(self).disclosures@,
    {
        self.last_check = None;
    }

    /// The first measurement of this very run.
    pub fn disclosure_for(&self, stamp: &RunStamp) -> (found: Option<usize>)
        ensures
            match found {
                Some(i) => i < self.disclosures@.len() && self.disclosures@[i as int].stamp.equals(
                    *stamp,
                ) && forall|k: int|
                    0 <= k < i ==> !(#[trigger] self.disclosures@[k]).stamp.equals(*stamp),
                None => !self.finalized(*stamp),
            },
            self.measure_of(*stamp) == match found {
                Some(i) => Some(self.disclosures@[i as int]),
                None => None,
            },
    {
        let mut i: usize = 0;
        while i < self.disclosures.len()
            invariant
                i <= self.disclosures.len(),
                self.measure_of(*stamp) == self.measure_from(*stamp, i as int),
                forall|k: int|
                    0 <= k < i ==> !(#[trigger] self.disclosures@[k]).stamp.equals(*stamp),
            decreases self.disclosures.len() - i,
        {
            if self.disclosures[i].stamp.same_as(stamp) {
                return Some(i);
            }
            i += 1;
        }
        None
    }

    fn is_spent(&self, dataset: &DatasetFingerprint) -> (yes: bool)
        ensures
            yes == self.spent(dataset.0@),
    {
        let mut i: usize = 0;
        while i < self.disclosures.len()
            invariant
                i <= self.disclosures.len(),
                forall|k: int|
                    0 <= k < i ==> (#[trigger] self.disclosures@[k]).stamp.dataset.0@
                        != dataset.0@,
            decreases self.disclosures.len() - i,
        {
            if self.disclosures[i].stamp.dataset.same_as(dataset) {
                return true;
            }
            i += 1;
        }
        false
    }

    /// The last check, if it was of this very run.
    pub fn checked_for(&self, stamp: &RunStamp) -> (yes: bool)
        ensures
            yes == self.was_checked(*stamp),
    {
        match &self.last_check {
            Some(run) => run.stamp.same_as(stamp),
            None => false,
        }
    }

    pub fn can_finalize(&self, stamp: &RunStamp) -> (verdict: Result<(), FinalizeRefusal>)
        ensures
            verdict == self.verdict(*stamp),
    {
        if self.disclosure_for(stamp).is_some() {
            Err(FinalizeRefusal::AlreadyFinalized)
        } else if self.is_spent(&stamp.dataset) {
            Err(FinalizeRefusal::TestSpent)
        } else if !self.checked_for(stamp) {
            Err(FinalizeRefusal::NotChecked)
        } else {
            Ok(())
        }
    }
}

/// Once a measurement on some data is recorded, no candidate on the same
/// data may be measured again, whatever is checked afterwards.
pub proof fn law_test_rows_open_once(life: Lifecycle, i: int, stamp: RunStamp)
    requires
        0 <= i < life.disclosures@.len(),
        life.disclosures@[i].stamp.dataset.0@ == stamp.dataset.0@,
    ensures
        life.verdict(stamp) is Err,
{
}

/// A candidate is measured only after exactly this candidate was checked.
pub proof fn law_only_checked_candidates_are_measured(life: Lifecycle, stamp: RunStamp)
    requires
        life.verdict(stamp) is Ok,
    ensures
        life.last_check matches Some(run) && run.stamp.equals(stamp),
        !life.spent(stamp.dataset.0@),
{
}

/// Two runs count as the same exactly if they agree in everything: the data and
/// their revision, every number of the division, every size of the model, every
/// setting of the training, and every setting of the interpretation pipeline.
/// Single-precision settings agree if they are the same number.
pub proof fn law_the_same_run_agrees_in_everything(a: RunStamp, b: RunStamp)
    ensures
        a.equals(b) <==> {
            &&& a.dataset.0@ == b.dataset.0@
            &&& a.dataset_revision == b.dataset_revision
            &&& a.final_init_seed == b.final_init_seed
            &&& match a.split {
                SplitPlan::Holdout { train_frac, val_frac, split_seed } => b.split is Holdout
                    && train_frac.equals(b.split->train_frac) && val_frac.equals(
                    b.split->val_frac,
                ) && split_seed == b.split->split_seed,
                SplitPlan::KFold { k, folds_seed, test_frac, test_seed } => b.split is KFold && k
                    == b.split->k && folds_seed == b.split->folds_seed && test_frac.equals(
                    b.split->test_frac,
                ) && test_seed == b.split->test_seed,
            }
            &&& a.candidate.train.epochs == b.candidate.train.epochs
            &&& a.candidate.train.batch_size == b.candidate.train.batch_size
            &&& a.candidate.train.lr.equals(b.candidate.train.lr)
            &&& a.candidate.train.seed == b.candidate.train.seed
            &&& match a.candidate.train.schedule {
                LrSchedule::Constant => b.candidate.train.schedule is Constant,
                LrSchedule::WarmupCosine { warmup_frac, min_lr_ratio } =>
                    b.candidate.train.schedule is WarmupCosine && warmup_frac.equals(
                        b.candidate.train.schedule->warmup_frac,
                    ) && min_lr_ratio.equals(b.candidate.train.schedule->min_lr_ratio),
            }
            &&& a.candidate.config.kind == b.candidate.config.kind
            &&& a.candidate.config.transformer.d_model == b.candidate.config.transformer.d_model
            &&& a.candidate.config.transformer.n_heads == b.candidate.config.transformer.n_heads
            &&& a.candidate.config.transformer.n_enc_layers
                == b.candidate.config.transformer.n_enc_layers
            &&& a.candidate.config.transformer.n_dec_layers
                == b.candidate.config.transformer.n_dec_layers
            &&& a.candidate.config.transformer.d_ff == b.candidate.config.transformer.d_ff
            &&& a.candidate.config.transformer.ln_eps.equals(
                b.candidate.config.transformer.ln_eps,
            )
            &&& a.candidate.config.value.kind == b.candidate.config.value.kind
            &&& a.candidate.config.value.fourier_bands == b.candidate.config.value.fourier_bands
            &&& a.candidate.config.value.fourier_scale.equals(
                b.candidate.config.value.fourier_scale,
            )
            &&& a.candidate.config.mlp_width == b.candidate.config.mlp_width
            &&& a.candidate.config.mlp_layers == b.candidate.config.mlp_layers
            &&& a.candidate.config.kan.width == b.candidate.config.kan.width
            &&& a.candidate.config.kan.layers == b.candidate.config.kan.layers
            &&& a.candidate.config.kan.grid == b.candidate.config.kan.grid
            &&& match a.candidate.interpret {
                None => b.candidate.interpret is None,
                Some(x) => b.candidate.interpret matches Some(y) && x.version == y.version
                    && x.l1.equals(y.l1) && x.finetune_epochs == y.finetune_epochs && x.compact
                    == y.compact && match x.prune {
                    None => y.prune is None,
                    Some(t) => y.prune matches Some(u) && t.equals(u),
                },
            }
        },
{
}

/// A run may be measured on the test rows exactly if the last check was of a
/// run that agrees with it in everything, and no run was ever measured on its
/// data. A change of any setting after the check closes the test rows again.
pub proof fn law_a_changed_candidate_is_checked_again(life: Lifecycle, stamp: RunStamp)
    ensures
        life.verdict(stamp) is Ok <==> {
            &&& life.last_check is Some
            &&& life.last_check->0.stamp.equals(stamp)
            &&& forall|i: int|
                0 <= i < life.disclosures@.len() ==> (
                #[trigger] life.disclosures@[i]).stamp.dataset.0@ != stamp.dataset.0@
        },
        life.verdict(stamp) is Ok ==> {
            let checked = life.last_check->0.stamp;
            &&& checked.dataset.0@ == stamp.dataset.0@
            &&& checked.dataset_revision == stamp.dataset_revision
            &&& checked.candidate.train.lr.equals(stamp.candidate.train.lr)
            &&& checked.candidate.train.epochs == stamp.candidate.train.epochs
            &&& checked.candidate.train.batch_size == stamp.candidate.train.batch_size
            &&& checked.candidate.train.seed == stamp.candidate.train.seed
            &&& checked.candidate.config.kind == stamp.candidate.config.kind
            &&& checked.final_init_seed == stamp.final_init_seed
            &&& checked.candidate.interpret is Some == stamp.candidate.interpret is Some
        },
        life.verdict(stamp) == Err::<(), FinalizeRefusal>(FinalizeRefusal::AlreadyFinalized) <==> (
        exists|i: int|
            0 <= i < life.disclosures@.len() && (#[trigger] life.disclosures@[i]).stamp.equals(
                stamp,
            )),
        life.verdict(stamp) == Err::<(), FinalizeRefusal>(FinalizeRefusal::NotChecked) ==> !(
        life.last_check is Some && life.last_check->0.stamp.equals(stamp)),
        life.verdict(stamp) == Err::<(), FinalizeRefusal>(FinalizeRefusal::TestSpent) ==> (exists|
            i: int,
        |
            0 <= i < life.disclosures@.len() && (
            #[trigger] life.disclosures@[i]).stamp.dataset.0@ == stamp.dataset.0@),
{
    assert(life.finalized(stamp) ==> life.spent(stamp.dataset.0@)) by {
        if life.finalized(stamp) {
            let i = choose|i: int|
                0 <= i < life.disclosures@.len() && (
                #[trigger] life.disclosures@[i]).stamp.equals(stamp);
            law_the_same_run_agrees_in_everything(life.disclosures@[i].stamp, stamp);
        }
    }
}

/// The measurement of a run is the first one that was recorded for it, and
/// there is one exactly if one was recorded.
pub proof fn law_a_run_keeps_its_first_measurement(life: Lifecycle, stamp: RunStamp)
    ensures
        match life.measure_of(stamp) {
            Some(d) => exists|i: int|
                {
                    &&& 0 <= i < life.disclosures@.len()
                    &&& #[trigger] life.disclosures@[i] == d
                    &&& d.stamp.equals(stamp)
                    &&& forall|k: int|
                        0 <= k < i ==> !(#[trigger] life.disclosures@[k]).stamp.equals(stamp)
                },
            None => forall|i: int|
                0 <= i < life.disclosures@.len() ==> !(
                #[trigger] life.disclosures@[i]).stamp.equals(stamp),
        },
{
    lemma_measure_from(life, stamp, 0);
}

proof fn lemma_measure_from(life: Lifecycle, stamp: RunStamp, k: int)
    requires
        0 <= k,
    ensures
        match life.measure_from(stamp, k) {
            Some(d) => exists|i: int|
                {
                    &&& k <= i < life.disclosures@.len()
                    &&& #[trigger] life.disclosures@[i] == d
                    &&& d.stamp.equals(stamp)
                    &&& forall|q: int|
                        k <= q < i ==> !(#[trigger] life.disclosures@[q]).stamp.equals(stamp)
                },
            None => forall|i: int|
                k <= i < life.disclosures@.len() ==> !(
                #[trigger] life.disclosures@[i]).stamp.equals(stamp),
        },
    decreases life.disclosures@.len() - k,
{
    if k < life.disclosures@.len() && !life.disclosures@[k].stamp.equals(stamp) {
        lemma_measure_from(life, stamp, k + 1);
    }
}

/// A check over folds is an estimate over as many folds as there are trainings;
/// a holdout is trained once and estimated on its validation rows.
pub proof fn law_a_plan_names_its_own_estimate(plan: SplitPlan)
    ensures
        plan is Holdout ==> plan.source() == EvalSource::Validation && plan.fold_count() == 1,
        plan is KFold ==> plan.source() == (EvalSource::Cv { k: plan.fold_count() })
            && plan.fold_count() == plan->k,
{
}

/// A run may be measured exactly if no measurement was made on its data and it
/// is the run that was checked last. Of the reasons against it, the first that
/// holds is given: that this run was measured, that another one was on the same
/// data, that it was not checked.
pub proof fn law_the_first_reason_against_a_measurement_is_given(life: Lifecycle, stamp: RunStamp)
    ensures
        ({
            let own = exists|i: int|
                0 <= i < life.disclosures@.len() && (
                #[trigger] life.disclosures@[i]).stamp.equals(stamp);
            let other = exists|i: int|
                0 <= i < life.disclosures@.len() && (
                #[trigger] life.disclosures@[i]).stamp.dataset.0@ == stamp.dataset.0@;
            let checked = life.last_check matches Some(run) && run.stamp.equals(stamp);
            life.verdict(stamp) == if own {
                Err::<(), FinalizeRefusal>(FinalizeRefusal::AlreadyFinalized)
            } else if other {
                Err(FinalizeRefusal::TestSpent)
            } else if !checked {
                Err(FinalizeRefusal::NotChecked)
            } else {
                Ok(())
            }
        }),
{
}

} // verus!

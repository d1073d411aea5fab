//! The forms of single runs: a training with its data source, a learning
//! curve, a text model and a table conversion.

use crate::config::{ModelConfig, NumericConfig, LN_EPS};
use crate::data::NumericDataset;
use crate::gui::forms::{
    agree, as_nats, csv_whole, fresh_train_form, parse_csv_usize, said, TrainForm, MIN_GAIN, PLATEAU_MIN,
    TARGET_R2, THOUSANDTH,
};
use crate::lifecycle::TrainConfig;
use crate::schema::ModelSchema;
use crate::single::Single;
use crate::sweep::SweepChoice;
use crate::text::{decimal, decimal_text, is_empty, joined, owned, texts};
use vstd::prelude::*;
use vstd::string::StringExecFns;

verus! {

/// Where the data of a training come from.
#[derive(Clone, Copy, Debug, PartialEq, Eq, Structural)]
pub enum SourceKind {
    Blackbox,
    /// A file that brings its own schema.
    Tnum,
    /// A table whose columns were marked up.
    Table,
}

/// A marked-up table: its data and schema, not only its path.
#[derive(Debug)]
pub struct PreparedTable {
    pub name: String,
    pub path: String,
    pub has_header: bool,
    pub data: NumericDataset,
    pub schema: ModelSchema,
}

#[derive(Debug)]
pub struct SourceForm {
    pub kind: SourceKind,
    pub blackbox: String,
    pub file_path: String,
    pub prepared: Option<PreparedTable>,
}

/// A data source that can be trained on. Of a marked-up table it is the
/// table of the form.
#[derive(Debug)]
pub enum DataSource {
    Blackbox(String),
    File(String),
    Prepared,
}

pub enum SourceView {
    Blackbox(Seq<char>),
    File(Seq<char>),
    Prepared,
}

impl View for DataSource {
    type V = SourceView;

    open spec fn view(&self) -> SourceView {
        match *self {
            DataSource::Blackbox(name) => SourceView::Blackbox(name@),
            DataSource::File(path) => SourceView::File(path@),
            DataSource::Prepared => SourceView::Prepared,
        }
    }
}

impl Default for SourceForm {
    fn default() -> (form: SourceForm)
        ensures
            form.kind == SourceKind::Blackbox,
            form.blackbox@ == "sum"@,
            form.file_path@.len() == 0,
            form.prepared is None,
    {
        proof {
            reveal_strlit("");
        }
        SourceForm {
            kind: SourceKind::Blackbox,
            blackbox: owned("sum"),
            file_path: owned(""),
            prepared: None,
        }
    }
}

impl SourceForm {
    /// The source that the form names; a file needs a path, and a table
    /// needs its mark-up.
    pub open spec fn source_or(self) -> Result<SourceView, Seq<char>> {
        match self.kind {
            SourceKind::Blackbox => Ok(SourceView::Blackbox(self.blackbox@)),
            SourceKind::Tnum => if self.file_path@.len() == 0 {
                Err("укажите .tnum файл"@)
            } else {
                Ok(SourceView::File(self.file_path@))
            },
            SourceKind::Table => if self.prepared is Some {
                Ok(SourceView::Prepared)
            } else {
                Err("откройте таблицу и подтвердите разметку"@)
            },
        }
    }

    pub fn source(&self) -> (out: Result<DataSource, String>)
        ensures
            agree(out, self.source_or(), |s: DataSource| s@),
    {
        match self.kind {
            SourceKind::Blackbox => Ok(DataSource::Blackbox(owned(self.blackbox.as_str()))),
            SourceKind::Tnum => if is_empty(self.file_path.as_str()) {
                Err(owned("укажите .tnum файл"))
            } else {
                Ok(DataSource::File(owned(self.file_path.as_str())))
            },
            SourceKind::Table => match &self.prepared {
                Some(_) => Ok(DataSource::Prepared),
                None => Err(owned("откройте таблицу и подтвердите разметку")),
            },
        }
    }
}

/// A source, a model and a training; the source is complained about first.
pub open spec fn training_or(
    source: Result<SourceView, Seq<char>>,
    built: Result<(NumericConfig, TrainConfig), Seq<char>>,
) -> Result<(SourceView, NumericConfig, TrainConfig), Seq<char>> {
    match source {
        Err(e) => Err(e),
        Ok(s) => match built {
            Err(e) => Err(e),
            Ok(b) => Ok((s, b.0, b.1)),
        },
    }
}

pub fn build_training(
    source: &SourceForm,
    form: &TrainForm,
    numeric: Option<String>,
    train: Option<String>,
) -> (out: Result<(DataSource, NumericConfig, TrainConfig), String>)
    ensures
        agree(
            out,
            training_or(source.source_or(), form.built(form.epochs, said(numeric), said(train))),
            |b: (DataSource, NumericConfig, TrainConfig)| (b.0@, b.1, b.2),
        ),
{
    let from: DataSource = source.source()?;
    let (config, tcfg): (NumericConfig, TrainConfig) = form.build(numeric, train)?;
    Ok((from, config, tcfg))
}

/// A learning curve over the number of epochs.
#[derive(Debug)]
pub struct EpochSweepForm {
    pub file_path: String,
    pub epochs: String,
    pub target_r2: Single,
    pub min_gain: Single,
    pub plateau_min: Single,
    pub model: TrainForm,
}

impl Default for EpochSweepForm {
    fn default() -> (form: EpochSweepForm)
        ensures
            form.file_path@.len() == 0,
            form.epochs@ == "1,2,5,10,20,40"@,
            form.target_r2 == (Single { bits: TARGET_R2 }),
            form.min_gain == (Single { bits: MIN_GAIN }),
            form.plateau_min == (Single { bits: PLATEAU_MIN }),
            form.model == fresh_train_form(),
    {
        proof {
            reveal_strlit("");
        }
        EpochSweepForm {
            file_path: owned(""),
            epochs: owned("1,2,5,10,20,40"),
            target_r2: Single { bits: TARGET_R2 },
            min_gain: Single { bits: MIN_GAIN },
            plateau_min: Single { bits: PLATEAU_MIN },
            model: TrainForm::default(),
        }
    }
}

#[derive(Debug)]
pub struct EpochSweepRequest {
    pub path: String,
    pub nc: NumericConfig,
    pub base_tcfg: TrainConfig,
    pub milestones: Vec<usize>,
    pub target_r2: Single,
    pub min_gain: Single,
    pub plateau_min: Single,
}

pub struct RequestView {
    pub path: Seq<char>,
    pub nc: NumericConfig,
    pub base_tcfg: TrainConfig,
    pub milestones: Seq<nat>,
    pub target_r2: Single,
    pub min_gain: Single,
    pub plateau_min: Single,
}

impl View for EpochSweepRequest {
    type V = RequestView;

    open spec fn view(&self) -> RequestView {
        RequestView {
            path: self.path@,
            nc: self.nc,
            base_tcfg: self.base_tcfg,
            milestones: as_nats(self.milestones@),
            target_r2: self.target_r2,
            min_gain: self.min_gain,
            plateau_min: self.plateau_min,
        }
    }
}

/// The largest of the first `n` numbers.
pub open spec fn largest_of(list: Seq<nat>, n: int) -> nat
    decreases n,
{
    if n <= 0 {
        0
    } else {
        let head = largest_of(list, n - 1);
        if list[n - 1] > head {
            list[n - 1]
        } else {
            head
        }
    }
}

impl EpochSweepForm {
    /// The points of the curve: whole numbers above zero.
    pub open spec fn milestones_or(self) -> Result<Seq<nat>, Seq<char>> {
        match csv_whole(self.epochs@, "epochs"@, usize::MAX as nat) {
            Err(e) => Err(e),
            Ok(list) => if list.contains(0nat) {
                Err("epochs: список должен быть непустым и > 0"@)
            } else {
                Ok(list)
            },
        }
    }

    /// What is wrong with the numbers of the stopping rule.
    pub open spec fn rule_fault(self) -> Option<Seq<char>> {
        if !self.target_r2.finite() {
            Some("target-r2 должен быть конечным"@)
        } else if !self.min_gain.finite() || self.min_gain.less(Single { bits: 0 }) {
            Some("min-r2-gain должен быть конечным и >= 0"@)
        } else if !self.plateau_min.finite() {
            Some("plateau-min-r2 должен быть конечным"@)
        } else {
            None
        }
    }

    /// What the form asks for. The training is as long as its last point.
    pub open spec fn built(self, numeric: Option<Seq<char>>, train: Option<Seq<char>>) -> Result<
        RequestView,
        Seq<char>,
    > {
        if self.file_path@.len() == 0 {
            Err("выберите .tnum файл"@)
        } else {
            match self.milestones_or() {
                Err(e) => Err(e),
                Ok(list) => match self.rule_fault() {
                    Some(e) => Err(e),
                    None => match self.model.built(
                        largest_of(list, list.len() as int) as usize,
                        numeric,
                        train,
                    ) {
                        Err(e) => Err(e),
                        Ok(b) => Ok(
                            RequestView {
                                path: self.file_path@,
                                nc: b.0,
                                base_tcfg: b.1,
                                milestones: list,
                                target_r2: self.target_r2,
                                min_gain: self.min_gain,
                                plateau_min: self.plateau_min,
                            },
                        ),
                    },
                },
            }
        }
    }

    fn milestones(&self) -> (out: Result<Vec<usize>, String>)
        ensures
            agree(out, self.milestones_or(), |l: Vec<usize>| as_nats(l@)),
    {
        let list: Vec<usize> = parse_csv_usize(self.epochs.as_str(), "epochs")?;
        let mut i: usize = 0;
        while i < list.len()
            invariant
                i <= list.len(),
                csv_whole(self.epochs@, "epochs"@, usize::MAX as nat) == Ok::<Seq<nat>, Seq<char>>(
                    as_nats(list@),
                ),
                forall|k: int| 0 <= k < i ==> #[trigger] list@[k] != 0,
            decreases list.len() - i,
        {
            if list[i] == 0 {
                assert(as_nats(list@)[i as int] == 0);
                assert(as_nats(list@).contains(0nat));
                return Err(owned("epochs: список должен быть непустым и > 0"));
            }
            i += 1;
        }
        assert(!as_nats(list@).contains(0nat)) by {
            if as_nats(list@).contains(0nat) {
                let k = choose|k: int| 0 <= k < as_nats(list@).len() && as_nats(list@)[k] == 0;
                assert(list@[k] == 0);
            }
        }
        Ok(list)
    }

    fn rule(&self) -> (fault: Option<String>)
        ensures
            said(fault) == self.rule_fault(),
    {
        if !self.target_r2.is_finite() {
            return Some(owned("target-r2 должен быть конечным"));
        }
        if !self.min_gain.is_finite() || self.min_gain.is_less(Single { bits: 0 }) {
            return Some(owned("min-r2-gain должен быть конечным и >= 0"));
        }
        if !self.plateau_min.is_finite() {
            return Some(owned("plateau-min-r2 должен быть конечным"));
        }
        None
    }

    /// The request of the form, given what is wrong with its model and its
    /// training.
    pub fn build(&self, numeric: Option<String>, train: Option<String>) -> (out: Result<
        EpochSweepRequest,
        String,
    >)
        ensures
            agree(
                out,
                self.built(said(numeric), said(train)),
                |r: EpochSweepRequest| r@,
            ),
    {
        if is_empty(self.file_path.as_str()) {
            return Err(owned("выберите .tnum файл"));
        }
        let milestones: Vec<usize> = self.milestones()?;
        if let Some(e) = self.rule() {
            return Err(e);
        }
        let mut last: usize = 0;
        let mut i: usize = 0;
        while i < milestones.len()
            invariant
                i <= milestones.len(),
                last == largest_of(as_nats(milestones@), i as int),
            decreases milestones.len() - i,
        {
            assert(as_nats(milestones@)[i as int] == milestones@[i as int]);
            if milestones[i] > last {
                last = milestones[i];
            }
            i += 1;
        }
        let mut model: TrainForm = self.model;
        model.epochs = last;
        assert(model.built(last, said(numeric), said(train)) == self.model.built(
            last,
            said(numeric),
            said(train),
        ));
        let (nc, base_tcfg): (NumericConfig, TrainConfig) = model.build(numeric, train)?;
        Ok(
            EpochSweepRequest {
                path: owned(self.file_path.as_str()),
                nc,
                base_tcfg,
                milestones,
                target_r2: self.target_r2,
                min_gain: self.min_gain,
                plateau_min: self.plateau_min,
            },
        )
    }

    /// The form with the configuration of a search result, and with points
    /// to look for the number of epochs at.
    pub fn take_choice(&mut self, file_path: &str, choice: &SweepChoice)
        ensures
            final(self).file_path@ == file_path@,
            final(self).epochs@ == "20,40,60,80,120"@,
            final(self).model == old(self).model.with_choice(*choice),
            final(self).target_r2 == old(self).target_r2,
            final(self).min_gain == old(self).min_gain,
            final(self).plateau_min == old(self).plateau_min,
    {
        self.file_path = owned(file_path);
        self.model.take_choice(choice);
        self.epochs = owned("20,40,60,80,120");
    }
}

/// A text model.
#[derive(Debug)]
pub struct TextForm {
    pub file_path: String,
    pub d_model: usize,
    pub heads: usize,
    pub layers: usize,
    pub d_ff: usize,
    pub steps: usize,
    pub batch: usize,
    pub ctx_len: usize,
    pub tgt_len: usize,
    pub lr: Single,
    pub seed: u64,
    pub seed_text: String,
    pub total_new: usize,
    pub temperature: Single,
    pub top_k: usize,
    pub gen_seed: u64,
}

#[derive(Clone, Copy, Debug, PartialEq, Eq, Structural)]
pub struct TextTrainConfig {
    pub steps: usize,
    pub batch_size: usize,
    pub ctx_len: usize,
    pub tgt_len: usize,
    pub lr: Single,
    pub seed: u64,
}

impl Default for TextForm {
    fn default() -> (form: TextForm)
        ensures
            form.file_path@.len() == 0,
            form.seed_text@.len() == 0,
            form.d_model == 64,
            form.heads == 4,
            form.layers == 2,
            form.d_ff == 128,
            form.steps == 500,
            form.batch == 32,
            form.ctx_len == 32,
            form.tgt_len == 32,
            form.lr == (Single { bits: THOUSANDTH }),
            form.seed == 0,
            form.total_new == 400,
            form.temperature == (Single { bits: PLATEAU_MIN }),
            form.top_k == 10,
            form.gen_seed == 42,
    {
        proof {
            reveal_strlit("");
        }
        TextForm {
            file_path: owned(""),
            d_model: 64,
            heads: 4,
            layers: 2,
            d_ff: 128,
            steps: 500,
            batch: 32,
            ctx_len: 32,
            tgt_len: 32,
            lr: Single { bits: THOUSANDTH },
            seed: 0,
            seed_text: owned(""),
            total_new: 400,
            temperature: Single { bits: PLATEAU_MIN },
            top_k: 10,
            gen_seed: 42,
        }
    }
}

/// The sizes of a text model fit together.
pub open spec fn model_fits(cfg: ModelConfig) -> bool {
    &&& cfg.d_model > 0
    &&& cfg.d_ff > 0
    &&& cfg.n_heads > 0
    &&& cfg.d_model % cfg.n_heads == 0
    &&& cfg.n_enc_layers > 0
    &&& cfg.n_dec_layers > 0
}

/// A text model can be trained like this.
pub open spec fn train_fits(cfg: TextTrainConfig) -> bool {
    &&& cfg.steps > 0
    &&& cfg.batch_size > 0
    &&& cfg.ctx_len > 0
    &&& cfg.tgt_len > 0
    &&& cfg.lr.finite()
    &&& (Single { bits: 0 }).less(cfg.lr)
}

impl TextForm {
    pub open spec fn model_config(self) -> ModelConfig {
        ModelConfig {
            d_model: self.d_model,
            n_heads: self.heads,
            n_enc_layers: self.layers,
            n_dec_layers: self.layers,
            d_ff: self.d_ff,
            ln_eps: Single { bits: LN_EPS },
        }
    }

    pub open spec fn train_config(self) -> TextTrainConfig {
        TextTrainConfig {
            steps: self.steps,
            batch_size: self.batch,
            ctx_len: self.ctx_len,
            tgt_len: self.tgt_len,
            lr: self.lr,
            seed: self.seed,
        }
    }

    pub open spec fn built(self) -> Result<(Seq<char>, ModelConfig, TextTrainConfig), Seq<char>> {
        if self.file_path@.len() == 0 {
            Err("выберите текстовый файл"@)
        } else if !model_fits(self.model_config()) {
            Err("некорректный text model config"@)
        } else if !train_fits(self.train_config()) {
            Err("некорректный text train config"@)
        } else {
            Ok((self.file_path@, self.model_config(), self.train_config()))
        }
    }

    pub fn build(&self) -> (out: Result<(String, ModelConfig, TextTrainConfig), String>)
        ensures
            agree(
                out,
                self.built(),
                |b: (String, ModelConfig, TextTrainConfig)| (b.0@, b.1, b.2),
            ),
    {
        if is_empty(self.file_path.as_str()) {
            return Err(owned("выберите текстовый файл"));
        }
        if self.d_model == 0 || self.d_ff == 0 || self.heads == 0 || self.d_model % self.heads != 0
            || self.layers == 0 {
            return Err(owned("некорректный text model config"));
        }
        if self.steps == 0 || self.batch == 0 || self.ctx_len == 0 || self.tgt_len == 0
            || !self.lr.is_finite() || !(Single { bits: 0 }).is_less(self.lr) {
            return Err(owned("некорректный text train config"));
        }
        Ok(
            (
                owned(self.file_path.as_str()),
                ModelConfig {
                    d_model: self.d_model,
                    n_heads: self.heads,
                    n_enc_layers: self.layers,
                    n_dec_layers: self.layers,
                    d_ff: self.d_ff,
                    ln_eps: Single { bits: LN_EPS },
                },
                TextTrainConfig {
                    steps: self.steps,
                    batch_size: self.batch,
                    ctx_len: self.ctx_len,
                    tgt_len: self.tgt_len,
                    lr: self.lr,
                    seed: self.seed,
                },
            ),
        )
    }
}

/// How the columns of a table are separated.
#[derive(Clone, Copy, Debug, PartialEq, Eq, Structural)]
pub enum Delimiter {
    Auto,
    Comma,
    Tab,
    Space,
}

impl Delimiter {
    /// The delimiter of a list, automatic for an unknown number.
    pub open spec fn numbered(n: usize) -> Delimiter {
        if n == 1 {
            Delimiter::Comma
        } else if n == 2 {
            Delimiter::Tab
        } else if n == 3 {
            Delimiter::Space
        } else {
            Delimiter::Auto
        }
    }

    pub fn from_number(n: usize) -> (delimiter: Delimiter)
        ensures
            delimiter == Delimiter::numbered(n),
    {
        match n {
            1 => Delimiter::Comma,
            2 => Delimiter::Tab,
            3 => Delimiter::Space,
            _ => Delimiter::Auto,
        }
    }

    /// The number of the delimiter in the list.
    pub fn number(&self) -> (n: usize)
        ensures
            n <= 3,
            Delimiter::numbered(n) == *self,
    {
        match *self {
            Delimiter::Auto => 0,
            Delimiter::Comma => 1,
            Delimiter::Tab => 2,
            Delimiter::Space => 3,
        }
    }
}

/// How a table becomes a file of numbers.
#[derive(Debug)]
pub struct PrepareSpec {
    pub n_inputs: usize,
    pub n_outputs: usize,
    pub delimiter: Delimiter,
    pub has_header: bool,
    /// The categorical inputs: column and number of codes.
    pub categorical: Vec<(usize, usize)>,
}

pub struct PrepareView {
    pub n_inputs: usize,
    pub n_outputs: usize,
    pub delimiter: Delimiter,
    pub has_header: bool,
    pub categorical: Seq<(usize, usize)>,
}

impl View for PrepareSpec {
    type V = PrepareView;

    open spec fn view(&self) -> PrepareView {
        PrepareView {
            n_inputs: self.n_inputs,
            n_outputs: self.n_outputs,
            delimiter: self.delimiter,
            has_header: self.has_header,
            categorical: self.categorical@,
        }
    }
}

/// A table conversion.
#[derive(Debug)]
pub struct PrepareForm {
    pub input_path: String,
    pub output_path: String,
    pub inputs: usize,
    pub outputs: usize,
    pub delimiter: usize,
    pub has_header: bool,
    pub categorical: String,
}

impl Default for PrepareForm {
    fn default() -> (form: PrepareForm)
        ensures
            form.input_path@.len() == 0,
            form.output_path@.len() == 0,
            form.inputs == 2,
            form.outputs == 1,
            form.delimiter == 0,
            !form.has_header,
            form.categorical@.len() == 0,
    {
        proof {
            reveal_strlit("");
        }
        PrepareForm {
            input_path: owned(""),
            output_path: owned(""),
            inputs: 2,
            outputs: 1,
            delimiter: 0,
            has_header: false,
            categorical: owned(""),
        }
    }
}

/// Columns and their numbers of codes as the form shows them.
pub open spec fn category_entry(entry: (usize, usize)) -> Seq<char> {
    decimal(entry.0 as nat) + ":"@ + decimal(entry.1 as nat)
}

pub open spec fn category_list(list: Seq<(usize, usize)>) -> Seq<char> {
    joined(list.map_values(|e: (usize, usize)| category_entry(e)), ","@)
}

fn show_categories(list: &Vec<(usize, usize)>) -> (text: String)
    ensures
        text@ == category_list(list@),
{
    let mut parts: Vec<String> = Vec::new();
    let mut i: usize = 0;
    while i < list.len()
        invariant
            i <= list.len(),
            texts(parts@) == list@.take(i as int).map_values(
                |e: (usize, usize)| category_entry(e),
            ),
        decreases list.len() - i,
    {
        let (column, codes): (usize, usize) = list[i];
        let mut part: String = decimal_text(column as u64);
        part.append(":");
        part.append(decimal_text(codes as u64).as_str());
        let ghost before = parts@;
        parts.push(part);
        i += 1;
        assert(texts(parts@) =~= texts(before).push(part@));
        assert(texts(parts@) =~= list@.take(i as int).map_values(
            |e: (usize, usize)| category_entry(e),
        ));
    }
    assert(list@.take(i as int) =~= list@);
    crate::text::join(&parts, ",")
}

impl PrepareForm {
    /// The conversion of the form, given what its list of categorical inputs
    /// was read as.
    pub open spec fn built(self, categorical: Result<Seq<(usize, usize)>, Seq<char>>) -> Result<
        (Seq<char>, Seq<char>, PrepareView),
        Seq<char>,
    > {
        if self.input_path@.len() == 0 {
            Err("выберите входную таблицу"@)
        } else if self.output_path@.len() == 0 {
            Err("укажите выходной .tnum"@)
        } else {
            match categorical {
                Err(e) => Err(e),
                Ok(list) => Ok(
                    (
                        self.input_path@,
                        self.output_path@,
                        PrepareView {
                            n_inputs: self.inputs,
                            n_outputs: self.outputs,
                            delimiter: Delimiter::numbered(self.delimiter),
                            has_header: self.has_header,
                            categorical: list,
                        },
                    ),
                ),
            }
        }
    }

    pub fn build(&self, categorical: Result<Vec<(usize, usize)>, String>) -> (out: Result<
        (String, String, PrepareSpec),
        String,
    >)
        ensures
            agree(
                out,
                self.built(
                    match categorical {
                        Ok(l) => Ok(l@),
                        Err(e) => Err(e@),
                    },
                ),
                |b: (String, String, PrepareSpec)| (b.0@, b.1@, b.2@),
            ),
    {
        if is_empty(self.input_path.as_str()) {
            return Err(owned("выберите входную таблицу"));
        }
        if is_empty(self.output_path.as_str()) {
            return Err(owned("укажите выходной .tnum"));
        }
        match categorical {
            Err(e) => Err(e),
            Ok(list) => Ok(
                (
                    owned(self.input_path.as_str()),
                    owned(self.output_path.as_str()),
                    PrepareSpec {
                        n_inputs: self.inputs,
                        n_outputs: self.outputs,
                        delimiter: Delimiter::from_number(self.delimiter),
                        has_header: self.has_header,
                        categorical: list,
                    },
                ),
            ),
        }
    }

    /// Fills the form with what was inferred from the table, and says so.
    /// Without a chosen table nothing happens; a failed inference is only
    /// reported.
    pub fn infer(&mut self, inferred: Result<PrepareSpec, String>) -> (status: Option<String>)
        ensures
            final(self).input_path@ == old(self).input_path@,
            final(self).output_path@ == old(self).output_path@,
            old(self).input_path@.len() == 0 ==> status is None && *final(self) == *old(self),
            old(self).input_path@.len() > 0 ==> match inferred {
                Ok(spec) => {
                    &&& final(self).inputs == spec.n_inputs
                    &&& final(self).outputs == spec.n_outputs
                    &&& Delimiter::numbered(final(self).delimiter) == spec.delimiter
                    &&& final(self).delimiter <= 3
                    &&& final(self).has_header == spec.has_header
                    &&& final(self).categorical@ == category_list(spec.categorical@)
                    &&& said(status) == Some(
                        "prepare auto: "@ + decimal(spec.n_inputs as nat) + " вход -> "@ + decimal(
                            spec.n_outputs as nat,
                        ) + " выход"@,
                    )
                },
                Err(e) => *final(self) == *old(self) && said(status) == Some(
                    "prepare auto не сработал: "@ + e@,
                ),
            },
    {
        if is_empty(self.input_path.as_str()) {
            return None;
        }
        match inferred {
            Ok(spec) => {
                self.inputs = spec.n_inputs;
                self.outputs = spec.n_outputs;
                self.delimiter = spec.delimiter.number();
                self.has_header = spec.has_header;
                self.categorical = show_categories(&spec.categorical);
                let mut status: String = owned("prepare auto: ");
                status.append(decimal_text(spec.n_inputs as u64).as_str());
                status.append(" вход -> ");
                status.append(decimal_text(spec.n_outputs as u64).as_str());
                status.append(" выход");
                Some(status)
            },
            Err(e) => {
                let mut status: String = owned("prepare auto не сработал: ");
                status.append(e.as_str());
                Some(status)
            },
        }
    }
}

proof fn lemma_largest(list: Seq<nat>, n: int)
    requires
        0 <= n <= list.len(),
    ensures
        forall|i: int| 0 <= i < n ==> #[trigger] list[i] <= largest_of(list, n),
        n > 0 ==> exists|i: int| 0 <= i < n && #[trigger] list[i] == largest_of(list, n),
    decreases n,
{
    if n > 0 {
        lemma_largest(list, n - 1);
        if n == 1 {
            assert(list[0] == largest_of(list, 1));
        } else if list[n - 1] > largest_of(list, n - 1) {
            assert(list[n - 1] == largest_of(list, n));
        } else {
            let i = choose|i: int|
                0 <= i < n - 1 && #[trigger] list[i] == largest_of(list, n - 1);
            assert(list[i] == largest_of(list, n));
        }
    }
}

/// A learning curve is asked for exactly if there is a file, its points are a
/// list of whole numbers above zero, the numbers of the stopping rule are
/// finite and the gain is not negative, and the model can be built. The
/// training lasts to the last of the points.
pub proof fn law_a_learning_curve_lasts_to_its_last_point(
    form: EpochSweepForm,
    numeric: Option<Seq<char>>,
    train: Option<Seq<char>>,
)
    ensures
        match form.built(numeric, train) {
            Ok(request) => {
                &&& form.file_path@.len() > 0 && request.path == form.file_path@
                &&& numeric is None && train is None
                &&& csv_whole(form.epochs@, "epochs"@, usize::MAX as nat) == Ok::<
                    Seq<nat>,
                    Seq<char>,
                >(request.milestones)
                &&& forall|i: int|
                    0 <= i < request.milestones.len() ==> #[trigger] request.milestones[i] > 0
                        && request.milestones[i] <= request.base_tcfg.epochs
                &&& exists|i: int|
                    0 <= i < request.milestones.len() && #[trigger] request.milestones[i]
                        == request.base_tcfg.epochs
                &&& form.target_r2.finite() && request.target_r2 == form.target_r2
                &&& form.min_gain.finite() && !form.min_gain.less(Single { bits: 0 })
                    && request.min_gain == form.min_gain
                &&& form.plateau_min.finite() && request.plateau_min == form.plateau_min
            },
            Err(_) => {
                ||| form.file_path@.len() == 0
                ||| csv_whole(form.epochs@, "epochs"@, usize::MAX as nat) is Err
                ||| (csv_whole(form.epochs@, "epochs"@, usize::MAX as nat) matches Ok(list)
                    && list.contains(0nat))
                ||| !form.target_r2.finite()
                ||| !form.min_gain.finite()
                ||| form.min_gain.less(Single { bits: 0 })
                ||| !form.plateau_min.finite()
                ||| numeric is Some
                ||| train is Some
                ||| form.model.schedule_or() is Err
            },
        },
{
    if let Ok(list) = csv_whole(form.epochs@, "epochs"@, usize::MAX as nat) {
        crate::gui::forms::law_lists_of_whole_numbers_are_read_in_order(
            form.epochs@,
            "epochs"@,
            usize::MAX as nat,
        );
        let parts = crate::gui::forms::csv_parts(form.epochs@);
        let n = list.len() as int;
        lemma_largest(list, n);
        let k = choose|i: int| 0 <= i < n && #[trigger] list[i] == largest_of(list, n);
        assert(crate::text::parsed(parts[k], usize::MAX as nat) == Some(list[k]));
        if form.built(numeric, train) is Ok {
            assert forall|i: int| 0 <= i < n implies #[trigger] list[i] > 0 by {
                if list[i] == 0 {
                    assert(list.contains(0nat));
                }
            }
        }
    }
}

/// A text training is built exactly if there is a file, each size is positive,
/// the heads divide the width, and the rate is a finite positive number.
pub proof fn law_sound_text_forms_are_built(form: TextForm)
    ensures
        form.built() is Ok <==> {
            &&& form.file_path@.len() > 0
            &&& form.d_model > 0 && form.d_ff > 0 && form.heads > 0 && form.layers > 0
            &&& form.d_model % form.heads == 0
            &&& form.steps > 0 && form.batch > 0 && form.ctx_len > 0 && form.tgt_len > 0
            &&& 0 < form.lr.bits < 0x7f80_0000
        },
        form.built() matches Ok((path, model, train)) ==> {
            &&& path == form.file_path@
            &&& model.d_model == form.d_model && model.n_heads == form.heads && model.d_ff
                == form.d_ff
            &&& model.n_enc_layers == form.layers && model.n_dec_layers == form.layers
            &&& train.steps == form.steps && train.batch_size == form.batch
            &&& train.ctx_len == form.ctx_len && train.tgt_len == form.tgt_len
            &&& train.lr == form.lr && train.seed == form.seed
        },
{
    crate::single::law_patterns_compare_as_numbers(Single { bits: 0 }, form.lr);
    crate::single::law_patterns_compare_as_numbers(form.lr, Single { bits: 0 });
}

/// The number of a delimiter in the list is the one that stands for it.
pub proof fn law_delimiters_differ(a: usize, b: usize)
    requires
        a <= 3,
        b <= 3,
        Delimiter::numbered(a) == Delimiter::numbered(b),
    ensures
        a == b,
{
}

/// A source is named exactly if what it needs is there: a file its path, a
/// table its mark-up, a built-in task nothing.
pub proof fn law_a_source_needs_its_data(form: SourceForm)
    ensures
        match form.source_or() {
            Ok(SourceView::Blackbox(name)) => form.kind == SourceKind::Blackbox && name
                == form.blackbox@,
            Ok(SourceView::File(path)) => form.kind == SourceKind::Tnum && path == form.file_path@
                && path.len() > 0,
            Ok(SourceView::Prepared) => form.kind == SourceKind::Table && form.prepared is Some,
            Err(_) => (form.kind == SourceKind::Tnum && form.file_path@.len() == 0) || (form.kind
                == SourceKind::Table && form.prepared is None),
        },
{
}

/// A training is built exactly if its source and its model are; the source is
/// complained about first.
pub proof fn law_a_training_needs_a_source_and_a_model(
    source: Result<SourceView, Seq<char>>,
    built: Result<(NumericConfig, TrainConfig), Seq<char>>,
)
    ensures
        match training_or(source, built) {
            Ok((s, config, train)) => source == Ok::<SourceView, Seq<char>>(s) && built == Ok::<
                (NumericConfig, TrainConfig),
                Seq<char>,
            >((config, train)),
            Err(e) => match source {
                Err(m) => e == m,
                Ok(_) => built == Err::<(NumericConfig, TrainConfig), Seq<char>>(e),
            },
        },
{
}

/// A conversion is built exactly if both paths are there and the list of
/// categories was read, and each of its settings stands in its place.
pub proof fn law_a_conversion_needs_both_paths(
    form: PrepareForm,
    categorical: Result<Seq<(usize, usize)>, Seq<char>>,
)
    ensures
        match form.built(categorical) {
            Ok((input, output, spec)) => {
                &&& input == form.input_path@ && input.len() > 0
                &&& output == form.output_path@ && output.len() > 0
                &&& spec.n_inputs == form.inputs && spec.n_outputs == form.outputs
                &&& spec.has_header == form.has_header
                &&& spec.delimiter == Delimiter::numbered(form.delimiter)
                &&& categorical == Ok::<Seq<(usize, usize)>, Seq<char>>(spec.categorical)
            },
            Err(_) => form.input_path@.len() == 0 || form.output_path@.len() == 0
                || categorical is Err,
        },
{
}

} // verus!

//! The forms of the window: what they start with, what they build, and what
//! they refuse.

use crate::config::{KanConfig, ModelConfig, ModelKind, NumericConfig, LN_EPS};
use crate::encoders::{ValueEncoderConfig, ValueEncoderKind};
use crate::lifecycle::{LrSchedule, TrainConfig};
use crate::single::{Single, ONE};
use crate::sweep::{AxesView, SweepAxes, SweepChoice, SweepObjective};
use crate::text::{is_empty, owned, parse_u64, parse_usize, parsed, pieces, same, split, texts, trim, trimmed};
use vstd::prelude::*;
use vstd::string::StringExecFns;

verus! {

/// Single-precision values of the forms' starting numbers: 0.001, 0.1, 8, 2,
/// 0.95, 0.02 and 0.8.
pub const THOUSANDTH: u32 = 0x3a83_126f;

pub const TENTH: u32 = 0x3dcc_cccd;

pub const EIGHT: u32 = 0x4100_0000;

pub const TWO: u32 = 0x4000_0000;

pub const TARGET_R2: u32 = 0x3f73_3333;

pub const MIN_GAIN: u32 = 0x3ca3_d70a;

pub const PLATEAU_MIN: u32 = 0x3f4c_cccd;

/// A result and a result of texts say the same.
pub open spec fn agree<T, V>(out: Result<T, String>, want: Result<V, Seq<char>>, as_view: spec_fn(T) -> V) -> bool {
    match (out, want) {
        (Ok(v), Ok(w)) => as_view(v) == w,
        (Err(e), Err(w)) => e@ == w,
        _ => false,
    }
}

/// A model and its training.
#[derive(Clone, Copy, Debug, PartialEq, Eq, Structural)]
pub struct TrainForm {
    pub kind: ModelKind,
    pub d_model: usize,
    pub heads: usize,
    pub layers: usize,
    pub d_ff: usize,
    /// 0 for linear, 1 for an MLP, anything else for Fourier.
    pub venc: usize,
    pub fourier_bands: usize,
    pub fourier_scale: Single,
    pub mlp_width: usize,
    pub mlp_layers: usize,
    pub kan_width: usize,
    pub kan_layers: usize,
    pub kan_grid: usize,
    pub lr: Single,
    pub batch: usize,
    pub epochs: usize,
    pub seed: u64,
    pub warmup_cosine: bool,
    pub warmup: Single,
    pub min_lr_ratio: Single,
}

pub open spec fn fresh_train_form() -> TrainForm {
    TrainForm {
        kind: ModelKind::Transformer,
        d_model: 32,
        heads: 4,
        layers: 2,
        d_ff: 64,
        venc: 0,
        fourier_bands: 6,
        fourier_scale: Single { bits: EIGHT },
        mlp_width: 128,
        mlp_layers: 3,
        kan_width: 16,
        kan_layers: 2,
        kan_grid: 8,
        lr: Single { bits: THOUSANDTH },
        batch: 64,
        epochs: 40,
        seed: 0,
        warmup_cosine: false,
        warmup: Single { bits: TENTH },
        min_lr_ratio: Single { bits: TENTH },
    }
}

impl Default for TrainForm {
    fn default() -> (form: TrainForm)
        ensures
            form == fresh_train_form(),
    {
        TrainForm {
            kind: ModelKind::Transformer,
            d_model: 32,
            heads: 4,
            layers: 2,
            d_ff: 64,
            venc: 0,
            fourier_bands: 6,
            fourier_scale: Single { bits: EIGHT },
            mlp_width: 128,
            mlp_layers: 3,
            kan_width: 16,
            kan_layers: 2,
            kan_grid: 8,
            lr: Single { bits: THOUSANDTH },
            batch: 64,
            epochs: 40,
            seed: 0,
            warmup_cosine: false,
            warmup: Single { bits: TENTH },
            min_lr_ratio: Single { bits: TENTH },
        }
    }
}

/// The encoder that a number in a list stands for.
pub open spec fn encoder_numbered(n: usize) -> ValueEncoderKind {
    if n == 0 {
        ValueEncoderKind::Linear
    } else if n == 1 {
        ValueEncoderKind::Mlp
    } else {
        ValueEncoderKind::Fourier
    }
}

/// The number of an encoder in a list.
pub open spec fn number_of(kind: ValueEncoderKind) -> usize {
    match kind {
        ValueEncoderKind::Linear => 0,
        ValueEncoderKind::Mlp => 1,
        ValueEncoderKind::Fourier => 2,
    }
}

impl TrainForm {
    /// The model of the form. Only a transformer chooses how values are
    /// encoded.
    pub open spec fn config(self) -> NumericConfig {
        NumericConfig {
            kind: self.kind,
            transformer: ModelConfig {
                d_model: self.d_model,
                n_heads: self.heads,
                n_enc_layers: self.layers,
                n_dec_layers: self.layers,
                d_ff: self.d_ff,
                ln_eps: Single { bits: LN_EPS },
            },
            value: ValueEncoderConfig {
                kind: if self.kind == ModelKind::Transformer {
                    encoder_numbered(self.venc)
                } else {
                    ValueEncoderKind::Linear
                },
                fourier_bands: self.fourier_bands,
                fourier_scale: self.fourier_scale,
            },
            mlp_width: self.mlp_width,
            mlp_layers: self.mlp_layers,
            kan: KanConfig { width: self.kan_width, layers: self.kan_layers, grid: self.kan_grid },
        }
    }

    pub fn numeric_config(&self) -> (config: NumericConfig)
        ensures
            config == self.config(),
    {
        let kind: ValueEncoderKind = match self.kind {
            ModelKind::Transformer => match self.venc {
                0 => ValueEncoderKind::Linear,
                1 => ValueEncoderKind::Mlp,
                _ => ValueEncoderKind::Fourier,
            },
            _ => ValueEncoderKind::Linear,
        };
        NumericConfig {
            kind: self.kind,
            transformer: ModelConfig {
                d_model: self.d_model,
                n_heads: self.heads,
                n_enc_layers: self.layers,
                n_dec_layers: self.layers,
                d_ff: self.d_ff,
                ln_eps: Single { bits: LN_EPS },
            },
            value: ValueEncoderConfig {
                kind,
                fourier_bands: self.fourier_bands,
                fourier_scale: self.fourier_scale,
            },
            mlp_width: self.mlp_width,
            mlp_layers: self.mlp_layers,
            kan: KanConfig { width: self.kan_width, layers: self.kan_layers, grid: self.kan_grid },
        }
    }

    /// The schedule of the form: a warm-up takes a share of the training
    /// below one, and the rate falls to a share of at most one.
    pub open spec fn schedule_or(self) -> Result<LrSchedule, Seq<char>> {
        let zero = Single { bits: 0 };
        let one = Single { bits: ONE };
        if !self.warmup_cosine {
            Ok(LrSchedule::Constant)
        } else if !(zero.at_most(self.warmup) && self.warmup.less(one)) {
            Err("warmup должен быть в [0, 1)"@)
        } else if !(zero.at_most(self.min_lr_ratio) && self.min_lr_ratio.at_most(one)) {
            Err("min-lr-ratio должен быть в [0, 1]"@)
        } else {
            Ok(
                LrSchedule::WarmupCosine {
                    warmup_frac: self.warmup,
                    min_lr_ratio: self.min_lr_ratio,
                },
            )
        }
    }

    fn schedule(&self) -> (out: Result<LrSchedule, String>)
        ensures
            agree(out, self.schedule_or(), |s: LrSchedule| s),
    {
        if !self.warmup_cosine {
            return Ok(LrSchedule::Constant);
        }
        let zero: Single = Single { bits: 0 };
        let one: Single = Single { bits: ONE };
        if !(zero.is_at_most(self.warmup) && self.warmup.is_less(one)) {
            return Err(owned("warmup должен быть в [0, 1)"));
        }
        if !(zero.is_at_most(self.min_lr_ratio) && self.min_lr_ratio.is_at_most(one)) {
            return Err(owned("min-lr-ratio должен быть в [0, 1]"));
        }
        Ok(
            LrSchedule::WarmupCosine {
                warmup_frac: self.warmup,
                min_lr_ratio: self.min_lr_ratio,
            },
        )
    }

    /// What the form builds for a training of `epochs` epochs, given what is
    /// wrong with its model (`numeric`) and with its training (`train`). The
    /// model is complained about first, then the schedule, then the training.
    pub open spec fn built(
        self,
        epochs: usize,
        numeric: Option<Seq<char>>,
        train: Option<Seq<char>>,
    ) -> Result<(NumericConfig, TrainConfig), Seq<char>> {
        match numeric {
            Some(e) => Err(e),
            None => match self.schedule_or() {
                Err(e) => Err(e),
                Ok(schedule) => match train {
                    Some(e) => Err(e),
                    None => Ok(
                        (
                            self.config(),
                            TrainConfig {
                                epochs,
                                batch_size: self.batch,
                                lr: self.lr,
                                seed: self.seed,
                                schedule,
                            },
                        ),
                    ),
                },
            },
        }
    }

    fn build_for(&self, epochs: usize, numeric: Option<String>, train: Option<String>) -> (out:
        Result<(NumericConfig, TrainConfig), String>)
        ensures
            agree(
                out,
                self.built(epochs, said(numeric), said(train)),
                |b: (NumericConfig, TrainConfig)| b,
            ),
    {
        if let Some(e) = numeric {
            return Err(e);
        }
        let schedule: LrSchedule = match self.schedule() {
            Ok(s) => s,
            Err(e) => {
                return Err(e);
            },
        };
        if let Some(e) = train {
            return Err(e);
        }
        Ok(
            (
                self.numeric_config(),
                TrainConfig {
                    epochs,
                    batch_size: self.batch,
                    lr: self.lr,
                    seed: self.seed,
                    schedule,
                },
            ),
        )
    }

    /// The model and training of the form, given what is wrong with them.
    pub fn build(&self, numeric: Option<String>, train: Option<String>) -> (out: Result<
        (NumericConfig, TrainConfig),
        String,
    >)
        ensures
            agree(
                out,
                self.built(self.epochs, said(numeric), said(train)),
                |b: (NumericConfig, TrainConfig)| b,
            ),
    {
        self.build_for(self.epochs, numeric, train)
    }

    /// The form with the configuration of a search result. A search ranks by
    /// short trainings; the form gets the full number of epochs.
    pub open spec fn with_choice(self, choice: SweepChoice) -> TrainForm {
        TrainForm {
            kind: choice.kind,
            d_model: choice.d_model,
            heads: choice.heads,
            layers: choice.layers,
            d_ff: choice.d_ff,
            venc: number_of(choice.value.kind),
            fourier_bands: choice.value.fourier_bands,
            fourier_scale: choice.value.fourier_scale,
            mlp_width: choice.mlp_width,
            mlp_layers: choice.mlp_layers,
            kan_width: choice.kan.width,
            kan_layers: choice.kan.layers,
            kan_grid: choice.kan.grid,
            lr: choice.lr,
            batch: choice.batch_size,
            epochs: choice.final_epochs,
            seed: choice.seed,
            warmup_cosine: choice.schedule is WarmupCosine,
            warmup: match choice.schedule {
                LrSchedule::Constant => self.warmup,
                LrSchedule::WarmupCosine { warmup_frac, .. } => warmup_frac,
            },
            min_lr_ratio: match choice.schedule {
                LrSchedule::Constant => self.min_lr_ratio,
                LrSchedule::WarmupCosine { min_lr_ratio, .. } => min_lr_ratio,
            },
        }
    }

    pub fn take_choice(&mut self, choice: &SweepChoice)
        ensures
            *final(self) == old(self).with_choice(*choice),
    {
        self.kind = choice.kind;
        self.kan_width = choice.kan.width;
        self.kan_layers = choice.kan.layers;
        self.kan_grid = choice.kan.grid;
        self.d_model = choice.d_model;
        self.heads = choice.heads;
        self.layers = choice.layers;
        self.d_ff = choice.d_ff;
        self.venc = match choice.value.kind {
            ValueEncoderKind::Linear => 0,
            ValueEncoderKind::Mlp => 1,
            ValueEncoderKind::Fourier => 2,
        };
        self.fourier_bands = choice.value.fourier_bands;
        self.fourier_scale = choice.value.fourier_scale;
        self.mlp_width = choice.mlp_width;
        self.mlp_layers = choice.mlp_layers;
        self.lr = choice.lr;
        self.batch = choice.batch_size;
        self.epochs = choice.final_epochs;
        self.seed = choice.seed;
        match choice.schedule {
            LrSchedule::Constant => {
                self.warmup_cosine = false;
            },
            LrSchedule::WarmupCosine { warmup_frac, min_lr_ratio } => {
                self.warmup_cosine = true;
                self.warmup = warmup_frac;
                self.min_lr_ratio = min_lr_ratio;
            },
        }
    }
}

/// The text of an optional message.
pub open spec fn said(message: Option<String>) -> Option<Seq<char>> {
    match message {
        Some(m) => Some(m@),
        None => None,
    }
}

/// A form that took a search result builds the configuration that the result
/// stands for: the same model, and the training with the full number of
/// epochs.
pub proof fn law_form_builds_the_chosen_configuration(form: TrainForm, choice: SweepChoice)
    requires
        choice.kind != ModelKind::Transformer ==> choice.value.kind == ValueEncoderKind::Linear,
    ensures
        ({
            let config = form.with_choice(choice).config();
            &&& config.kind == choice.kind
            &&& config.value == choice.value
            &&& config.kan == choice.kan
            &&& config.mlp_width == choice.mlp_width && config.mlp_layers == choice.mlp_layers
            &&& config.transformer.d_model == choice.d_model && config.transformer.n_heads
                == choice.heads && config.transformer.d_ff == choice.d_ff
            &&& config.transformer.n_enc_layers == choice.layers && config.transformer.n_dec_layers
                == choice.layers
        }),
        form.with_choice(choice).built(form.with_choice(choice).epochs, None, None) matches Ok(b)
            ==> b.1.epochs == choice.final_epochs && b.1.lr == choice.lr && b.1.batch_size
            == choice.batch_size && b.1.seed == choice.seed && b.1.schedule == choice.schedule,
{
}

/// The parts of a list that say something, with the white space around them
/// dropped, among its first `n` pieces.
pub open spec fn filled_parts(list: Seq<Seq<char>>, n: int) -> Seq<Seq<char>>
    decreases n,
{
    if n <= 0 {
        Seq::empty()
    } else {
        let head = filled_parts(list, n - 1);
        let part = trimmed(list[n - 1]);
        if part.len() > 0 {
            head.push(part)
        } else {
            head
        }
    }
}

/// The parts of a comma-separated list.
pub open spec fn csv_parts(raw: Seq<char>) -> Seq<Seq<char>> {
    filled_parts(pieces(raw, ','), pieces(raw, ',').len() as int)
}

pub open spec fn empty_list(name: Seq<char>) -> Seq<char> {
    name + ": пустой список"@
}

pub open spec fn csv_or(raw: Seq<char>, name: Seq<char>) -> Result<Seq<Seq<char>>, Seq<char>> {
    if csv_parts(raw).len() == 0 {
        Err(empty_list(name))
    } else {
        Ok(csv_parts(raw))
    }
}

/// Splits a comma-separated list; a list without parts is refused.
pub fn split_csv(raw: &str, name: &str) -> (out: Result<Vec<String>, String>)
    ensures
        agree(out, csv_or(raw@, name@), |parts: Vec<String>| texts(parts@)),
{
    let list: Vec<String> = split(raw, ',');
    let mut parts: Vec<String> = Vec::new();
    let mut i: usize = 0;
    while i < list.len()
        invariant
            i <= list.len(),
            texts(list@) == pieces(raw@, ','),
            texts(parts@) == filled_parts(texts(list@), i as int),
        decreases list.len() - i,
    {
        let part: String = trim(list[i].as_str());
        assert(texts(list@)[i as int] == list@[i as int]@);
        if !is_empty(part.as_str()) {
            let ghost before = parts@;
            parts.push(part);
            assert(texts(parts@) =~= texts(before).push(part@));
        }
        i += 1;
    }
    assert(texts(list@).len() == list@.len());
    assert(texts(parts@).len() == parts@.len());
    if parts.len() == 0 {
        let mut e: String = owned(name);
        e.append(": пустой список");
        return Err(e);
    }
    Ok(parts)
}

/// What is said of a part that is not what the list holds.
pub open spec fn bad_part(name: Seq<char>, part: Seq<char>, wanted: Seq<char>) -> Seq<char> {
    name + ": '"@ + part + "' "@ + wanted
}

fn complain(name: &str, part: &str, wanted: &str) -> (text: String)
    ensures
        text@ == bad_part(name@, part@, wanted@),
{
    let mut text: String = owned(name);
    text.append(": '");
    text.append(part);
    text.append("' ");
    text.append(wanted);
    text
}

/// The whole numbers among the first `n` parts, or the first part that is
/// not one of at most `max`.
pub open spec fn whole_parts(parts: Seq<Seq<char>>, name: Seq<char>, max: nat, n: int) -> Result<
    Seq<nat>,
    Seq<char>,
>
    decreases n,
{
    if n <= 0 {
        Ok(Seq::empty())
    } else {
        match whole_parts(parts, name, max, n - 1) {
            Err(e) => Err(e),
            Ok(head) => match parsed(parts[n - 1], max) {
                Some(v) => Ok(head.push(v)),
                None => Err(bad_part(name, parts[n - 1], "не целое число"@)),
            },
        }
    }
}

/// A comma-separated list of whole numbers.
pub open spec fn csv_whole(raw: Seq<char>, name: Seq<char>, max: nat) -> Result<
    Seq<nat>,
    Seq<char>,
> {
    match csv_or(raw, name) {
        Err(e) => Err(e),
        Ok(parts) => whole_parts(parts, name, max, parts.len() as int),
    }
}

proof fn lemma_whole_stops(
    parts: Seq<Seq<char>>,
    name: Seq<char>,
    max: nat,
    i: int,
    n: int,
)
    requires
        0 <= i <= n,
        whole_parts(parts, name, max, i) is Err,
    ensures
        whole_parts(parts, name, max, n) == whole_parts(parts, name, max, i),
    decreases n - i,
{
    if i < n {
        lemma_whole_stops(parts, name, max, i, n - 1);
    }
}

pub open spec fn as_nats(list: Seq<usize>) -> Seq<nat> {
    list.map_values(|v: usize| v as nat)
}

pub open spec fn long_nats(list: Seq<u64>) -> Seq<nat> {
    list.map_values(|v: u64| v as nat)
}

pub fn parse_csv_usize(raw: &str, name: &str) -> (out: Result<Vec<usize>, String>)
    ensures
        agree(out, csv_whole(raw@, name@, usize::MAX as nat), |l: Vec<usize>| as_nats(l@)),
        out matches Ok(list) ==> list@.len() > 0,
{
    let parts: Vec<String> = split_csv(raw, name)?;
    let ghost want = texts(parts@);
    let mut list: Vec<usize> = Vec::new();
    assert(as_nats(list@) =~= Seq::<nat>::empty());
    let mut i: usize = 0;
    while i < parts.len()
        invariant
            i <= parts.len(),
            want == texts(parts@),
            want == csv_parts(raw@),
            want.len() > 0,
            csv_or(raw@, name@) == Ok::<Seq<Seq<char>>, Seq<char>>(want),
            list.len() == i,
            whole_parts(want, name@, usize::MAX as nat, i as int) == Ok::<Seq<nat>, Seq<char>>(
                as_nats(list@),
            ),
        decreases parts.len() - i,
    {
        assert(want[i as int] == parts@[i as int]@);
        match parse_usize(parts[i].as_str()) {
            Some(v) => {
                let ghost before = list@;
                list.push(v);
                assert(as_nats(list@) =~= as_nats(before).push(v as nat));
            },
            None => {
                proof {
                    lemma_whole_stops(
                        want,
                        name@,
                        usize::MAX as nat,
                        i + 1,
                        want.len() as int,
                    );
                }
                return Err(complain(name, parts[i].as_str(), "не целое число"));
            },
        }
        i += 1;
    }
    Ok(list)
}

pub fn parse_csv_u64(raw: &str, name: &str) -> (out: Result<Vec<u64>, String>)
    ensures
        agree(out, csv_whole(raw@, name@, u64::MAX as nat), |l: Vec<u64>| long_nats(l@)),
        out matches Ok(list) ==> list@.len() > 0,
{
    let parts: Vec<String> = split_csv(raw, name)?;
    let ghost want = texts(parts@);
    let mut list: Vec<u64> = Vec::new();
    assert(long_nats(list@) =~= Seq::<nat>::empty());
    let mut i: usize = 0;
    while i < parts.len()
        invariant
            i <= parts.len(),
            want == texts(parts@),
            want == csv_parts(raw@),
            want.len() > 0,
            csv_or(raw@, name@) == Ok::<Seq<Seq<char>>, Seq<char>>(want),
            list.len() == i,
            whole_parts(want, name@, u64::MAX as nat, i as int) == Ok::<Seq<nat>, Seq<char>>(
                long_nats(list@),
            ),
        decreases parts.len() - i,
    {
        assert(want[i as int] == parts@[i as int]@);
        match parse_u64(parts[i].as_str()) {
            Some(v) => {
                let ghost before = list@;
                list.push(v);
                assert(long_nats(list@) =~= long_nats(before).push(v as nat));
            },
            None => {
                proof {
                    lemma_whole_stops(want, name@, u64::MAX as nat, i + 1, want.len() as int);
                }
                return Err(complain(name, parts[i].as_str(), "не целое число"));
            },
        }
        i += 1;
    }
    Ok(list)
}

/// The numbers that the first `n` parts were read as, or the first part that
/// was not read as one.
pub open spec fn read_parts(
    parts: Seq<Seq<char>>,
    read: Seq<Option<Single>>,
    name: Seq<char>,
    n: int,
) -> Result<Seq<Single>, Seq<char>>
    decreases n,
{
    if n <= 0 {
        Ok(Seq::empty())
    } else {
        match read_parts(parts, read, name, n - 1) {
            Err(e) => Err(e),
            Ok(head) => match read[n - 1] {
                Some(v) => Ok(head.push(v)),
                None => Err(bad_part(name, parts[n - 1], "не число"@)),
            },
        }
    }
}

proof fn lemma_read_stops(
    parts: Seq<Seq<char>>,
    read: Seq<Option<Single>>,
    name: Seq<char>,
    i: int,
    n: int,
)
    requires
        0 <= i <= n,
        read_parts(parts, read, name, i) is Err,
    ensures
        read_parts(parts, read, name, n) == read_parts(parts, read, name, i),
    decreases n - i,
{
    if i < n {
        lemma_read_stops(parts, read, name, i, n - 1);
    }
}

/// A comma-separated list of numbers, given what its parts were read as.
pub open spec fn csv_read(raw: Seq<char>, name: Seq<char>, read: Seq<Option<Single>>) -> Result<
    Seq<Single>,
    Seq<char>,
> {
    match csv_or(raw, name) {
        Err(e) => Err(e),
        Ok(parts) => read_parts(parts, read, name, parts.len() as int),
    }
}

pub fn parse_csv_single(raw: &str, name: &str, read: &Vec<Option<Single>>) -> (out: Result<
    Vec<Single>,
    String,
>)
    requires
        read@.len() == csv_parts(raw@).len(),
    ensures
        agree(out, csv_read(raw@, name@, read@), |l: Vec<Single>| l@),
{
    let parts: Vec<String> = split_csv(raw, name)?;
    let ghost want = texts(parts@);
    assert(want.len() == parts@.len());
    let mut list: Vec<Single> = Vec::new();
    let mut i: usize = 0;
    while i < parts.len()
        invariant
            i <= parts.len(),
            want == texts(parts@),
            want == csv_parts(raw@),
            read@.len() == want.len(),
            want.len() == parts@.len(),
            want.len() > 0,
            csv_or(raw@, name@) == Ok::<Seq<Seq<char>>, Seq<char>>(want),
            read_parts(want, read@, name@, i as int) == Ok::<Seq<Single>, Seq<char>>(list@),
        decreases parts.len() - i,
    {
        assert(want[i as int] == parts@[i as int]@);
        match read[i] {
            Some(v) => {
                list.push(v);
            },
            None => {
                proof {
                    lemma_read_stops(want, read@, name@, i + 1, want.len() as int);
                }
                return Err(complain(name, parts[i].as_str(), "не число"));
            },
        }
        i += 1;
    }
    Ok(list)
}

pub open spec fn encoder_named(part: Seq<char>) -> Option<ValueEncoderKind> {
    if part == "linear"@ {
        Some(ValueEncoderKind::Linear)
    } else if part == "mlp"@ {
        Some(ValueEncoderKind::Mlp)
    } else if part == "fourier"@ {
        Some(ValueEncoderKind::Fourier)
    } else {
        None
    }
}

pub open spec fn encoder_parts(parts: Seq<Seq<char>>, n: int) -> Result<
    Seq<ValueEncoderKind>,
    Seq<char>,
>
    decreases n,
{
    if n <= 0 {
        Ok(Seq::empty())
    } else {
        match encoder_parts(parts, n - 1) {
            Err(e) => Err(e),
            Ok(head) => match encoder_named(parts[n - 1]) {
                Some(v) => Ok(head.push(v)),
                None => Err(
                    bad_part("value-encoders"@, parts[n - 1], "не linear|mlp|fourier"@),
                ),
            },
        }
    }
}

proof fn lemma_encoders_stop(parts: Seq<Seq<char>>, i: int, n: int)
    requires
        0 <= i <= n,
        encoder_parts(parts, i) is Err,
    ensures
        encoder_parts(parts, n) == encoder_parts(parts, i),
    decreases n - i,
{
    if i < n {
        lemma_encoders_stop(parts, i, n - 1);
    }
}

/// A comma-separated list of encoder names.
pub open spec fn csv_encoders(raw: Seq<char>) -> Result<Seq<ValueEncoderKind>, Seq<char>> {
    match csv_or(raw, "value-encoders"@) {
        Err(e) => Err(e),
        Ok(parts) => encoder_parts(parts, parts.len() as int),
    }
}

pub fn parse_value_encoders(raw: &str) -> (out: Result<Vec<ValueEncoderKind>, String>)
    ensures
        agree(out, csv_encoders(raw@), |l: Vec<ValueEncoderKind>| l@),
{
    let parts: Vec<String> = split_csv(raw, "value-encoders")?;
    let ghost want = texts(parts@);
    let mut list: Vec<ValueEncoderKind> = Vec::new();
    let mut i: usize = 0;
    while i < parts.len()
        invariant
            i <= parts.len(),
            want == texts(parts@),
            want == csv_parts(raw@),
            want.len() > 0,
            csv_or(raw@, "value-encoders"@) == Ok::<Seq<Seq<char>>, Seq<char>>(want),
            encoder_parts(want, i as int) == Ok::<Seq<ValueEncoderKind>, Seq<char>>(list@),
        decreases parts.len() - i,
    {
        assert(want[i as int] == parts@[i as int]@);
        let part: &str = parts[i].as_str();
        if same(part, "linear") {
            list.push(ValueEncoderKind::Linear);
        } else if same(part, "mlp") {
            list.push(ValueEncoderKind::Mlp);
        } else if same(part, "fourier") {
            list.push(ValueEncoderKind::Fourier);
        } else {
            proof {
                lemma_encoders_stop(want, i + 1, want.len() as int);
            }
            return Err(complain("value-encoders", part, "не linear|mlp|fourier"));
        }
        i += 1;
    }
    Ok(list)
}

pub open spec fn warmup_cosine() -> LrSchedule {
    LrSchedule::WarmupCosine {
        warmup_frac: Single { bits: TENTH },
        min_lr_ratio: Single { bits: TENTH },
    }
}

pub open spec fn schedule_named(part: Seq<char>) -> Option<LrSchedule> {
    if part == "constant"@ {
        Some(LrSchedule::Constant)
    } else if part == "warmup-cosine"@ {
        Some(warmup_cosine())
    } else {
        None
    }
}

pub open spec fn schedule_parts(parts: Seq<Seq<char>>, n: int) -> Result<
    Seq<LrSchedule>,
    Seq<char>,
>
    decreases n,
{
    if n <= 0 {
        Ok(Seq::empty())
    } else {
        match schedule_parts(parts, n - 1) {
            Err(e) => Err(e),
            Ok(head) => match schedule_named(parts[n - 1]) {
                Some(v) => Ok(head.push(v)),
                None => Err(
                    bad_part("schedulers"@, parts[n - 1], "не constant|warmup-cosine"@),
                ),
            },
        }
    }
}

proof fn lemma_schedules_stop(parts: Seq<Seq<char>>, i: int, n: int)
    requires
        0 <= i <= n,
        schedule_parts(parts, i) is Err,
    ensures
        schedule_parts(parts, n) == schedule_parts(parts, i),
    decreases n - i,
{
    if i < n {
        lemma_schedules_stop(parts, i, n - 1);
    }
}

/// A comma-separated list of schedule names.
pub open spec fn csv_schedules(raw: Seq<char>) -> Result<Seq<LrSchedule>, Seq<char>> {
    match csv_or(raw, "schedulers"@) {
        Err(e) => Err(e),
        Ok(parts) => schedule_parts(parts, parts.len() as int),
    }
}

fn cosine() -> (schedule: LrSchedule)
    ensures
        schedule == warmup_cosine(),
{
    LrSchedule::WarmupCosine {
        warmup_frac: Single { bits: TENTH },
        min_lr_ratio: Single { bits: TENTH },
    }
}

pub fn parse_schedules(raw: &str) -> (out: Result<Vec<LrSchedule>, String>)
    ensures
        agree(out, csv_schedules(raw@), |l: Vec<LrSchedule>| l@),
{
    let parts: Vec<String> = split_csv(raw, "schedulers")?;
    let ghost want = texts(parts@);
    let mut list: Vec<LrSchedule> = Vec::new();
    let mut i: usize = 0;
    while i < parts.len()
        invariant
            i <= parts.len(),
            want == texts(parts@),
            want == csv_parts(raw@),
            want.len() > 0,
            csv_or(raw@, "schedulers"@) == Ok::<Seq<Seq<char>>, Seq<char>>(want),
            schedule_parts(want, i as int) == Ok::<Seq<LrSchedule>, Seq<char>>(list@),
        decreases parts.len() - i,
    {
        assert(want[i as int] == parts@[i as int]@);
        let part: &str = parts[i].as_str();
        if same(part, "constant") {
            list.push(LrSchedule::Constant);
        } else if same(part, "warmup-cosine") {
            list.push(cosine());
        } else {
            proof {
                lemma_schedules_stop(want, i + 1, want.len() as int);
            }
            return Err(complain("schedulers", part, "не constant|warmup-cosine"));
        }
        i += 1;
    }
    Ok(list)
}

/// Which kinds of models a search goes through.
#[derive(Clone, Copy, Debug, PartialEq, Eq, Structural)]
pub struct SearchForm {
    pub objective: usize,
    pub include_mlp: bool,
    pub include_transformer: bool,
    pub include_kan: bool,
}

pub open spec fn fresh_search_form() -> SearchForm {
    SearchForm { objective: 0, include_mlp: true, include_transformer: true, include_kan: true }
}

impl Default for SearchForm {
    fn default() -> (form: SearchForm)
        ensures
            form == fresh_search_form(),
    {
        SearchForm {
            objective: 0,
            include_mlp: true,
            include_transformer: true,
            include_kan: true,
        }
    }
}

impl SearchForm {
    pub fn objective(&self) -> (objective: SweepObjective)
        ensures
            objective == SweepObjective::numbered(self.objective),
    {
        SweepObjective::from_number(self.objective)
    }

    /// The chosen kinds, in a fixed order.
    pub open spec fn kinds(self) -> Seq<ModelKind> {
        let none = Seq::<ModelKind>::empty();
        let first = if self.include_transformer {
            none.push(ModelKind::Transformer)
        } else {
            none
        };
        let second = if self.include_mlp {
            first.push(ModelKind::Mlp)
        } else {
            first
        };
        if self.include_kan {
            second.push(ModelKind::Kan)
        } else {
            second
        }
    }

    pub open spec fn kinds_or(self) -> Result<Seq<ModelKind>, Seq<char>> {
        if self.kinds().len() == 0 {
            Err("выберите хотя бы одну архитектуру (transformer/mlp/kan)"@)
        } else {
            Ok(self.kinds())
        }
    }

    /// The chosen kinds; a search needs at least one.
    pub fn model_kinds(&self) -> (out: Result<Vec<ModelKind>, String>)
        ensures
            agree(out, self.kinds_or(), |l: Vec<ModelKind>| l@),
    {
        let mut kinds: Vec<ModelKind> = Vec::new();
        if self.include_transformer {
            kinds.push(ModelKind::Transformer);
        }
        if self.include_mlp {
            kinds.push(ModelKind::Mlp);
        }
        if self.include_kan {
            kinds.push(ModelKind::Kan);
        }
        assert(kinds@ == self.kinds());
        if kinds.len() == 0 {
            return Err(owned("выберите хотя бы одну архитектуру (transformer/mlp/kan)"));
        }
        Ok(kinds)
    }
}

/// What was built, unless the rules for grids find a fault in it.
pub open spec fn unless_faulty<T>(built: Result<T, Seq<char>>, fault: Option<Seq<char>>) -> Result<
    T,
    Seq<char>,
> {
    match (built, fault) {
        (Ok(_), Some(e)) => Err(e),
        _ => built,
    }
}

impl SearchForm {
    pub open spec fn axes_or(self, budget: SearchBudget, fault: Option<Seq<char>>) -> Result<
        AxesView,
        Seq<char>,
    > {
        match self.kinds_or() {
            Err(e) => Err(e),
            Ok(kinds) => unless_faulty(Ok(budget_axes(budget, kinds)), fault),
        }
    }

    /// The ready-made grid of a budget for the chosen kinds. `axes_fault` is
    /// what the rules for grids find wrong with it.
    pub fn axes(&self, budget: SearchBudget, axes_fault: Option<String>) -> (out: Result<
        SweepAxes,
        String,
    >)
        ensures
            agree(out, self.axes_or(budget, said(axes_fault)), |a: SweepAxes| a@),
    {
        let kinds: Vec<ModelKind> = self.model_kinds()?;
        match axes_fault {
            Some(e) => Err(e),
            None => Ok(axes_for(budget, kinds)),
        }
    }
}

/// How large a ready-made grid is.
#[derive(Clone, Copy, Debug, PartialEq, Eq, Structural)]
pub enum SearchBudget {
    Quick,
    Balanced,
    Thorough,
}

impl SearchBudget {
    /// The budget of a list, the smallest one for an unknown number.
    pub open spec fn numbered(n: usize) -> SearchBudget {
        if n == 1 {
            SearchBudget::Balanced
        } else if n == 2 {
            SearchBudget::Thorough
        } else {
            SearchBudget::Quick
        }
    }

    pub fn from_number(n: usize) -> (budget: SearchBudget)
        ensures
            budget == SearchBudget::numbered(n),
    {
        match n {
            1 => SearchBudget::Balanced,
            2 => SearchBudget::Thorough,
            _ => SearchBudget::Quick,
        }
    }
}

/// The ready-made grid of a budget.
pub open spec fn budget_axes(budget: SearchBudget, kinds: Seq<ModelKind>) -> AxesView {
    let common = AxesView {
        model_kinds: kinds,
        seeds: seq![0u64],
        d_models: seq![64usize],
        layers: seq![2usize],
        d_ffs: seq![128usize],
        lrs: seq![Single { bits: THOUSANDTH }],
        value_encoders: seq![ValueEncoderKind::Linear, ValueEncoderKind::Mlp],
        fourier_scales: seq![Single { bits: TWO }],
        fourier_bands: 6,
        mlp_widths: seq![128usize, 256usize],
        mlp_layers: seq![3usize],
        kan_widths: seq![16usize],
        kan_layers: seq![2usize],
        kan_grids: seq![8usize, 16usize],
        schedules: seq![warmup_cosine()],
        epochs: 25,
        final_epochs: 60,
        batch_size: 64,
    };
    match budget {
        SearchBudget::Quick => common,
        SearchBudget::Balanced => AxesView {
            d_models: seq![64usize, 96usize],
            layers: seq![2usize, 3usize],
            d_ffs: seq![128usize, 384usize],
            mlp_layers: seq![3usize, 4usize],
            kan_widths: seq![16usize, 32usize],
            epochs: 40,
            final_epochs: 80,
            ..common
        },
        SearchBudget::Thorough => AxesView {
            seeds: seq![0u64, 1u64],
            d_models: seq![64usize, 96usize, 128usize],
            layers: seq![2usize, 3usize],
            d_ffs: seq![128usize, 256usize, 384usize],
            mlp_widths: seq![128usize, 256usize, 512usize],
            mlp_layers: seq![3usize, 4usize],
            kan_widths: seq![16usize, 32usize],
            kan_layers: seq![2usize, 3usize],
            kan_grids: seq![8usize, 16usize, 32usize],
            epochs: 40,
            final_epochs: 80,
            ..common
        },
    }
}

fn sizes(list: &[usize]) -> (out: Vec<usize>)
    ensures
        out@ == list@,
{
    vstd::slice::slice_to_vec(list)
}

/// The ready-made grid of a budget for these kinds of models.
pub fn axes_for(budget: SearchBudget, kinds: Vec<ModelKind>) -> (axes: SweepAxes)
    ensures
        axes@ == budget_axes(budget, kinds@),
{
    let mut seeds: Vec<u64> = Vec::new();
    seeds.push(0);
    let mut lrs: Vec<Single> = Vec::new();
    lrs.push(Single { bits: THOUSANDTH });
    let mut encoders: Vec<ValueEncoderKind> = Vec::new();
    encoders.push(ValueEncoderKind::Linear);
    encoders.push(ValueEncoderKind::Mlp);
    let mut scales: Vec<Single> = Vec::new();
    scales.push(Single { bits: TWO });
    let mut schedules: Vec<LrSchedule> = Vec::new();
    schedules.push(cosine());
    let mut axes: SweepAxes = SweepAxes {
        model_kinds: kinds,
        seeds,
        d_models: sizes(&[64]),
        layers: sizes(&[2]),
        d_ffs: sizes(&[128]),
        lrs,
        value_encoders: encoders,
        fourier_scales: scales,
        fourier_bands: 6,
        mlp_widths: sizes(&[128, 256]),
        mlp_layers: sizes(&[3]),
        kan_widths: sizes(&[16]),
        kan_layers: sizes(&[2]),
        kan_grids: sizes(&[8, 16]),
        schedules,
        epochs: 25,
        final_epochs: 60,
        batch_size: 64,
    };
    match budget {
        SearchBudget::Quick => {},
        SearchBudget::Balanced => {
            axes.d_models = sizes(&[64, 96]);
            axes.layers = sizes(&[2, 3]);
            axes.d_ffs = sizes(&[128, 384]);
            axes.mlp_layers = sizes(&[3, 4]);
            axes.kan_widths = sizes(&[16, 32]);
            axes.epochs = 40;
            axes.final_epochs = 80;
        },
        SearchBudget::Thorough => {
            axes.seeds.push(1);
            axes.d_models = sizes(&[64, 96, 128]);
            axes.layers = sizes(&[2, 3]);
            axes.d_ffs = sizes(&[128, 256, 384]);
            axes.mlp_widths = sizes(&[128, 256, 512]);
            axes.mlp_layers = sizes(&[3, 4]);
            axes.kan_widths = sizes(&[16, 32]);
            axes.kan_layers = sizes(&[2, 3]);
            axes.kan_grids = sizes(&[8, 16, 32]);
            axes.epochs = 40;
            axes.final_epochs = 80;
        },
    }
    proof {
        let want = budget_axes(budget, kinds@);
        assert(axes@.seeds =~= want.seeds);
        assert(axes@.d_models =~= want.d_models);
        assert(axes@.layers =~= want.layers);
        assert(axes@.d_ffs =~= want.d_ffs);
        assert(axes@.lrs =~= want.lrs);
        assert(axes@.value_encoders =~= want.value_encoders);
        assert(axes@.fourier_scales =~= want.fourier_scales);
        assert(axes@.mlp_widths =~= want.mlp_widths);
        assert(axes@.mlp_layers =~= want.mlp_layers);
        assert(axes@.kan_widths =~= want.kan_widths);
        assert(axes@.kan_layers =~= want.kan_layers);
        assert(axes@.kan_grids =~= want.kan_grids);
        assert(axes@.schedules =~= want.schedules);
    }
    axes
}

/// A search over a file with a ready-made grid.
#[derive(Debug)]
pub struct OptimizeForm {
    pub file_path: String,
    /// 1 for the balanced grid, 2 for the deep one, anything else for the
    /// quick one.
    pub preset: usize,
    pub search: SearchForm,
}

impl Default for OptimizeForm {
    fn default() -> (form: OptimizeForm)
        ensures
            form.file_path@.len() == 0,
            form.preset == 0,
            form.search == fresh_search_form(),
    {
        proof {
            reveal_strlit("");
        }
        OptimizeForm { file_path: owned(""), preset: 0, search: SearchForm::default() }
    }
}

impl OptimizeForm {
    pub open spec fn axes_or(self, fault: Option<Seq<char>>) -> Result<AxesView, Seq<char>> {
        self.search.axes_or(SearchBudget::numbered(self.preset), fault)
    }

    /// The grid of the form. `axes_fault` is what the rules for grids find wrong
    /// with it.
    pub fn axes(&self, axes_fault: Option<String>) -> (out: Result<SweepAxes, String>)
        ensures
            agree(out, self.axes_or(said(axes_fault)), |a: SweepAxes| a@),
    {
        self.search.axes(SearchBudget::from_number(self.preset), axes_fault)
    }

    pub open spec fn built(self, fault: Option<Seq<char>>) -> Result<
        (Seq<char>, AxesView, SweepObjective),
        Seq<char>,
    > {
        if self.file_path@.len() == 0 {
            Err("выберите .tnum файл"@)
        } else {
            match self.axes_or(fault) {
                Err(e) => Err(e),
                Ok(axes) => Ok(
                    (self.file_path@, axes, SweepObjective::numbered(self.search.objective)),
                ),
            }
        }
    }

    pub fn build(&self, axes_fault: Option<String>) -> (out: Result<
        (String, SweepAxes, SweepObjective),
        String,
    >)
        ensures
            agree(
                out,
                self.built(said(axes_fault)),
                |b: (String, SweepAxes, SweepObjective)| (b.0@, b.1@, b.2),
            ),
    {
        if is_empty(self.file_path.as_str()) {
            return Err(owned("выберите .tnum файл"));
        }
        let axes: SweepAxes = self.axes(axes_fault)?;
        Ok((owned(self.file_path.as_str()), axes, self.search.objective()))
    }
}

/// A grid written by hand.
#[derive(Debug)]
pub struct CustomSearchForm {
    pub seeds: String,
    pub d_models: String,
    pub layers: String,
    pub d_ffs: String,
    pub lrs: String,
    pub value_encoders: String,
    pub fourier_scales: String,
    pub fourier_bands: usize,
    pub schedulers: String,
    pub epochs: usize,
    pub batch: usize,
}

impl Default for CustomSearchForm {
    fn default() -> (form: CustomSearchForm)
        ensures
            form.seeds@ == "0"@,
            form.d_models@ == "32"@,
            form.layers@ == "2"@,
            form.d_ffs@ == "64"@,
            form.lrs@ == "0.001"@,
            form.value_encoders@ == "linear"@,
            form.fourier_scales@ == "2"@,
            form.fourier_bands == 6,
            form.schedulers@ == "constant"@,
            form.epochs == 30,
            form.batch == 64,
    {
        CustomSearchForm {
            seeds: owned("0"),
            d_models: owned("32"),
            layers: owned("2"),
            d_ffs: owned("64"),
            lrs: owned("0.001"),
            value_encoders: owned("linear"),
            fourier_scales: owned("2"),
            fourier_bands: 6,
            schedulers: owned("constant"),
            epochs: 30,
            batch: 64,
        }
    }
}

/// The parts of a grid that are written as lists.
pub struct GridLists {
    pub seeds: Seq<nat>,
    pub d_models: Seq<nat>,
    pub layers: Seq<nat>,
    pub d_ffs: Seq<nat>,
    pub lrs: Seq<Single>,
    pub value_encoders: Seq<ValueEncoderKind>,
    pub fourier_scales: Seq<Single>,
    pub schedules: Seq<LrSchedule>,
}

impl CustomSearchForm {
    /// The lists of the form; the first one that cannot be read is
    /// complained about, in the order in which they stand.
    pub open spec fn lists(
        self,
        lrs: Seq<Option<Single>>,
        scales: Seq<Option<Single>>,
    ) -> Result<GridLists, Seq<char>> {
        match csv_whole(self.seeds@, "seeds"@, u64::MAX as nat) {
            Err(e) => Err(e),
            Ok(seeds) => match csv_whole(self.d_models@, "d-models"@, usize::MAX as nat) {
                Err(e) => Err(e),
                Ok(d_models) => match csv_whole(
                    self.layers@,
                    "layers-list"@,
                    usize::MAX as nat,
                ) {
                    Err(e) => Err(e),
                    Ok(layers) => match csv_whole(self.d_ffs@, "d-ffs"@, usize::MAX as nat) {
                        Err(e) => Err(e),
                        Ok(d_ffs) => match csv_read(self.lrs@, "lrs"@, lrs) {
                            Err(e) => Err(e),
                            Ok(rates) => match csv_encoders(self.value_encoders@) {
                                Err(e) => Err(e),
                                Ok(value_encoders) => match csv_read(
                                    self.fourier_scales@,
                                    "fourier-scales"@,
                                    scales,
                                ) {
                                    Err(e) => Err(e),
                                    Ok(fourier_scales) => match csv_schedules(self.schedulers@) {
                                        Err(e) => Err(e),
                                        Ok(schedules) => Ok(
                                            GridLists {
                                                seeds,
                                                d_models,
                                                layers,
                                                d_ffs,
                                                lrs: rates,
                                                value_encoders,
                                                fourier_scales,
                                                schedules,
                                            },
                                        ),
                                    },
                                },
                            },
                        },
                    },
                },
            },
        }
    }

    /// What the axes are when the form's lists are `lists`. The other models
    /// of a hand-written grid have one size each.
    pub open spec fn shows(self, axes: AxesView, kinds: Seq<ModelKind>, lists: GridLists) -> bool {
        &&& axes.model_kinds == kinds
        &&& long_nats(axes.seeds) == lists.seeds
        &&& as_nats(axes.d_models) == lists.d_models
        &&& as_nats(axes.layers) == lists.layers
        &&& as_nats(axes.d_ffs) == lists.d_ffs
        &&& axes.lrs == lists.lrs
        &&& axes.value_encoders == lists.value_encoders
        &&& axes.fourier_scales == lists.fourier_scales
        &&& axes.fourier_bands == self.fourier_bands
        &&& axes.mlp_widths == seq![128usize]
        &&& axes.mlp_layers == seq![3usize]
        &&& axes.kan_widths == seq![16usize]
        &&& axes.kan_layers == seq![2usize]
        &&& axes.kan_grids == seq![8usize]
        &&& axes.schedules == lists.schedules
        &&& axes.epochs == self.epochs
        &&& axes.final_epochs == self.epochs
        &&& axes.batch_size == self.batch
    }

    /// The grid of the form for these kinds of models, given what the parts
    /// of its two lists of numbers were read as. `axes_fault` is what the rules
    /// for grids find wrong with it.
    pub fn build(
        &self,
        model_kinds: Vec<ModelKind>,
        lrs: &Vec<Option<Single>>,
        scales: &Vec<Option<Single>>,
        axes_fault: Option<String>,
    ) -> (out: Result<SweepAxes, String>)
        requires
            lrs@.len() == csv_parts(self.lrs@).len(),
            scales@.len() == csv_parts(self.fourier_scales@).len(),
        ensures
            match (out, unless_faulty(self.lists(lrs@, scales@), said(axes_fault))) {
                (Ok(axes), Ok(lists)) => self.shows(axes@, model_kinds@, lists),
                (Err(e), Err(w)) => e@ == w,
                _ => false,
            },
    {
        let seeds: Vec<u64> = parse_csv_u64(self.seeds.as_str(), "seeds")?;
        let d_models: Vec<usize> = parse_csv_usize(self.d_models.as_str(), "d-models")?;
        let layers: Vec<usize> = parse_csv_usize(self.layers.as_str(), "layers-list")?;
        let d_ffs: Vec<usize> = parse_csv_usize(self.d_ffs.as_str(), "d-ffs")?;
        let rates: Vec<Single> = parse_csv_single(self.lrs.as_str(), "lrs", lrs)?;
        let value_encoders: Vec<ValueEncoderKind> = parse_value_encoders(
            self.value_encoders.as_str(),
        )?;
        let fourier_scales: Vec<Single> = parse_csv_single(
            self.fourier_scales.as_str(),
            "fourier-scales",
            scales,
        )?;
        let schedules: Vec<LrSchedule> = parse_schedules(self.schedulers.as_str())?;
        let axes: SweepAxes = SweepAxes {
            model_kinds,
            seeds,
            d_models,
            layers,
            d_ffs,
            lrs: rates,
            value_encoders,
            fourier_scales,
            fourier_bands: self.fourier_bands,
            mlp_widths: sizes(&[128]),
            mlp_layers: sizes(&[3]),
            kan_widths: sizes(&[16]),
            kan_layers: sizes(&[2]),
            kan_grids: sizes(&[8]),
            schedules,
            epochs: self.epochs,
            final_epochs: self.epochs,
            batch_size: self.batch,
        };
        assert(axes@.mlp_widths =~= seq![128usize]);
        assert(axes@.mlp_layers =~= seq![3usize]);
        assert(axes@.kan_widths =~= seq![16usize]);
        assert(axes@.kan_layers =~= seq![2usize]);
        assert(axes@.kan_grids =~= seq![8usize]);
        match axes_fault {
            Some(e) => Err(e),
            None => Ok(axes),
        }
    }
}

/// A grid of transformers on a built-in task.
#[derive(Debug)]
pub struct SweepForm {
    pub blackbox: String,
    pub grid: CustomSearchForm,
}

impl Default for SweepForm {
    fn default() -> (form: SweepForm)
        ensures
            form.blackbox@ == "sum"@,
            form.grid.epochs == 30,
            form.grid.batch == 64,
            form.grid.fourier_bands == 6,
            form.grid.seeds@ == "0"@,
            form.grid.d_models@ == "32"@,
            form.grid.layers@ == "2"@,
            form.grid.d_ffs@ == "64"@,
            form.grid.lrs@ == "0.001"@,
            form.grid.value_encoders@ == "linear"@,
            form.grid.fourier_scales@ == "2"@,
            form.grid.schedulers@ == "constant"@,
    {
        SweepForm { blackbox: owned("sum"), grid: CustomSearchForm::default() }
    }
}

impl SweepForm {
    pub fn build(
        &self,
        lrs: &Vec<Option<Single>>,
        scales: &Vec<Option<Single>>,
        axes_fault: Option<String>,
    ) -> (out: Result<(String, SweepAxes), String>)
        requires
            lrs@.len() == csv_parts(self.grid.lrs@).len(),
            scales@.len() == csv_parts(self.grid.fourier_scales@).len(),
        ensures
            match (out, unless_faulty(self.grid.lists(lrs@, scales@), said(axes_fault))) {
                (Ok(b), Ok(lists)) => b.0@ == self.blackbox@ && self.grid.shows(
                    b.1@,
                    seq![ModelKind::Transformer],
                    lists,
                ),
                (Err(e), Err(w)) => e@ == w,
                _ => false,
            },
    {
        let mut kinds: Vec<ModelKind> = Vec::new();
        kinds.push(ModelKind::Transformer);
        assert(kinds@ =~= seq![ModelKind::Transformer]);
        let axes: SweepAxes = self.grid.build(kinds, lrs, scales, axes_fault)?;
        Ok((owned(self.blackbox.as_str()), axes))
    }
}

/// A schedule of the form warms up over a share in [0, 1) and falls to a share
/// in [0, 1]; any two such shares are accepted, and without the schedule the
/// rate is constant whatever the two shares are.
pub proof fn law_schedules_stay_in_their_range(form: TrainForm)
    ensures
        ({
            let zero = Single { bits: 0 };
            let one = Single { bits: 0x3f80_0000 };
            match form.schedule_or() {
                Ok(LrSchedule::Constant) => !form.warmup_cosine,
                Ok(LrSchedule::WarmupCosine { warmup_frac, min_lr_ratio }) => {
                    &&& form.warmup_cosine
                    &&& warmup_frac == form.warmup
                    &&& min_lr_ratio == form.min_lr_ratio
                    &&& zero.at_most(warmup_frac) && warmup_frac.less(one)
                    &&& zero.at_most(min_lr_ratio) && min_lr_ratio.at_most(one)
                },
                Err(_) => form.warmup_cosine && !(zero.at_most(form.warmup) && form.warmup.less(one)
                    && zero.at_most(form.min_lr_ratio) && form.min_lr_ratio.at_most(one)),
            }
        }),
{
}

/// A form is built exactly if neither its model nor its training nor its
/// schedule is at fault, and then each of its settings stands in its place.
/// Only a transformer encodes its values otherwise than linearly.
pub proof fn law_a_form_builds_what_it_says(
    form: TrainForm,
    epochs: usize,
    numeric: Option<Seq<char>>,
    train: Option<Seq<char>>,
)
    ensures
        match form.built(epochs, numeric, train) {
            Ok((config, training)) => {
                &&& numeric is None && train is None
                &&& form.schedule_or() == Ok::<LrSchedule, Seq<char>>(training.schedule)
                &&& training.epochs == epochs
                &&& training.batch_size == form.batch
                &&& training.lr == form.lr
                &&& training.seed == form.seed
                &&& config.kind == form.kind
                &&& config.transformer.d_model == form.d_model
                &&& config.transformer.n_heads == form.heads
                &&& config.transformer.n_enc_layers == form.layers
                &&& config.transformer.n_dec_layers == form.layers
                &&& config.transformer.d_ff == form.d_ff
                &&& config.mlp_width == form.mlp_width && config.mlp_layers == form.mlp_layers
                &&& config.kan.width == form.kan_width && config.kan.layers == form.kan_layers
                    && config.kan.grid == form.kan_grid
                &&& config.value.fourier_bands == form.fourier_bands && config.value.fourier_scale
                    == form.fourier_scale
                &&& config.value.kind == ValueEncoderKind::Mlp <==> form.kind
                    == ModelKind::Transformer && form.venc == 1
                &&& config.value.kind == ValueEncoderKind::Fourier <==> form.kind
                    == ModelKind::Transformer && form.venc > 1
            },
            Err(e) => match numeric {
                Some(m) => e == m,
                None => match form.schedule_or() {
                    Err(m) => e == m,
                    Ok(_) => train == Some(e),
                },
            },
        },
{
}

/// The numbers of the encoders in a list are those that stand for them.
pub proof fn law_encoder_numbers_read_back(kind: ValueEncoderKind)
    ensures
        encoder_numbered(number_of(kind)) == kind,
        number_of(kind) <= 2,
{
}

proof fn lemma_filled_parts(list: Seq<Seq<char>>, n: int) -> (at: Seq<int>)
    requires
        0 <= n <= list.len(),
    ensures
        at.len() == filled_parts(list, n).len(),
        forall|k: int|
            #![trigger at[k]]
            0 <= k < at.len() ==> 0 <= at[k] < n && filled_parts(list, n)[k] == trimmed(
                list[at[k]],
            ) && trimmed(list[at[k]]).len() > 0,
        forall|j: int, k: int| 0 <= j < k < at.len() ==> #[trigger] at[j] < #[trigger] at[k],
        forall|i: int|
            0 <= i < n && trimmed(#[trigger] list[i]).len() > 0 ==> at.contains(i),
    decreases n,
{
    if n == 0 {
        Seq::empty()
    } else {
        let before = lemma_filled_parts(list, n - 1);
        if trimmed(list[n - 1]).len() > 0 {
            let at = before.push(n - 1);
            assert forall|i: int| 0 <= i < n && trimmed(#[trigger] list[i]).len() > 0 implies
                at.contains(i) by {
                if i < n - 1 {
                    let k = before.index_of(i);
                    assert(at[k] == i);
                } else {
                    assert(at[before.len() as int] == i);
                }
            }
            at
        } else {
            before
        }
    }
}

/// The parts of a comma-separated list are its pieces between the commas, in
/// their order and without the white space around them; exactly the pieces
/// that hold nothing else are left out. `at` says where each part stands.
pub proof fn law_a_list_keeps_all_that_says_something(raw: Seq<char>) -> (at: Seq<int>)
    ensures
        at.len() == csv_parts(raw).len(),
        forall|k: int|
            #![trigger at[k]]
            0 <= k < at.len() ==> 0 <= at[k] < pieces(raw, ',').len() && csv_parts(raw)[k]
                == trimmed(pieces(raw, ',')[at[k]]) && csv_parts(raw)[k].len() > 0,
        forall|j: int, k: int| 0 <= j < k < at.len() ==> #[trigger] at[j] < #[trigger] at[k],
        forall|i: int|
            0 <= i < pieces(raw, ',').len() && trimmed(#[trigger] pieces(raw, ',')[i]).len() > 0
                ==> at.contains(i),
{
    lemma_filled_parts(pieces(raw, ','), pieces(raw, ',').len() as int)
}

proof fn lemma_whole_parts(parts: Seq<Seq<char>>, name: Seq<char>, max: nat, n: int)
    requires
        0 <= n <= parts.len(),
    ensures
        match whole_parts(parts, name, max, n) {
            Ok(list) => list.len() == n && forall|i: int|
                #![trigger parts[i]]
                0 <= i < n ==> parsed(parts[i], max) == Some(list[i]),
            Err(e) => exists|i: int|
                0 <= i < n && parsed(#[trigger] parts[i], max) is None && e == bad_part(
                    name,
                    parts[i],
                    "не целое число"@,
                ) && forall|j: int| 0 <= j < i ==> parsed(#[trigger] parts[j], max) is Some,
        },
    decreases n,
{
    if n > 0 {
        lemma_whole_parts(parts, name, max, n - 1);
        match whole_parts(parts, name, max, n - 1) {
            Ok(head) => {
                if parsed(parts[n - 1], max) is None {
                    assert forall|j: int| 0 <= j < n - 1 implies parsed(
                        #[trigger] parts[j],
                        max,
                    ) is Some by {}
                }
            },
            Err(_) => {},
        }
    }
}

/// A list of whole numbers is read exactly if it has a part and each part is
/// such a number of at most `max`; the numbers stand in the order of the
/// parts. Otherwise the first part that is none is named.
pub proof fn law_lists_of_whole_numbers_are_read_in_order(raw: Seq<char>, name: Seq<char>, max: nat)
    ensures
        ({
            let parts = csv_parts(raw);
            match csv_whole(raw, name, max) {
                Ok(list) => parts.len() > 0 && list.len() == parts.len() && forall|i: int|
                    #![trigger parts[i]]
                    0 <= i < parts.len() ==> parsed(parts[i], max) == Some(list[i]),
                Err(e) => if parts.len() == 0 {
                    e == name + ": пустой список"@
                } else {
                    exists|i: int|
                        0 <= i < parts.len() && parsed(#[trigger] parts[i], max) is None && e
                            == name + ": '"@ + parts[i] + "' "@ + "не целое число"@
                            && forall|j: int|
                            0 <= j < i ==> parsed(#[trigger] parts[j], max) is Some
                },
            }
        }),
{
    let parts = csv_parts(raw);
    lemma_whole_parts(parts, name, max, parts.len() as int);
}

proof fn lemma_read_parts(
    parts: Seq<Seq<char>>,
    read: Seq<Option<Single>>,
    name: Seq<char>,
    n: int,
)
    requires
        0 <= n <= parts.len() == read.len(),
    ensures
        match read_parts(parts, read, name, n) {
            Ok(list) => list.len() == n && forall|i: int|
                #![trigger read[i]]
                0 <= i < n ==> read[i] == Some(list[i]),
            Err(e) => exists|i: int|
                0 <= i < n && #[trigger] read[i] is None && e == bad_part(
                    name,
                    parts[i],
                    "не число"@,
                ) && forall|j: int| 0 <= j < i ==> #[trigger] read[j] is Some,
        },
    decreases n,
{
    if n > 0 {
        lemma_read_parts(parts, read, name, n - 1);
        match read_parts(parts, read, name, n - 1) {
            Ok(head) => {
                if read[n - 1] is None {
                    assert forall|j: int| 0 <= j < n - 1 implies #[trigger] read[j] is Some by {}
                }
            },
            Err(_) => {},
        }
    }
}

/// A list of numbers is taken exactly if it has a part and each part was read
/// as a number; otherwise the first part that was not is named.
pub proof fn law_lists_of_numbers_are_taken_in_order(
    raw: Seq<char>,
    name: Seq<char>,
    read: Seq<Option<Single>>,
)
    requires
        read.len() == csv_parts(raw).len(),
    ensures
        ({
            let parts = csv_parts(raw);
            match csv_read(raw, name, read) {
                Ok(list) => parts.len() > 0 && list.len() == parts.len() && forall|i: int|
                    #![trigger read[i]]
                    0 <= i < parts.len() ==> read[i] == Some(list[i]),
                Err(e) => if parts.len() == 0 {
                    e == name + ": пустой список"@
                } else {
                    exists|i: int|
                        0 <= i < parts.len() && #[trigger] read[i] is None && e == name + ": '"@
                            + parts[i] + "' "@ + "не число"@ && forall|j: int|
                            0 <= j < i ==> #[trigger] read[j] is Some
                },
            }
        }),
{
    let parts = csv_parts(raw);
    lemma_read_parts(parts, read, name, parts.len() as int);
}

proof fn lemma_encoder_parts(parts: Seq<Seq<char>>, n: int)
    requires
        0 <= n <= parts.len(),
    ensures
        match encoder_parts(parts, n) {
            Ok(list) => list.len() == n && forall|i: int|
                #![trigger parts[i]]
                0 <= i < n ==> encoder_named(parts[i]) == Some(list[i]),
            Err(_) => exists|i: int|
                0 <= i < n && encoder_named(#[trigger] parts[i]) is None,
        },
    decreases n,
{
    if n > 0 {
        lemma_encoder_parts(parts, n - 1);
    }
}

proof fn lemma_schedule_parts(parts: Seq<Seq<char>>, n: int)
    requires
        0 <= n <= parts.len(),
    ensures
        match schedule_parts(parts, n) {
            Ok(list) => list.len() == n && forall|i: int|
                #![trigger parts[i]]
                0 <= i < n ==> schedule_named(parts[i]) == Some(list[i]),
            Err(_) => exists|i: int|
                0 <= i < n && schedule_named(#[trigger] parts[i]) is None,
        },
    decreases n,
{
    if n > 0 {
        lemma_schedule_parts(parts, n - 1);
    }
}

/// A list of encoders is read exactly if it has a part and each part is one of
/// the three names, and each name stands for its own encoder.
pub proof fn law_lists_of_encoders_are_read_by_name(raw: Seq<char>)
    ensures
        ({
            let parts = csv_parts(raw);
            match csv_encoders(raw) {
                Ok(list) => parts.len() > 0 && list.len() == parts.len() && forall|i: int|
                    #![trigger parts[i]]
                    0 <= i < parts.len() ==> parts[i] == match list[i] {
                        ValueEncoderKind::Linear => "linear"@,
                        ValueEncoderKind::Mlp => "mlp"@,
                        ValueEncoderKind::Fourier => "fourier"@,
                    },
                Err(_) => parts.len() == 0 || exists|i: int|
                    0 <= i < parts.len() && #[trigger] parts[i] != "linear"@ && parts[i] != "mlp"@
                        && parts[i] != "fourier"@,
            }
        }),
{
    let parts = csv_parts(raw);
    lemma_encoder_parts(parts, parts.len() as int);
}

/// A list of schedules is read exactly if it has a part and each part is one
/// of the two names.
pub proof fn law_lists_of_schedules_are_read_by_name(raw: Seq<char>)
    ensures
        ({
            let parts = csv_parts(raw);
            match csv_schedules(raw) {
                Ok(list) => parts.len() > 0 && list.len() == parts.len() && forall|i: int|
                    #![trigger parts[i]]
                    0 <= i < parts.len() ==> parts[i] == match list[i] {
                        LrSchedule::Constant => "constant"@,
                        LrSchedule::WarmupCosine { .. } => "warmup-cosine"@,
                    },
                Err(_) => parts.len() == 0 || exists|i: int|
                    0 <= i < parts.len() && #[trigger] parts[i] != "constant"@ && parts[i]
                        != "warmup-cosine"@,
            }
        }),
{
    let parts = csv_parts(raw);
    lemma_schedule_parts(parts, parts.len() as int);
}

/// A search goes through exactly the kinds of models that were chosen, each
/// of them once, and needs at least one.
pub proof fn law_a_search_takes_the_chosen_kinds(form: SearchForm)
    ensures
        form.kinds().contains(ModelKind::Transformer) <==> form.include_transformer,
        form.kinds().contains(ModelKind::Mlp) <==> form.include_mlp,
        form.kinds().contains(ModelKind::Kan) <==> form.include_kan,
        form.kinds().no_duplicates(),
        form.kinds_or() is Ok <==> form.include_transformer || form.include_mlp
            || form.include_kan,
        form.kinds_or() matches Ok(kinds) ==> kinds == form.kinds(),
{
    let k = form.kinds();
    let a: int = if form.include_transformer {
        1
    } else {
        0
    };
    let b: int = if form.include_mlp {
        a + 1
    } else {
        a
    };
    if form.include_transformer {
        assert(k[0] == ModelKind::Transformer);
    }
    if form.include_mlp {
        assert(k[a] == ModelKind::Mlp);
    }
    if form.include_kan {
        assert(k[b] == ModelKind::Kan);
    }
}

/// A hand-written grid is read exactly if each of its eight lists is.
pub proof fn law_every_list_of_a_grid_is_read(
    form: CustomSearchForm,
    lrs: Seq<Option<Single>>,
    scales: Seq<Option<Single>>,
)
    ensures
        match form.lists(lrs, scales) {
            Ok(lists) => {
                &&& csv_whole(form.seeds@, "seeds"@, u64::MAX as nat) == Ok::<
                    Seq<nat>,
                    Seq<char>,
                >(lists.seeds)
                &&& csv_whole(form.d_models@, "d-models"@, usize::MAX as nat) == Ok::<
                    Seq<nat>,
                    Seq<char>,
                >(lists.d_models)
                &&& csv_whole(form.layers@, "layers-list"@, usize::MAX as nat) == Ok::<
                    Seq<nat>,
                    Seq<char>,
                >(lists.layers)
                &&& csv_whole(form.d_ffs@, "d-ffs"@, usize::MAX as nat) == Ok::<
                    Seq<nat>,
                    Seq<char>,
                >(lists.d_ffs)
                &&& csv_read(form.lrs@, "lrs"@, lrs) == Ok::<Seq<Single>, Seq<char>>(lists.lrs)
                &&& csv_encoders(form.value_encoders@) == Ok::<
                    Seq<ValueEncoderKind>,
                    Seq<char>,
                >(lists.value_encoders)
                &&& csv_read(form.fourier_scales@, "fourier-scales"@, scales) == Ok::<
                    Seq<Single>,
                    Seq<char>,
                >(lists.fourier_scales)
                &&& csv_schedules(form.schedulers@) == Ok::<Seq<LrSchedule>, Seq<char>>(
                    lists.schedules,
                )
            },
            Err(_) => {
                ||| csv_whole(form.seeds@, "seeds"@, u64::MAX as nat) is Err
                ||| csv_whole(form.d_models@, "d-models"@, usize::MAX as nat) is Err
                ||| csv_whole(form.layers@, "layers-list"@, usize::MAX as nat) is Err
                ||| csv_whole(form.d_ffs@, "d-ffs"@, usize::MAX as nat) is Err
                ||| csv_read(form.lrs@, "lrs"@, lrs) is Err
                ||| csv_encoders(form.value_encoders@) is Err
                ||| csv_read(form.fourier_scales@, "fourier-scales"@, scales) is Err
                ||| csv_schedules(form.schedulers@) is Err
            },
        },
{
}

/// A larger budget looks at no less: every size of a smaller one is among its
/// sizes, and it trains no shorter.
pub proof fn law_a_larger_budget_looks_at_no_less(kinds: Seq<ModelKind>)
    ensures
        ({
            let quick = budget_axes(SearchBudget::Quick, kinds);
            let balanced = budget_axes(SearchBudget::Balanced, kinds);
            let thorough = budget_axes(SearchBudget::Thorough, kinds);
            &&& quick.model_kinds == kinds && balanced.model_kinds == kinds
                && thorough.model_kinds == kinds
            &&& quick.epochs <= balanced.epochs <= thorough.epochs
            &&& quick.final_epochs <= balanced.final_epochs <= thorough.final_epochs
            &&& quick.epochs <= quick.final_epochs && balanced.epochs <= balanced.final_epochs
                && thorough.epochs <= thorough.final_epochs
            &&& quick.d_models.len() <= balanced.d_models.len() <= thorough.d_models.len()
            &&& quick.mlp_widths.len() <= balanced.mlp_widths.len() <= thorough.mlp_widths.len()
            &&& quick.kan_grids.len() <= balanced.kan_grids.len() <= thorough.kan_grids.len()
            &&& quick.seeds.len() <= balanced.seeds.len() <= thorough.seeds.len()
        }),
{
}

/// What is built agrees with what was meant to be built: both succeed with the
/// same value, or both fail with the same words.
pub proof fn law_agreement_is_in_the_value_or_in_the_words<T>(
    out: Result<T, String>,
    want: Result<T, Seq<char>>,
)
    ensures
        agree(out, want, |v: T| v) <==> match (out, want) {
            (Ok(v), Ok(w)) => v == w,
            (Err(e), Err(w)) => e@ == w,
            _ => false,
        },
{
}

/// A ready-made grid comes out exactly if a kind of model was chosen and the
/// rules find no fault in the grid, and it is the grid of the budget for the
/// chosen kinds. A missing choice is said before a fault.
pub proof fn law_a_grid_without_fault_comes_out(
    form: SearchForm,
    budget: SearchBudget,
    fault: Option<Seq<char>>,
)
    ensures
        match form.axes_or(budget, fault) {
            Ok(axes) => fault is None && form.kinds().len() > 0 && axes.model_kinds == form.kinds()
                && axes == budget_axes(budget, form.kinds()),
            Err(e) => if form.kinds().len() > 0 {
                fault == Some(e)
            } else {
                e == "выберите хотя бы одну архитектуру (transformer/mlp/kan)"@
            },
        },
{
}

/// A search on a file is built exactly if there is a file and its grid comes
/// out; it looks through that file, that grid and ranks by the chosen
/// objective.
pub proof fn law_a_search_needs_a_file(form: OptimizeForm, fault: Option<Seq<char>>)
    ensures
        match form.built(fault) {
            Ok((path, axes, objective)) => {
                &&& form.file_path@.len() > 0 && path == form.file_path@
                &&& fault is None
                &&& axes == budget_axes(SearchBudget::numbered(form.preset), form.search.kinds())
                &&& objective == SweepObjective::numbered(form.search.objective)
            },
            Err(_) => form.file_path@.len() == 0 || fault is Some || form.search.kinds().len()
                == 0,
        },
{
}

/// What was built passes exactly where no fault was found in it; what could
/// not be built stays refused for its own reason.
pub proof fn law_a_fault_refuses_what_was_built<T>(
    built: Result<T, Seq<char>>,
    fault: Option<Seq<char>>,
)
    ensures
        unless_faulty(built, fault) is Ok <==> built is Ok && fault is None,
        unless_faulty(built, fault) matches Ok(v) ==> built == Ok::<T, Seq<char>>(v),
        built is Err ==> unless_faulty(built, fault) == built,
        built is Ok ==> (fault matches Some(e) ==> unless_faulty(built, fault) == Err::<
            T,
            Seq<char>,
        >(e)),
{
}

/// What a form holds where nothing was entered.
pub proof fn law_an_untouched_form_trains_a_small_transformer()
    ensures
        ({
            let form = fresh_train_form();
            &&& form.kind == ModelKind::Transformer
            &&& form.d_model == 32 && form.heads == 4 && form.layers == 2 && form.d_ff == 64
            &&& form.d_model as int % form.heads as int == 0
            &&& form.venc == 0 && form.fourier_bands == 6 && form.fourier_scale.bits == 0x4100_0000
            &&& form.mlp_width == 128 && form.mlp_layers == 3
            &&& form.kan_width == 16 && form.kan_layers == 2 && form.kan_grid == 8
            &&& form.lr.bits == 0x3a83_126f && form.batch == 64 && form.epochs == 40
            &&& form.seed == 0
            &&& !form.warmup_cosine && form.warmup.bits == 0x3dcc_cccd && form.min_lr_ratio.bits
                == 0x3dcc_cccd
        }),
        fresh_search_form().objective == 0,
        fresh_search_form().kinds() == seq![
            ModelKind::Transformer,
            ModelKind::Mlp,
            ModelKind::Kan,
        ],
{
}

} // verus!

//! Feature types and the input encoders: which layers they are made of, and
//! which rows of which tables a table of values looks up.

use crate::data::Matrix;
use crate::single::{code_check, CodeCheck, Single};
use crate::text::{decimal, decimal_text, owned};
use vstd::prelude::*;
use vstd::string::StringExecFns;

verus! {

/// What an input column holds.
#[derive(Clone, Copy, Debug, PartialEq, Eq, Structural)]
pub enum FeatureSpec {
    /// A real number.
    Continuous,
    /// One of `cardinality` codes.
    Categorical { cardinality: usize },
}

/// How a scalar becomes a vector.
#[derive(Clone, Copy, Debug, PartialEq, Eq, Structural)]
pub enum ValueEncoderKind {
    Linear,
    Mlp,
    Fourier,
}

#[derive(Clone, Copy, Debug, PartialEq, Eq, Structural)]
pub struct ValueEncoderConfig {
    pub kind: ValueEncoderKind,
    pub fourier_bands: usize,
    pub fourier_scale: Single,
}

pub open spec fn default_value_encoder() -> ValueEncoderConfig {
    ValueEncoderConfig {
        kind: ValueEncoderKind::Linear,
        fourier_bands: 6,
        fourier_scale: Single { bits: 0x4100_0000 },
    }
}

impl Default for ValueEncoderConfig {
    fn default() -> (config: ValueEncoderConfig)
        ensures
            config == default_value_encoder(),
    {
        ValueEncoderConfig {
            kind: ValueEncoderKind::Linear,
            fourier_bands: 6,
            fourier_scale: Single { bits: 0x4100_0000 },
        }
    }
}

/// A trainable layer, by its sizes.
#[derive(Clone, Copy, Debug, PartialEq, Eq, Structural)]
pub enum Layer {
    /// A table with one vector of `width` numbers per row.
    Embedding { rows: usize, width: usize },
    Linear { inputs: usize, outputs: usize },
    Norm { width: usize },
    Attention { width: usize, heads: usize },
    FeedForward { width: usize, hidden: usize },
}

impl ValueEncoderConfig {
    /// The sizes with which an encoder can be built.
    pub open spec fn buildable(self) -> bool {
        self.kind == ValueEncoderKind::Fourier ==> {
            &&& self.fourier_bands >= 1
            &&& (Single { bits: 0 }).less(self.fourier_scale)
        }
    }

    /// The layers that turn one number into `width` numbers. The Fourier
    /// encoder keeps the number itself beside its sines and cosines.
    pub open spec fn layers_for(self, width: usize) -> Seq<Layer> {
        match self.kind {
            ValueEncoderKind::Linear => seq![Layer::Linear { inputs: 1, outputs: width }],
            ValueEncoderKind::Mlp => seq![
                Layer::Linear { inputs: 1, outputs: width },
                Layer::Linear { inputs: width, outputs: width },
            ],
            ValueEncoderKind::Fourier => seq![
                Layer::Linear { inputs: 1, outputs: width },
                Layer::Linear { inputs: self.fourier_bands, outputs: width },
                Layer::Linear { inputs: self.fourier_bands, outputs: width },
            ],
        }
    }

    pub fn layers(&self, width: usize) -> (layers: Vec<Layer>)
        requires
            self.buildable(),
        ensures
            layers@ == self.layers_for(width),
    {
        let mut layers: Vec<Layer> = Vec::new();
        layers.push(Layer::Linear { inputs: 1, outputs: width });
        match self.kind {
            ValueEncoderKind::Linear => {},
            ValueEncoderKind::Mlp => {
                layers.push(Layer::Linear { inputs: width, outputs: width });
            },
            ValueEncoderKind::Fourier => {
                layers.push(Layer::Linear { inputs: self.fourier_bands, outputs: width });
                layers.push(Layer::Linear { inputs: self.fourier_bands, outputs: width });
            },
        }
        assert(layers@ =~= self.layers_for(width));
        layers
    }
}

/// How many codes the first `n` features have together.
pub open spec fn codes_before(specs: Seq<FeatureSpec>, n: int) -> nat
    decreases n,
{
    if n <= 0 {
        0
    } else {
        codes_before(specs, n - 1) + match specs[n - 1] {
            FeatureSpec::Continuous => 0nat,
            FeatureSpec::Categorical { cardinality } => cardinality as nat,
        }
    }
}

proof fn lemma_codes_grow(specs: Seq<FeatureSpec>, i: int, j: int)
    requires
        0 <= i <= j,
    ensures
        codes_before(specs, i) <= codes_before(specs, j),
    decreases j - i,
{
    if i < j {
        lemma_codes_grow(specs, i, j - 1);
    }
}

/// Where the codes of feature `j` start in the common category table. Row 0
/// is padding for the features that have no codes.
pub open spec fn offset_of(specs: Seq<FeatureSpec>, j: int) -> nat {
    match specs[j] {
        FeatureSpec::Continuous => 0,
        FeatureSpec::Categorical { .. } => 1 + codes_before(specs, j),
    }
}

/// Every categorical feature has at least one code, there is a feature at
/// all, and the common table has a size.
pub open spec fn encodable(specs: Seq<FeatureSpec>) -> bool {
    &&& specs.len() > 0
    &&& forall|j: int|
        0 <= j < specs.len() ==> (#[trigger] specs[j] matches FeatureSpec::Categorical {
            cardinality,
        } ==> cardinality > 0)
    &&& 1 + codes_before(specs, specs.len() as int) <= usize::MAX
}

/// What a value of a feature says as a code. Only finite values can be codes.
pub open spec fn value_code(v: Single, cardinality: usize) -> CodeCheck {
    if v.finite() {
        code_check(v, cardinality)
    } else {
        CodeCheck::NotInteger
    }
}

/// The row of the common category table that a value looks up.
pub open spec fn category_row(specs: Seq<FeatureSpec>, j: int, v: Single) -> int {
    match specs[j] {
        FeatureSpec::Continuous => 0,
        FeatureSpec::Categorical { cardinality } => match value_code(v, cardinality) {
            CodeCheck::Code(code) => offset_of(specs, j) + code,
            _ => 0,
        },
    }
}

/// A value that its feature cannot take.
#[derive(Clone, Copy, Debug, PartialEq, Eq, Structural)]
pub struct CodeFault {
    pub row: usize,
    pub feature: usize,
    pub value: Single,
    pub found: CodeCheck,
}

impl CodeFault {
    /// The value is printed as `shown`, and next to the whole number `whole`.
    pub open spec fn text(self, cardinality: nat, shown: Seq<char>, whole: Seq<char>) -> Seq<char> {
        match self.found {
            CodeCheck::NotInteger => "категориальный признак "@ + decimal(self.feature as nat)
                + " получил нецелый код "@ + shown
                + " (возможно колонка ошибочно нормализована)"@,
            _ => "категория "@ + whole + " вне диапазона [0, "@ + decimal(cardinality)
                + ") для признака "@ + decimal(self.feature as nat),
        }
    }

    pub fn message(&self, cardinality: usize, shown: &str, whole: &str) -> (text: String)
        ensures
            text@ == self.text(cardinality as nat, shown@, whole@),
    {
        match self.found {
            CodeCheck::NotInteger => {
                let mut text: String = owned("категориальный признак ");
                text.append(decimal_text(self.feature as u64).as_str());
                text.append(" получил нецелый код ");
                text.append(shown);
                text.append(" (возможно колонка ошибочно нормализована)");
                text
            },
            _ => {
                let mut text: String = owned("категория ");
                text.append(whole);
                text.append(" вне диапазона [0, ");
                text.append(decimal_text(cardinality as u64).as_str());
                text.append(") для признака ");
                text.append(decimal_text(self.feature as u64).as_str());
                text
            },
        }
    }
}

/// Whether the feature takes the value.
pub open spec fn takes(spec: FeatureSpec, v: Single) -> bool {
    match spec {
        FeatureSpec::Continuous => true,
        FeatureSpec::Categorical { cardinality } => value_code(v, cardinality) is Code,
    }
}

/// What encoding a table of values looks up: for value `j` of row `r`, row
/// `j` of the feature table and row `categories[r][j]` of the category table.
/// Where `masked` is false no feature has codes, and the category table is
/// left out.
#[derive(Debug)]
pub struct TokenPlan {
    pub batch: usize,
    pub features: usize,
    pub width: usize,
    pub masked: bool,
    pub slots: Vec<Vec<usize>>,
    pub categories: Vec<Vec<usize>>,
}

pub open spec fn id_views(rows: Seq<Vec<usize>>) -> Seq<Seq<usize>> {
    rows.map_values(|r: Vec<usize>| r@)
}

/// The encoder of numeric features: a vector per feature, plus a vector of
/// the value, or of the category where the feature is categorical.
#[derive(Debug)]
pub struct NumericInputEncoder {
    pub specs: Vec<FeatureSpec>,
    pub width: usize,
    pub value: ValueEncoderConfig,
    pub offsets: Vec<usize>,
    pub categories: usize,
}

impl NumericInputEncoder {
    pub open spec fn wf(&self) -> bool {
        &&& encodable(self.specs@)
        &&& self.value.buildable()
        &&& self.offsets@.len() == self.specs@.len()
        &&& forall|j: int|
            0 <= j < self.specs@.len() ==> #[trigger] self.offsets@[j] == offset_of(self.specs@, j)
        &&& self.categories == 1 + codes_before(self.specs@, self.specs@.len() as int)
    }

    /// Some feature is categorical.
    pub open spec fn categorical(&self) -> bool {
        self.categories > 1
    }

    /// The layers in their order. The category table is trained only where
    /// some feature has codes.
    pub open spec fn layer_seq(&self) -> Seq<Layer> {
        let head = seq![
            Layer::Embedding { rows: self.specs@.len() as usize, width: self.width },
        ] + self.value.layers_for(self.width);
        if self.categorical() {
            head.push(Layer::Embedding { rows: self.categories, width: self.width })
        } else {
            head
        }
    }

    /// An encoder of `num_features` continuous features.
    pub fn new(num_features: usize, d_model: usize) -> (encoder: NumericInputEncoder)
        requires
            num_features > 0,
        ensures
            encoder.wf(),
            encoder.specs@ == Seq::new(num_features as nat, |i: int| FeatureSpec::Continuous),
            encoder.width == d_model,
            encoder.value == default_value_encoder(),
            !encoder.categorical(),
    {
        let mut specs: Vec<FeatureSpec> = Vec::new();
        let mut i: usize = 0;
        while i < num_features
            invariant
                i <= num_features,
                specs@ == Seq::new(i as nat, |k: int| FeatureSpec::Continuous),
            decreases num_features - i,
        {
            specs.push(FeatureSpec::Continuous);
            i += 1;
            assert(specs@ =~= Seq::new(i as nat, |k: int| FeatureSpec::Continuous));
        }
        proof {
            lemma_no_codes(specs@, specs@.len() as int);
        }
        NumericInputEncoder::with_specs(&specs, d_model, &ValueEncoderConfig::default())
    }

    /// An encoder of these features. The codes of the categorical features
    /// take consecutive blocks of one table.
    pub fn with_specs(
        specs: &Vec<FeatureSpec>,
        d_model: usize,
        value_cfg: &ValueEncoderConfig,
    ) -> (encoder: NumericInputEncoder)
        requires
            encodable(specs@),
            value_cfg.buildable(),
        ensures
            encoder.wf(),
            encoder.specs@ == specs@,
            encoder.width == d_model,
            encoder.value == *value_cfg,
            encoder.categorical() == exists|j: int|
                0 <= j < specs@.len() && (#[trigger] specs@[j]) is Categorical,
    {
        let mut kept: Vec<FeatureSpec> = Vec::new();
        let mut offsets: Vec<usize> = Vec::new();
        let mut total: usize = 1;
        let mut j: usize = 0;
        while j < specs.len()
            invariant
                j <= specs.len(),
                encodable(specs@),
                kept@ == specs@.take(j as int),
                offsets.len() == j,
                total == 1 + codes_before(specs@, j as int),
                forall|k: int| 0 <= k < j ==> #[trigger] offsets@[k] == offset_of(specs@, k),
                total > 1 <==> exists|k: int|
                    0 <= k < j && (#[trigger] specs@[k]) is Categorical,
            decreases specs.len() - j,
        {
            let spec: FeatureSpec = specs[j];
            kept.push(spec);
            proof {
                lemma_codes_grow(specs@, j + 1, specs@.len() as int);
            }
            match spec {
                FeatureSpec::Continuous => {
                    offsets.push(0);
                },
                FeatureSpec::Categorical { cardinality } => {
                    offsets.push(total);
                    total += cardinality;
                    assert(specs@[j as int] is Categorical);
                },
            }
            j += 1;
            assert(kept@ =~= specs@.take(j as int));
        }
        assert(kept@ =~= specs@);
        NumericInputEncoder {
            specs: kept,
            width: d_model,
            value: *value_cfg,
            offsets,
            categories: total,
        }
    }

    /// The first value, row by row, that its feature cannot take.
    pub fn first_fault(&self, values: &Matrix) -> (fault: Option<CodeFault>)
        requires
            self.wf(),
            values.wf(),
            values.cols == self.specs@.len(),
        ensures
            match fault {
                None => forall|r: int, j: int|
                    0 <= r < values@.len() && 0 <= j < self.specs@.len() ==> takes(
                        self.specs@[j],
                        #[trigger] values@[r][j],
                    ),
                Some(f) => {
                    &&& f.row < values@.len()
                    &&& f.feature < self.specs@.len()
                    &&& f.value == values@[f.row as int][f.feature as int]
                    &&& self.specs@[f.feature as int] matches FeatureSpec::Categorical {
                        cardinality,
                    } && f.found == value_code(f.value, cardinality)
                    &&& !(f.found is Code)
                    &&& forall|r: int, j: int|
                        0 <= r < values@.len() && 0 <= j < self.specs@.len() && (r < f.row || (r
                            == f.row && j < f.feature)) ==> takes(
                            self.specs@[j],
                            #[trigger] values@[r][j],
                        )
                },
            },
    {
        let mut r: usize = 0;
        while r < values.nrows()
            invariant
                self.wf(),
                values.wf(),
                values.cols == self.specs@.len(),
                r <= values@.len(),
                forall|q: int, j: int|
                    0 <= q < r && 0 <= j < self.specs@.len() ==> takes(
                        self.specs@[j],
                        #[trigger] values@[q][j],
                    ),
            decreases values@.len() - r,
        {
            let mut j: usize = 0;
            while j < self.specs.len()
                invariant
                    self.wf(),
                    values.wf(),
                    values.cols == self.specs@.len(),
                    r < values@.len(),
                    j <= self.specs.len(),
                    forall|q: int, k: int|
                        0 <= q < r && 0 <= k < self.specs@.len() ==> takes(
                            self.specs@[k],
                            #[trigger] values@[q][k],
                        ),
                    forall|k: int|
                        0 <= k < j ==> takes(self.specs@[k], #[trigger] values@[r as int][k]),
                decreases self.specs.len() - j,
            {
                if let FeatureSpec::Categorical { cardinality } = self.specs[j] {
                    let v: Single = values.at(r, j);
                    let found: CodeCheck = code_of(v, cardinality);
                    match found {
                        CodeCheck::Code(_) => {},
                        _ => {
                            return Some(CodeFault { row: r, feature: j, value: v, found });
                        },
                    }
                }
                j += 1;
            }
            r += 1;
        }
        None
    }

    /// What the table of values looks up: the sizes of the result, the row of
    /// the feature table for each value (its column), and the row of the
    /// category table (the offset of the feature plus the code).
    pub fn forward(&self, values: &Matrix) -> (plan: TokenPlan)
        requires
            self.wf(),
            values.wf(),
            values.cols == self.specs@.len(),
            forall|r: int, j: int|
                0 <= r < values@.len() && 0 <= j < self.specs@.len() ==> takes(
                    self.specs@[j],
                    #[trigger] values@[r][j],
                ),
        ensures
            plan.batch == values@.len(),
            plan.features == self.specs@.len(),
            plan.width == self.width,
            plan.masked == self.categorical(),
            id_views(plan.slots@) == Seq::new(
                values@.len(),
                |r: int| Seq::new(self.specs@.len(), |j: int| j as usize),
            ),
            plan.categories@.len() == values@.len(),
            forall|r: int|
                0 <= r < values@.len() ==> (#[trigger] plan.categories@[r])@.len()
                    == self.specs@.len(),
            forall|r: int, j: int|
                0 <= r < values@.len() && 0 <= j < self.specs@.len() ==> #[trigger]
                plan.categories@[r]@[j] == category_row(self.specs@, j, values@[r][j]),
    {
        let slots: Vec<Vec<usize>> = self.slot_ids(values.nrows());
        let categories: Vec<Vec<usize>> = self.category_ids(values);
        TokenPlan {
            batch: values.nrows(),
            features: self.specs.len(),
            width: self.width,
            masked: self.categories > 1,
            slots,
            categories,
        }
    }

    /// Every row of slots is 0, 1, 2, and so on.
    fn slot_ids(&self, batch: usize) -> (rows: Vec<Vec<usize>>)
        ensures
            id_views(rows@) == Seq::new(
                batch as nat,
                |r: int| Seq::new(self.specs@.len(), |j: int| j as usize),
            ),
    {
        let mut rows: Vec<Vec<usize>> = Vec::new();
        let mut r: usize = 0;
        while r < batch
            invariant
                r <= batch,
                id_views(rows@) == Seq::new(
                    r as nat,
                    |q: int| Seq::new(self.specs@.len(), |j: int| j as usize),
                ),
            decreases batch - r,
        {
            let mut row: Vec<usize> = Vec::new();
            let mut j: usize = 0;
            while j < self.specs.len()
                invariant
                    j <= self.specs.len(),
                    row@ == Seq::new(j as nat, |k: int| k as usize),
                decreases self.specs.len() - j,
            {
                row.push(j);
                j += 1;
                assert(row@ =~= Seq::new(j as nat, |k: int| k as usize));
            }
            let ghost before = rows@;
            rows.push(row);
            r += 1;
            assert(id_views(rows@) =~= id_views(before).push(row@));
            assert(id_views(rows@) =~= Seq::new(
                r as nat,
                |q: int| Seq::new(self.specs@.len(), |j: int| j as usize),
            ));
        }
        rows
    }

    fn category_ids(&self, values: &Matrix) -> (rows: Vec<Vec<usize>>)
        requires
            self.wf(),
            values.wf(),
            values.cols == self.specs@.len(),
            forall|r: int, j: int|
                0 <= r < values@.len() && 0 <= j < self.specs@.len() ==> takes(
                    self.specs@[j],
                    #[trigger] values@[r][j],
                ),
        ensures
            rows@.len() == values@.len(),
            forall|r: int|
                0 <= r < values@.len() ==> (#[trigger] rows@[r])@.len() == self.specs@.len(),
            forall|r: int, j: int|
                0 <= r < values@.len() && 0 <= j < self.specs@.len() ==> #[trigger] rows@[r]@[j]
                    == category_row(self.specs@, j, values@[r][j]),
    {
        let mut rows: Vec<Vec<usize>> = Vec::new();
        let mut r: usize = 0;
        while r < values.nrows()
            invariant
                self.wf(),
                values.wf(),
                values.cols == self.specs@.len(),
                forall|q: int, j: int|
                    0 <= q < values@.len() && 0 <= j < self.specs@.len() ==> takes(
                        self.specs@[j],
                        #[trigger] values@[q][j],
                    ),
                r <= values@.len(),
                rows.len() == r,
                forall|q: int| 0 <= q < r ==> (#[trigger] rows@[q])@.len() == self.specs@.len(),
                forall|q: int, j: int|
                    0 <= q < r && 0 <= j < self.specs@.len() ==> #[trigger] rows@[q]@[j]
                        == category_row(self.specs@, j, values@[q][j]),
            decreases values@.len() - r,
        {
            let mut row: Vec<usize> = Vec::new();
            let mut j: usize = 0;
            while j < self.specs.len()
                invariant
                    self.wf(),
                    values.wf(),
                    values.cols == self.specs@.len(),
                    forall|q: int, k: int|
                        0 <= q < values@.len() && 0 <= k < self.specs@.len() ==> takes(
                            self.specs@[k],
                            #[trigger] values@[q][k],
                        ),
                    r < values@.len(),
                    j <= self.specs.len(),
                    row.len() == j,
                    forall|k: int|
                        0 <= k < j ==> #[trigger] row@[k] == category_row(
                            self.specs@,
                            k,
                            values@[r as int][k],
                        ),
                decreases self.specs.len() - j,
            {
                let mut id: usize = 0;
                if let FeatureSpec::Categorical { cardinality } = self.specs[j] {
                    let v: Single = values.at(r, j);
                    assert(takes(self.specs@[j as int], values@[r as int][j as int]));
                    proof {
                        lemma_codes_grow(self.specs@, j + 1, self.specs@.len() as int);
                        lemma_code_in_range(v, cardinality);
                    }
                    if let CodeCheck::Code(code) = code_of(v, cardinality) {
                        id = self.offsets[j] + code;
                    }
                }
                row.push(id);
                j += 1;
            }
            rows.push(row);
            r += 1;
        }
        rows
    }

    /// All trainable layers, in order.
    pub fn parameters(&self) -> (layers: Vec<Layer>)
        requires
            self.wf(),
        ensures
            layers@ == self.layer_seq(),
    {
        let mut layers: Vec<Layer> = Vec::new();
        layers.push(Layer::Embedding { rows: self.specs.len(), width: self.width });
        let mut value: Vec<Layer> = self.value.layers(self.width);
        layers.append(&mut value);
        if self.categories > 1 {
            layers.push(Layer::Embedding { rows: self.categories, width: self.width });
        }
        assert(layers@ =~= self.layer_seq());
        layers
    }

    /// The trainable layers of the values alone.
    pub fn value_parameters(&self) -> (layers: Vec<Layer>)
        requires
            self.wf(),
        ensures
            layers@ == self.value.layers_for(self.width),
    {
        self.value.layers(self.width)
    }
}

fn code_of(v: Single, cardinality: usize) -> (found: CodeCheck)
    ensures
        found == value_code(v, cardinality),
{
    if v.is_finite() {
        v.category_code(cardinality)
    } else {
        CodeCheck::NotInteger
    }
}

proof fn lemma_no_codes(specs: Seq<FeatureSpec>, n: int)
    requires
        0 <= n <= specs.len(),
        forall|j: int| 0 <= j < specs.len() ==> #[trigger] specs[j] == FeatureSpec::Continuous,
    ensures
        codes_before(specs, n) == 0,
    decreases n,
{
    if n > 0 {
        lemma_no_codes(specs, n - 1);
    }
}

/// A code is one of the codes of its feature.
proof fn lemma_code_in_range(v: Single, cardinality: usize)
    ensures
        value_code(v, cardinality) matches CodeCheck::Code(code) ==> code < cardinality && code
            == v.nearest(),
{
    if v.finite() && v.nearest() < cardinality {
        assert(v.units() >= 0) by (nonlinear_arith)
            requires
                v.units() == v.significand() * vstd::arithmetic::power2::pow2(
                    (v.exponent() - 1) as nat,
                ),
                v.significand() >= 0,
        ;
        vstd::arithmetic::power2::lemma_pow2_pos(149);
        assert(v.nearest() >= 0) by {
            vstd::arithmetic::div_mod::lemma_div_pos_is_pos(
                2 * v.units() + crate::single::whole(),
                2 * crate::single::whole(),
            );
        }
    }
}

/// Two values look up the same row of the category table only where they are
/// the same code of the same feature, and no value of a categorical feature
/// looks up the padding row or a row outside the table.
pub proof fn law_category_rows_are_apart(
    encoder: NumericInputEncoder,
    i: int,
    a: Single,
    j: int,
    b: Single,
)
    requires
        encoder.wf(),
        0 <= i < encoder.specs@.len(),
        0 <= j < encoder.specs@.len(),
        encoder.specs@[i] is Categorical,
        encoder.specs@[j] is Categorical,
        takes(encoder.specs@[i], a),
        takes(encoder.specs@[j], b),
    ensures
        0 < category_row(encoder.specs@, i, a) < encoder.categories,
        category_row(encoder.specs@, i, a) == category_row(encoder.specs@, j, b) ==> i == j
            && value_code(a, encoder.specs@[i]->cardinality) == value_code(
            b,
            encoder.specs@[j]->cardinality,
        ),
{
    let specs = encoder.specs@;
    lemma_code_in_range(a, specs[i]->cardinality);
    lemma_code_in_range(b, specs[j]->cardinality);
    lemma_codes_grow(specs, i + 1, specs.len() as int);
    lemma_codes_grow(specs, j + 1, specs.len() as int);
    if i < j {
        lemma_codes_grow(specs, i + 1, j);
    } else if j < i {
        lemma_codes_grow(specs, j + 1, i);
    }
}

/// What encoding rows of token numbers looks up: at position `t` of a row,
/// row `ids[r][t]` of the token table and position `t`.
#[derive(Debug)]
pub struct TextPlan {
    pub batch: usize,
    pub length: usize,
    pub width: usize,
    pub positions: Vec<usize>,
}

/// The encoder of text tokens: a vector per token plus a vector per position.
#[derive(Clone, Copy, Debug, PartialEq, Eq, Structural)]
pub struct TokenInputEncoder {
    pub vocab_size: usize,
    pub width: usize,
}

impl TokenInputEncoder {
    pub fn new(vocab_size: usize, d_model: usize) -> (encoder: TokenInputEncoder)
        ensures
            encoder == (TokenInputEncoder { vocab_size, width: d_model }),
    {
        TokenInputEncoder { vocab_size, width: d_model }
    }

    /// The sizes of the result and the positions that are added to every row.
    pub fn forward(&self, ids: &Vec<Vec<usize>>) -> (plan: TextPlan)
        requires
            ids@.len() > 0,
            forall|r: int| 0 <= r < ids@.len() ==> (#[trigger] ids@[r])@.len() == ids@[0]@.len(),
            forall|r: int, t: int|
                0 <= r < ids@.len() && 0 <= t < ids@[r]@.len() ==> #[trigger] ids@[r]@[t]
                    < self.vocab_size,
        ensures
            plan.batch == ids@.len(),
            plan.length == ids@[0]@.len(),
            plan.width == self.width,
            plan.positions@ == Seq::new(ids@[0]@.len(), |t: int| t as usize),
    {
        let length: usize = ids[0].len();
        let mut positions: Vec<usize> = Vec::new();
        let mut t: usize = 0;
        while t < length
            invariant
                t <= length,
                positions@ == Seq::new(t as nat, |k: int| k as usize),
            decreases length - t,
        {
            positions.push(t);
            t += 1;
            assert(positions@ =~= Seq::new(t as nat, |k: int| k as usize));
        }
        TextPlan { batch: ids.len(), length, width: self.width, positions }
    }

    pub fn parameters(&self) -> (layers: Vec<Layer>)
        ensures
            layers@ == seq![Layer::Embedding { rows: self.vocab_size, width: self.width }],
    {
        let mut layers: Vec<Layer> = Vec::new();
        layers.push(Layer::Embedding { rows: self.vocab_size, width: self.width });
        assert(layers@ =~= seq![Layer::Embedding { rows: self.vocab_size, width: self.width }]);
        layers
    }
}

/// The codes of the categorical features take consecutive blocks of the
/// category table, in the order of the features and each as large as its
/// feature has codes: row 0 is for the others, the first block begins at row 1,
/// and each next one where the one before it ends. Within a block, the row is
/// that of the code.
pub proof fn law_categories_take_consecutive_blocks(
    specs: Seq<FeatureSpec>,
    i: int,
    j: int,
    v: Single,
)
    requires
        0 <= i <= j < specs.len(),
        forall|k: int| i < k < j ==> (#[trigger] specs[k]) is Continuous,
    ensures
        specs[j] is Continuous ==> category_row(specs, j, v) == 0,
        specs[j] is Categorical && (forall|k: int| 0 <= k < j ==> (#[trigger] specs[k]) is Continuous)
            ==> offset_of(specs, j) == 1,
        specs[j] is Categorical && specs[i] is Categorical && i < j ==> offset_of(specs, j)
            == offset_of(specs, i) + specs[i]->cardinality,
        specs[j] is Categorical && value_code(v, specs[j]->cardinality) is Code ==> category_row(
            specs,
            j,
            v,
        ) == offset_of(specs, j) + value_code(v, specs[j]->cardinality)->0,
        !v.finite() ==> !(value_code(v, specs[j]->cardinality) is Code),
{
    if specs[j] is Categorical && (forall|k: int|
        0 <= k < j ==> (#[trigger] specs[k]) is Continuous) {
        lemma_codes_flat(specs, 0, j);
    }
    if i < j {
        lemma_codes_flat(specs, i + 1, j);
    }
}

proof fn lemma_codes_flat(specs: Seq<FeatureSpec>, i: int, j: int)
    requires
        0 <= i <= j <= specs.len(),
        forall|k: int| i <= k < j ==> (#[trigger] specs[k]) is Continuous,
    ensures
        codes_before(specs, j) == codes_before(specs, i),
    decreases j - i,
{
    if i < j {
        lemma_codes_flat(specs, i, j - 1);
    }
}

/// A feature takes a value as a category exactly if it is next to a whole number
/// below its number of codes; a continuous feature takes any value.
pub proof fn law_a_feature_takes_its_codes_only(spec: FeatureSpec, v: Single)
    ensures
        spec is Continuous ==> takes(spec, v),
        spec is Categorical && !v.finite() ==> !takes(spec, v),
        spec is Categorical && v.finite() ==> (takes(spec, v) <==> exists|m: int|
            #![trigger m * vstd::arithmetic::power2::pow2(149)]
            {
                let gap = v.units() - m * vstd::arithmetic::power2::pow2(149);
                let near = 13743895 * vstd::arithmetic::power2::pow2(112);
                &&& 0 <= m < spec->cardinality
                &&& -near < gap < near
                &&& v.bits < 0x8000_0000 || m == 0
            }),
{
    if spec is Categorical && v.finite() {
        let cardinality = spec->cardinality;
        if takes(spec, v) {
            let c = code_check(v, cardinality)->0;
            crate::single::law_a_code_is_the_number_next_to_the_value(v, cardinality, c as int);
            assert(c as int * vstd::arithmetic::power2::pow2(149) == c as int
                * vstd::arithmetic::power2::pow2(149));
        } else {
            assert forall|m: int|
                #![trigger m * vstd::arithmetic::power2::pow2(149)]
                !({
                    let gap = v.units() - m * vstd::arithmetic::power2::pow2(149);
                    let near = 13743895 * vstd::arithmetic::power2::pow2(112);
                    &&& 0 <= m < cardinality
                    &&& -near < gap < near
                    &&& v.bits < 0x8000_0000 || m == 0
                }) by {
                if 0 <= m {
                    crate::single::law_a_code_is_the_number_next_to_the_value(v, cardinality, m);
                }
            }
        }
    }
}

/// The layers of a value encoder end in vectors of the asked width; the first
/// takes the number itself, a Fourier encoder has a layer for its sines and one
/// for its cosines.
pub proof fn law_value_layers_give_the_width(config: ValueEncoderConfig, width: usize, i: int)
    requires
        0 <= i < config.layers_for(width).len(),
    ensures
        config.layers_for(width)[0] == (Layer::Linear { inputs: 1, outputs: width }),
        config.layers_for(width)[i] matches Layer::Linear { outputs, .. } && outputs == width,
        config.layers_for(width).len() == match config.kind {
            ValueEncoderKind::Linear => 1nat,
            ValueEncoderKind::Mlp => 2nat,
            ValueEncoderKind::Fourier => 3nat,
        },
        config.kind == ValueEncoderKind::Mlp && i == 1 ==> config.layers_for(width)[i]->inputs
            == width,
        config.kind == ValueEncoderKind::Fourier && i > 0 ==> config.layers_for(width)[i]->inputs
            == config.fourier_bands,
{
}

/// An encoder has one feature vector per feature, and a category vector per
/// code and one for padding, but only if some feature has codes.
pub proof fn law_category_table_has_a_row_per_code(encoder: NumericInputEncoder)
    requires
        encoder.wf(),
    ensures
        encoder.layer_seq()[0] == (Layer::Embedding {
            rows: encoder.specs.len(),
            width: encoder.width,
        }),
        encoder.layer_seq().last() is Embedding && encoder.layer_seq().len() > 1 <==> exists|j: int|
            0 <= j < encoder.specs@.len() && (#[trigger] encoder.specs@[j]) is Categorical,
        encoder.layer_seq().len() == encoder.value.layers_for(encoder.width).len() + if encoder.categories
            > 1 {
            2nat
        } else {
            1nat
        },
{
    let n = encoder.specs@.len() as int;
    assert(encoder.specs.len() == n);
    assert(encoder.value.layers_for(encoder.width).last() is Linear);
    if exists|j: int| 0 <= j < n && (#[trigger] encoder.specs@[j]) is Categorical {
        let j = choose|j: int| 0 <= j < n && (#[trigger] encoder.specs@[j]) is Categorical;
        lemma_codes_grow(encoder.specs@, j + 1, n);
        assert(encoder.specs@[j] matches FeatureSpec::Categorical { cardinality } ==> cardinality > 0);
    } else {
        assert forall|k: int| 0 <= k < n implies (#[trigger] encoder.specs@[k]) is Continuous by {}
        lemma_codes_flat(encoder.specs@, 0, n);
    }
}

} // verus!

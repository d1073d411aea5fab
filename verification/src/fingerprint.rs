//! Identities of datasets and models.
//!
//! A dataset is identified by what a model sees of it: its sizes, the types
//! of its inputs and its values in the order of rows and columns. Names,
//! units, paths and file formats do not count. A model is identified by its
//! configuration, weights and normalizers, bit by bit.

use crate::config::{ModelKind, NumericConfig};
use crate::data::{Matrix, Normalizer, NumericDataset};
use crate::encoders::{FeatureSpec, ValueEncoderKind};
use crate::schema::{dims_text, ModelSchema};
use crate::single::{Single, QUIET_NAN};
use vstd::bytes::{
    lemma_auto_spec_u32_to_from_le_bytes, lemma_auto_spec_u64_to_from_le_bytes,
    spec_u32_to_le_bytes, spec_u64_to_le_bytes, u32_to_le_bytes,
    u64_to_le_bytes,
};
use vstd::prelude::*;
use vstd::slice::slice_to_vec;
use vstd::utf8::encode_utf8;

verus! {

/// The BLAKE3 digest of a sequence of bytes.
pub uninterp spec fn blake3_digest(input: Seq<u8>) -> Seq<u8>;

/// `blake3::hash`: the 32 bytes of the digest depend on the input alone.
#[verifier::external_body]
fn digest(input: &Vec<u8>) -> (out: [u8; 32])
    ensures
        out@ == blake3_digest(input@),
{
    *blake3::hash(input).as_bytes()
}

pub const VERSION: u32 = 1;

pub const MODEL_FINGERPRINT_VERSION: u32 = 1;

/// One bit pattern for each number: one zero and one NaN.
pub open spec fn canonical(v: Single) -> u32 {
    if v.nan() {
        QUIET_NAN
    } else if v.position() == 0 {
        0
    } else {
        v.bits
    }
}

pub fn canonical_bits(value: Single) -> (bits: u32)
    ensures
        bits == canonical(value),
{
    if value.is_nan() {
        QUIET_NAN
    } else if value.bits == 0 || value.bits == 0x8000_0000 {
        0
    } else {
        value.bits
    }
}

pub open spec fn le64(n: nat) -> Seq<u8> {
    spec_u64_to_le_bytes(n as u64)
}

/// A feature type: its tag, then its number of codes.
pub open spec fn type_bytes(spec: FeatureSpec) -> Seq<u8> {
    match spec {
        FeatureSpec::Continuous => seq![0u8] + spec_u64_to_le_bytes(0),
        FeatureSpec::Categorical { cardinality } => seq![1u8] + spec_u64_to_le_bytes(
            cardinality as u64,
        ),
    }
}

pub open spec fn types_bytes(specs: Seq<FeatureSpec>) -> Seq<u8>
    decreases specs.len(),
{
    if specs.len() == 0 {
        Seq::empty()
    } else {
        types_bytes(specs.drop_last()) + type_bytes(specs.last())
    }
}

/// The exact bits of a list of values.
pub open spec fn words(values: Seq<u32>) -> Seq<u8>
    decreases values.len(),
{
    if values.len() == 0 {
        Seq::empty()
    } else {
        words(values.drop_last()) + spec_u32_to_le_bytes(values.last())
    }
}

pub open spec fn canonical_row(row: Seq<Single>) -> Seq<u32> {
    row.map_values(|v: Single| canonical(v))
}

pub open spec fn exact(values: Seq<Single>) -> Seq<u32> {
    values.map_values(|v: Single| v.bits)
}

/// The canonical bits of a table, row by row.
pub open spec fn table_bytes(rows: Seq<Seq<Single>>) -> Seq<u8>
    decreases rows.len(),
{
    if rows.len() == 0 {
        Seq::empty()
    } else {
        table_bytes(rows.drop_last()) + words(canonical_row(rows.last()))
    }
}

pub open spec fn dataset_domain() -> Seq<u8> {
    encode_utf8("transformer/dataset-fingerprint"@)
}

/// The bytes that identify a dataset.
pub open spec fn dataset_bytes(
    specs: Seq<FeatureSpec>,
    n_inputs: nat,
    n_outputs: nat,
    ins: Seq<Seq<Single>>,
    outs: Seq<Seq<Single>>,
) -> Seq<u8> {
    dataset_domain() + spec_u32_to_le_bytes(VERSION) + le64(ins.len()) + le64(n_inputs) + le64(
        n_outputs,
    ) + types_bytes(specs) + table_bytes(ins) + table_bytes(outs)
}

/// The identity of a dataset.
#[derive(Clone, Copy, Debug, PartialEq, Eq, Hash)]
pub struct DatasetFingerprint(pub [u8; 32]);

/// The identity of a model.
#[derive(Clone, Copy, Debug, PartialEq, Eq, Hash)]
pub struct ModelFingerprint(pub [u8; 32]);

pub open spec fn hex_digit(d: int) -> char {
    if d < 10 {
        (48 + d) as char
    } else {
        (87 + d) as char
    }
}

/// The first four bytes in lower-case hexadecimal.
pub open spec fn short_text(bytes: Seq<u8>) -> Seq<char> {
    Seq::new(
        8,
        |i: int|
            if i % 2 == 0 {
                hex_digit(bytes[i / 2] as int / 16)
            } else {
                hex_digit(bytes[i / 2] as int % 16)
            },
    )
}

fn hex_char(d: u8) -> (c: char)
    requires
        d < 16,
    ensures
        c == hex_digit(d as int),
{
    if d < 10 {
        (48 + d) as char
    } else {
        (87 + d) as char
    }
}

fn short_of(bytes: &[u8; 32]) -> (text: String)
    ensures
        text@ == short_text(bytes@),
{
    let mut text: String = String::new();
    let mut i: usize = 0;
    while i < 4
        invariant
            i <= 4,
            text@ == short_text(bytes@).take(2 * i),
        decreases 4 - i,
    {
        let b: u8 = bytes[i];
        text.push(hex_char(b / 16));
        text.push(hex_char(b % 16));
        assert(text@ =~= short_text(bytes@).take(2 * (i + 1)));
        i += 1;
    }
    assert(short_text(bytes@).take(8) =~= short_text(bytes@));
    text
}

fn push_bytes(out: &mut Vec<u8>, more: Vec<u8>)
    ensures
        final(out)@ == old(out)@ + more@,
{
    let mut more: Vec<u8> = more;
    out.append(&mut more);
}

fn push_u32(out: &mut Vec<u8>, n: u32)
    ensures
        final(out)@ == old(out)@ + spec_u32_to_le_bytes(n),
{
    push_bytes(out, u32_to_le_bytes(n));
}

fn push_u64(out: &mut Vec<u8>, n: usize)
    ensures
        final(out)@ == old(out)@ + le64(n as nat),
{
    push_bytes(out, u64_to_le_bytes(n as u64));
}

fn push_types(out: &mut Vec<u8>, specs: &Vec<FeatureSpec>)
    ensures
        final(out)@ == old(out)@ + types_bytes(specs@),
{
    let ghost start = out@;
    let mut i: usize = 0;
    assert(start + types_bytes(specs@.take(0)) =~= start);
    while i < specs.len()
        invariant
            i <= specs.len(),
            start == old(out)@,
            out@ == start + types_bytes(specs@.take(i as int)),
        decreases specs.len() - i,
    {
        let ghost before = out@;
        let (tag, count): (u8, usize) = match specs[i] {
            FeatureSpec::Continuous => (0, 0),
            FeatureSpec::Categorical { cardinality } => (1, cardinality),
        };
        out.push(tag);
        push_u64(out, count);
        proof {
            assert(specs@.take(i + 1).drop_last() =~= specs@.take(i as int));
            assert(out@ =~= before + type_bytes(specs@[i as int]));
            assert(start + (types_bytes(specs@.take(i as int)) + type_bytes(specs@[i as int]))
                =~= before + type_bytes(specs@[i as int]));
        }
        i += 1;
    }
    assert(specs@.take(i as int) =~= specs@);
}

fn push_canonical(out: &mut Vec<u8>, row: &Vec<Single>)
    ensures
        final(out)@ == old(out)@ + words(canonical_row(row@)),
{
    let ghost start = out@;
    let ghost all = canonical_row(row@);
    let mut i: usize = 0;
    assert(start + words(all.take(0)) =~= start);
    while i < row.len()
        invariant
            i <= row.len(),
            start == old(out)@,
            all == canonical_row(row@),
            out@ == start + words(all.take(i as int)),
        decreases row.len() - i,
    {
        let ghost before = out@;
        push_u32(out, canonical_bits(row[i]));
        proof {
            assert(all.take(i + 1).drop_last() =~= all.take(i as int));
            assert(all.take(i + 1).last() == canonical(row@[i as int]));
            assert(start + words(all.take(i + 1)) =~= before + spec_u32_to_le_bytes(
                all[i as int],
            ));
        }
        i += 1;
    }
    assert(all.take(i as int) =~= all);
}

fn push_exact(out: &mut Vec<u8>, values: &Vec<Single>)
    ensures
        final(out)@ == old(out)@ + words(exact(values@)),
{
    let ghost start = out@;
    let ghost all = exact(values@);
    let mut i: usize = 0;
    assert(start + words(all.take(0)) =~= start);
    while i < values.len()
        invariant
            i <= values.len(),
            start == old(out)@,
            all == exact(values@),
            out@ == start + words(all.take(i as int)),
        decreases values.len() - i,
    {
        let ghost before = out@;
        push_u32(out, values[i].bits);
        proof {
            assert(all.take(i + 1).drop_last() =~= all.take(i as int));
            assert(all.take(i + 1).last() == values@[i as int].bits);
            assert(start + words(all.take(i + 1)) =~= before + spec_u32_to_le_bytes(
                all[i as int],
            ));
        }
        i += 1;
    }
    assert(all.take(i as int) =~= all);
}

fn push_table(out: &mut Vec<u8>, table: &Matrix)
    ensures
        final(out)@ == old(out)@ + table_bytes(table@),
{
    let ghost start = out@;
    let mut r: usize = 0;
    assert(start + table_bytes(table@.take(0)) =~= start);
    while r < table.nrows()
        invariant
            r <= table@.len(),
            start == old(out)@,
            out@ == start + table_bytes(table@.take(r as int)),
        decreases table@.len() - r,
    {
        let ghost before = out@;
        push_canonical(out, &table.rows[r]);
        proof {
            assert(table@.take(r + 1).drop_last() =~= table@.take(r as int));
            assert(table@.take(r + 1).last() == table.rows@[r as int]@);
            assert(start + table_bytes(table@.take(r + 1)) =~= before + words(
                canonical_row(table.rows@[r as int]@),
            ));
        }
        r += 1;
    }
    assert(table@.take(r as int) =~= table@);
}

impl DatasetFingerprint {
    /// The bytes that identify data under a schema. Of the schema only the
    /// types of the inputs count. A schema without the columns of the data is
    /// refused.
    pub fn encoding(data: &NumericDataset, schema: &ModelSchema) -> (out: Result<Vec<u8>, String>)
        requires
            data.wf(),
        ensures
            match out {
                Ok(bytes) => schema@.inputs.len() == data.inputs.cols && schema@.outputs.len()
                    == data.outputs.cols && bytes@ == dataset_bytes(
                    schema@.specs(),
                    data.inputs.cols as nat,
                    data.outputs.cols as nat,
                    data.inputs@,
                    data.outputs@,
                ),
                Err(e) => !(schema@.inputs.len() == data.inputs.cols && schema@.outputs.len()
                    == data.outputs.cols) && e@ == dims_text(
                    data.inputs.cols as nat,
                    data.outputs.cols as nat,
                ),
            },
    {
        schema.check_dims(data.inputs.cols, data.outputs.cols)?;
        let mut bytes: Vec<u8> = slice_to_vec("transformer/dataset-fingerprint".as_bytes());
        push_u32(&mut bytes, VERSION);
        push_u64(&mut bytes, data.len());
        push_u64(&mut bytes, data.inputs.cols);
        push_u64(&mut bytes, data.outputs.cols);
        push_types(&mut bytes, &schema.feature_specs());
        push_table(&mut bytes, &data.inputs);
        push_table(&mut bytes, &data.outputs);
        Ok(bytes)
    }

    /// The identity of data under a schema. A schema without the columns of
    /// the data is refused.
    pub fn of(data: &NumericDataset, schema: &ModelSchema) -> (out: Result<
        DatasetFingerprint,
        String,
    >)
        requires
            data.wf(),
        ensures
            match out {
                Ok(fp) => schema@.inputs.len() == data.inputs.cols && schema@.outputs.len()
                    == data.outputs.cols && fp.0@ == blake3_digest(
                    dataset_bytes(
                        schema@.specs(),
                        data.inputs.cols as nat,
                        data.outputs.cols as nat,
                        data.inputs@,
                        data.outputs@,
                    ),
                ),
                Err(e) => !(schema@.inputs.len() == data.inputs.cols && schema@.outputs.len()
                    == data.outputs.cols) && e@ == dims_text(
                    data.inputs.cols as nat,
                    data.outputs.cols as nat,
                ),
            },
    {
        match DatasetFingerprint::encoding(data, schema) {
            Ok(bytes) => Ok(DatasetFingerprint(digest(&bytes))),
            Err(e) => Err(e),
        }
    }

    /// A short signature for reports.
    pub fn short(&self) -> (text: String)
        ensures
            text@ == short_text(self.0@),
    {
        short_of(&self.0)
    }

    pub fn as_bytes(&self) -> (bytes: &[u8; 32])
        ensures
            *bytes == self.0,
    {
        &self.0
    }

    /// Whether both are the identity of the same data.
    pub fn same_as(&self, other: &DatasetFingerprint) -> (yes: bool)
        ensures
            yes == (self.0@ == other.0@),
    {
        let mut i: usize = 0;
        while i < 32
            invariant
                i <= 32,
                forall|k: int| 0 <= k < i ==> self.0@[k] == other.0@[k],
            decreases 32 - i,
        {
            if self.0[i] != other.0[i] {
                return false;
            }
            i += 1;
        }
        assert(self.0@ =~= other.0@);
        true
    }

    pub fn from_bytes(bytes: [u8; 32]) -> (fp: DatasetFingerprint)
        ensures
            fp.0 == bytes,
    {
        DatasetFingerprint(bytes)
    }
}

/// A parameter of a model: its shape and its values in row-major order.
#[derive(Debug)]
pub struct Tensor {
    pub shape: Vec<usize>,
    pub values: Vec<Single>,
}

/// What a tensor holds.
pub struct TensorView {
    pub shape: Seq<usize>,
    pub values: Seq<Single>,
}

impl View for Tensor {
    type V = TensorView;

    open spec fn view(&self) -> TensorView {
        TensorView { shape: self.shape@, values: self.values@ }
    }
}

/// The number of values that a shape calls for.
pub open spec fn volume(shape: Seq<usize>) -> nat
    decreases shape.len(),
{
    if shape.len() == 0 {
        1
    } else {
        volume(shape.drop_last()) * shape.last() as nat
    }
}

impl TensorView {
    pub open spec fn wf(self) -> bool {
        self.values.len() == volume(self.shape)
    }
}

pub open spec fn tensors(list: Seq<Tensor>) -> Seq<TensorView> {
    list.map_values(|t: Tensor| t@)
}

/// The parts of a model that its identity rests on, beside its configuration
/// and normalizers: the parameters in the order of a checkpoint, the pruning
/// masks and the layer sizes of a KAN.
#[derive(Debug)]
pub struct ModelWeights {
    pub params: Vec<Tensor>,
    pub masks: Option<Vec<Tensor>>,
    pub layer_dims: Option<Vec<(usize, usize)>>,
}

pub open spec fn sizes_bytes(sizes: Seq<usize>) -> Seq<u8>
    decreases sizes.len(),
{
    if sizes.len() == 0 {
        Seq::empty()
    } else {
        sizes_bytes(sizes.drop_last()) + spec_u64_to_le_bytes(sizes.last() as u64)
    }
}

pub open spec fn tensor_bytes(t: TensorView) -> Seq<u8> {
    le64(t.shape.len()) + sizes_bytes(t.shape) + words(exact(t.values))
}

/// Numbered parameters one after another.
pub open spec fn params_bytes(list: Seq<TensorView>) -> Seq<u8>
    decreases list.len(),
{
    if list.len() == 0 {
        Seq::empty()
    } else {
        params_bytes(list.drop_last()) + le64((list.len() - 1) as nat) + tensor_bytes(list.last())
    }
}

pub open spec fn masks_bytes(list: Seq<TensorView>) -> Seq<u8>
    decreases list.len(),
{
    if list.len() == 0 {
        Seq::empty()
    } else {
        masks_bytes(list.drop_last()) + tensor_bytes(list.last())
    }
}

pub open spec fn pairs_bytes(list: Seq<(usize, usize)>) -> Seq<u8>
    decreases list.len(),
{
    if list.len() == 0 {
        Seq::empty()
    } else {
        pairs_bytes(list.drop_last()) + spec_u64_to_le_bytes(list.last().0 as u64)
            + spec_u64_to_le_bytes(list.last().1 as u64)
    }
}

pub open spec fn kind_tag(kind: ModelKind) -> u32 {
    match kind {
        ModelKind::Transformer => 0,
        ModelKind::Mlp => 1,
        ModelKind::Kan => 2,
    }
}

pub open spec fn encoder_tag(kind: ValueEncoderKind) -> u32 {
    match kind {
        ValueEncoderKind::Linear => 0,
        ValueEncoderKind::Mlp => 1,
        ValueEncoderKind::Fourier => 2,
    }
}

/// The sizes of a configuration in their fixed order.
pub open spec fn config_sizes(c: NumericConfig) -> Seq<usize> {
    seq![
        c.transformer.d_model,
        c.transformer.n_heads,
        c.transformer.n_enc_layers,
        c.transformer.n_dec_layers,
        c.transformer.d_ff,
        c.mlp_width,
        c.mlp_layers,
        c.kan.width,
        c.kan.layers,
        c.kan.grid,
        c.value.fourier_bands,
    ]
}

pub open spec fn config_bytes(c: NumericConfig) -> Seq<u8> {
    spec_u32_to_le_bytes(kind_tag(c.kind)) + sizes_bytes(config_sizes(c)) + spec_u32_to_le_bytes(
        c.transformer.ln_eps.bits,
    ) + spec_u32_to_le_bytes(c.value.fourier_scale.bits) + spec_u32_to_le_bytes(
        encoder_tag(c.value.kind),
    )
}

pub open spec fn stats_bytes(values: Seq<Single>) -> Seq<u8> {
    le64(values.len()) + words(exact(values))
}

/// What a normalizer holds.
pub struct NormView {
    pub mean: Seq<Single>,
    pub std: Seq<Single>,
    pub min: Seq<Single>,
    pub max: Seq<Single>,
    pub specs: Seq<FeatureSpec>,
}

pub open spec fn norm_view(n: Normalizer) -> NormView {
    NormView { mean: n.mean@, std: n.std@, min: n.min@, max: n.max@, specs: n.specs@ }
}

pub open spec fn norm_bytes(n: NormView) -> Seq<u8> {
    stats_bytes(n.mean) + stats_bytes(n.std) + stats_bytes(n.min) + stats_bytes(n.max) + (le64(
        n.specs.len(),
    ) + types_bytes(n.specs))
}

pub open spec fn model_domain() -> Seq<u8> {
    encode_utf8("transformer/model-fingerprint"@)
}

/// What a model's identity rests on. A model without masks or layer sizes
/// counts as one with none of them.
#[verifier::ext_equal]
pub struct ModelView {
    pub config: NumericConfig,
    pub params: Seq<TensorView>,
    pub masks: Seq<TensorView>,
    pub layer_dims: Seq<(usize, usize)>,
    pub in_norm: NormView,
    pub out_norm: NormView,
}

/// The bytes that identify a model.
pub open spec fn model_bytes(m: ModelView) -> Seq<u8> {
    model_domain() + spec_u32_to_le_bytes(MODEL_FINGERPRINT_VERSION) + config_bytes(m.config)
        + le64(m.in_norm.mean.len()) + le64(m.out_norm.mean.len()) + (le64(m.params.len())
        + params_bytes(m.params)) + (le64(m.masks.len()) + masks_bytes(m.masks)) + (le64(
        m.layer_dims.len(),
    ) + pairs_bytes(m.layer_dims)) + norm_bytes(m.in_norm) + norm_bytes(m.out_norm)
}

impl ModelWeights {
    pub open spec fn mask_views(&self) -> Seq<TensorView> {
        match self.masks {
            Some(list) => tensors(list@),
            None => Seq::empty(),
        }
    }

    pub open spec fn dims(&self) -> Seq<(usize, usize)> {
        match self.layer_dims {
            Some(list) => list@,
            None => Seq::empty(),
        }
    }
}

pub open spec fn model_view(
    model: ModelWeights,
    config: NumericConfig,
    in_norm: Normalizer,
    out_norm: Normalizer,
) -> ModelView {
    ModelView {
        config,
        params: tensors(model.params@),
        masks: model.mask_views(),
        layer_dims: model.dims(),
        in_norm: norm_view(in_norm),
        out_norm: norm_view(out_norm),
    }
}

fn push_sizes(out: &mut Vec<u8>, sizes: &Vec<usize>)
    ensures
        final(out)@ == old(out)@ + sizes_bytes(sizes@),
{
    let ghost start = out@;
    let mut i: usize = 0;
    assert(start + sizes_bytes(sizes@.take(0)) =~= start);
    while i < sizes.len()
        invariant
            i <= sizes.len(),
            start == old(out)@,
            out@ == start + sizes_bytes(sizes@.take(i as int)),
        decreases sizes.len() - i,
    {
        let ghost before = out@;
        push_u64(out, sizes[i]);
        proof {
            assert(sizes@.take(i + 1).drop_last() =~= sizes@.take(i as int));
            assert(start + sizes_bytes(sizes@.take(i + 1)) =~= before + le64(
                sizes@[i as int] as nat,
            ));
        }
        i += 1;
    }
    assert(sizes@.take(i as int) =~= sizes@);
}

fn push_tensor(out: &mut Vec<u8>, t: &Tensor)
    ensures
        final(out)@ == old(out)@ + tensor_bytes(t@),
{
    let ghost start = out@;
    push_u64(out, t.shape.len());
    push_sizes(out, &t.shape);
    push_exact(out, &t.values);
    assert(out@ =~= start + tensor_bytes(t@));
}

fn push_params(out: &mut Vec<u8>, params: &Vec<Tensor>)
    ensures
        final(out)@ == old(out)@ + (le64(params@.len()) + params_bytes(tensors(params@))),
{
    push_u64(out, params.len());
    let ghost start = out@;
    let ghost all = tensors(params@);
    let mut i: usize = 0;
    assert(start + params_bytes(all.take(0)) =~= start);
    while i < params.len()
        invariant
            i <= params.len(),
            all == tensors(params@),
            start == old(out)@ + le64(params@.len()),
            out@ == start + params_bytes(all.take(i as int)),
        decreases params.len() - i,
    {
        let ghost before = out@;
        push_u64(out, i);
        push_tensor(out, &params[i]);
        proof {
            assert(all.take(i + 1).drop_last() =~= all.take(i as int));
            assert(all.take(i + 1).last() == params@[i as int]@);
            assert(start + params_bytes(all.take(i + 1)) =~= before + le64(i as nat)
                + tensor_bytes(params@[i as int]@));
        }
        i += 1;
    }
    assert(all.take(i as int) =~= all);
    assert(out@ =~= old(out)@ + (le64(params@.len()) + params_bytes(all)));
}

fn push_masks(out: &mut Vec<u8>, masks: &Vec<Tensor>)
    ensures
        final(out)@ == old(out)@ + (le64(masks@.len()) + masks_bytes(tensors(masks@))),
{
    push_u64(out, masks.len());
    let ghost start = out@;
    let ghost all = tensors(masks@);
    let mut i: usize = 0;
    assert(start + masks_bytes(all.take(0)) =~= start);
    while i < masks.len()
        invariant
            i <= masks.len(),
            all == tensors(masks@),
            start == old(out)@ + le64(masks@.len()),
            out@ == start + masks_bytes(all.take(i as int)),
        decreases masks.len() - i,
    {
        let ghost before = out@;
        push_tensor(out, &masks[i]);
        proof {
            assert(all.take(i + 1).drop_last() =~= all.take(i as int));
            assert(all.take(i + 1).last() == masks@[i as int]@);
            assert(start + masks_bytes(all.take(i + 1)) =~= before + tensor_bytes(
                masks@[i as int]@,
            ));
        }
        i += 1;
    }
    assert(all.take(i as int) =~= all);
    assert(out@ =~= old(out)@ + (le64(masks@.len()) + masks_bytes(all)));
}

fn push_pairs(out: &mut Vec<u8>, dims: &Vec<(usize, usize)>)
    ensures
        final(out)@ == old(out)@ + (le64(dims@.len()) + pairs_bytes(dims@)),
{
    push_u64(out, dims.len());
    let ghost start = out@;
    let mut i: usize = 0;
    assert(start + pairs_bytes(dims@.take(0)) =~= start);
    while i < dims.len()
        invariant
            i <= dims.len(),
            start == old(out)@ + le64(dims@.len()),
            out@ == start + pairs_bytes(dims@.take(i as int)),
        decreases dims.len() - i,
    {
        let ghost before = out@;
        let pair: (usize, usize) = dims[i];
        push_u64(out, pair.0);
        push_u64(out, pair.1);
        proof {
            assert(dims@.take(i + 1).drop_last() =~= dims@.take(i as int));
            assert(start + pairs_bytes(dims@.take(i + 1)) =~= before + le64(pair.0 as nat) + le64(
                pair.1 as nat,
            ));
        }
        i += 1;
    }
    assert(dims@.take(i as int) =~= dims@);
    assert(out@ =~= old(out)@ + (le64(dims@.len()) + pairs_bytes(dims@)));
}

fn push_stats(out: &mut Vec<u8>, values: &Vec<Single>)
    ensures
        final(out)@ == old(out)@ + stats_bytes(values@),
{
    push_u64(out, values.len());
    push_exact(out, values);
    assert(out@ =~= old(out)@ + stats_bytes(values@));
}

fn push_norm(out: &mut Vec<u8>, norm: &Normalizer)
    ensures
        final(out)@ == old(out)@ + norm_bytes(norm_view(*norm)),
{
    push_stats(out, &norm.mean);
    push_stats(out, &norm.std);
    push_stats(out, &norm.min);
    push_stats(out, &norm.max);
    push_u64(out, norm.specs.len());
    push_types(out, &norm.specs);
    assert(out@ =~= old(out)@ + norm_bytes(norm_view(*norm)));
}

fn push_config(out: &mut Vec<u8>, c: &NumericConfig)
    ensures
        final(out)@ == old(out)@ + config_bytes(*c),
{
    let kind: u32 = match c.kind {
        ModelKind::Transformer => 0,
        ModelKind::Mlp => 1,
        ModelKind::Kan => 2,
    };
    let encoder: u32 = match c.value.kind {
        ValueEncoderKind::Linear => 0,
        ValueEncoderKind::Mlp => 1,
        ValueEncoderKind::Fourier => 2,
    };
    let mut sizes: Vec<usize> = Vec::new();
    sizes.push(c.transformer.d_model);
    sizes.push(c.transformer.n_heads);
    sizes.push(c.transformer.n_enc_layers);
    sizes.push(c.transformer.n_dec_layers);
    sizes.push(c.transformer.d_ff);
    sizes.push(c.mlp_width);
    sizes.push(c.mlp_layers);
    sizes.push(c.kan.width);
    sizes.push(c.kan.layers);
    sizes.push(c.kan.grid);
    sizes.push(c.value.fourier_bands);
    assert(sizes@ =~= config_sizes(*c));
    push_u32(out, kind);
    push_sizes(out, &sizes);
    push_u32(out, c.transformer.ln_eps.bits);
    push_u32(out, c.value.fourier_scale.bits);
    push_u32(out, encoder);
    assert(out@ =~= old(out)@ + config_bytes(*c));
}

impl ModelFingerprint {
    /// The bytes that identify a model.
    pub fn encoding(
        model: &ModelWeights,
        config: &NumericConfig,
        in_norm: &Normalizer,
        out_norm: &Normalizer,
    ) -> (bytes: Vec<u8>)
        ensures
            bytes@ == model_bytes(model_view(*model, *config, *in_norm, *out_norm)),
    {
        let ghost view = model_view(*model, *config, *in_norm, *out_norm);
        let mut bytes: Vec<u8> = slice_to_vec("transformer/model-fingerprint".as_bytes());
        push_u32(&mut bytes, MODEL_FINGERPRINT_VERSION);
        push_config(&mut bytes, config);
        push_u64(&mut bytes, in_norm.n_features());
        push_u64(&mut bytes, out_norm.n_features());
        push_params(&mut bytes, &model.params);
        match &model.masks {
            Some(masks) => {
                push_masks(&mut bytes, masks);
            },
            None => {
                push_masks(&mut bytes, &Vec::new());
                assert(tensors(Seq::empty()) =~= Seq::<TensorView>::empty());
            },
        }
        match &model.layer_dims {
            Some(dims) => {
                push_pairs(&mut bytes, dims);
            },
            None => {
                push_pairs(&mut bytes, &Vec::new());
            },
        }
        push_norm(&mut bytes, in_norm);
        push_norm(&mut bytes, out_norm);
        assert(bytes@ == model_bytes(view));
        bytes
    }

    /// The identity of a model with its configuration and normalizers.
    pub fn of(
        model: &ModelWeights,
        config: &NumericConfig,
        in_norm: &Normalizer,
        out_norm: &Normalizer,
    ) -> (fp: ModelFingerprint)
        ensures
            fp.0@ == blake3_digest(
                model_bytes(model_view(*model, *config, *in_norm, *out_norm)),
            ),
    {
        ModelFingerprint(digest(&ModelFingerprint::encoding(model, config, in_norm, out_norm)))
    }

    pub fn short(&self) -> (text: String)
        ensures
            text@ == short_text(self.0@),
    {
        short_of(&self.0)
    }

    pub fn as_bytes(&self) -> (bytes: &[u8; 32])
        ensures
            *bytes == self.0,
    {
        &self.0
    }

    pub fn from_bytes(bytes: [u8; 32]) -> (fp: ModelFingerprint)
        ensures
            fp.0 == bytes,
    {
        ModelFingerprint(bytes)
    }
}

proof fn lemma_peel(a: Seq<u8>, r: Seq<u8>, b: Seq<u8>, s: Seq<u8>)
    requires
        a + r == b + s,
        a.len() == b.len(),
    ensures
        a == b,
        r == s,
{
    let whole = a + r;
    assert(a =~= whole.take(a.len() as int));
    assert(b =~= whole.take(a.len() as int));
    assert(r =~= whole.skip(a.len() as int));
    assert(s =~= whole.skip(a.len() as int));
}

proof fn lemma_word(x: u32, y: u32)
    ensures
        spec_u32_to_le_bytes(x).len() == 4,
        spec_u32_to_le_bytes(x) == spec_u32_to_le_bytes(y) ==> x == y,
{
    lemma_auto_spec_u32_to_from_le_bytes();
    assert(spec_u32_to_le_bytes(x).len() == 4);
    assert(spec_u32_to_le_bytes(y).len() == 4);
}

proof fn lemma_long(x: u64, y: u64)
    ensures
        spec_u64_to_le_bytes(x).len() == 8,
        spec_u64_to_le_bytes(x) == spec_u64_to_le_bytes(y) ==> x == y,
{
    lemma_auto_spec_u64_to_from_le_bytes();
}

proof fn lemma_take_word(x: u32, r: Seq<u8>, y: u32, s: Seq<u8>)
    requires
        spec_u32_to_le_bytes(x) + r == spec_u32_to_le_bytes(y) + s,
    ensures
        x == y,
        r == s,
{
    lemma_word(x, y);
    lemma_word(y, x);
    lemma_peel(spec_u32_to_le_bytes(x), r, spec_u32_to_le_bytes(y), s);
}

proof fn lemma_take_count(x: nat, r: Seq<u8>, y: nat, s: Seq<u8>)
    requires
        le64(x) + r == le64(y) + s,
        x <= u64::MAX,
        y <= u64::MAX,
    ensures
        x == y,
        r == s,
{
    lemma_long(x as u64, y as u64);
    lemma_long(y as u64, x as u64);
    lemma_peel(le64(x), r, le64(y), s);
}

proof fn lemma_words_len(v: Seq<u32>)
    ensures
        words(v).len() == 4 * v.len(),
    decreases v.len(),
{
    if v.len() > 0 {
        lemma_words_len(v.drop_last());
        lemma_word(v.last(), v.last());
    }
}

proof fn lemma_take_words(x: Seq<u32>, r: Seq<u8>, y: Seq<u32>, s: Seq<u8>)
    requires
        words(x) + r == words(y) + s,
        x.len() == y.len(),
    ensures
        x == y,
        r == s,
    decreases x.len(),
{
    lemma_words_len(x);
    lemma_words_len(y);
    lemma_peel(words(x), r, words(y), s);
    if x.len() > 0 {
        let a = spec_u32_to_le_bytes(x.last());
        let b = spec_u32_to_le_bytes(y.last());
        lemma_take_words(x.drop_last(), a, y.drop_last(), b);
        lemma_word(x.last(), y.last());
        assert(x =~= x.drop_last().push(x.last()));
        assert(y =~= y.drop_last().push(y.last()));
    } else {
        assert(x =~= y);
    }
}

proof fn lemma_sizes_len(v: Seq<usize>)
    ensures
        sizes_bytes(v).len() == 8 * v.len(),
    decreases v.len(),
{
    if v.len() > 0 {
        lemma_sizes_len(v.drop_last());
        lemma_long(v.last() as u64, v.last() as u64);
    }
}

proof fn lemma_take_sizes(x: Seq<usize>, r: Seq<u8>, y: Seq<usize>, s: Seq<u8>)
    requires
        sizes_bytes(x) + r == sizes_bytes(y) + s,
        x.len() == y.len(),
    ensures
        x == y,
        r == s,
    decreases x.len(),
{
    lemma_sizes_len(x);
    lemma_sizes_len(y);
    lemma_peel(sizes_bytes(x), r, sizes_bytes(y), s);
    if x.len() > 0 {
        let a = spec_u64_to_le_bytes(x.last() as u64);
        let b = spec_u64_to_le_bytes(y.last() as u64);
        lemma_take_sizes(x.drop_last(), a, y.drop_last(), b);
        lemma_long(x.last() as u64, y.last() as u64);
        assert(x =~= x.drop_last().push(x.last()));
        assert(y =~= y.drop_last().push(y.last()));
    } else {
        assert(x =~= y);
    }
}

proof fn lemma_type(x: FeatureSpec, y: FeatureSpec)
    ensures
        type_bytes(x).len() == 9,
        type_bytes(x) == type_bytes(y) ==> x == y,
{
    let a = match x {
        FeatureSpec::Continuous => 0u64,
        FeatureSpec::Categorical { cardinality } => cardinality as u64,
    };
    let b = match y {
        FeatureSpec::Continuous => 0u64,
        FeatureSpec::Categorical { cardinality } => cardinality as u64,
    };
    lemma_long(a, b);
    lemma_long(b, a);
    if type_bytes(x) == type_bytes(y) {
        let tx = if x is Continuous { 0u8 } else { 1u8 };
        let ty = if y is Continuous { 0u8 } else { 1u8 };
        lemma_peel(
            seq![tx],
            spec_u64_to_le_bytes(a),
            seq![ty],
            spec_u64_to_le_bytes(b),
        );
        assert(seq![tx][0] == seq![ty][0]);
    }
}

proof fn lemma_types_len(v: Seq<FeatureSpec>)
    ensures
        types_bytes(v).len() == 9 * v.len(),
    decreases v.len(),
{
    if v.len() > 0 {
        lemma_types_len(v.drop_last());
        lemma_type(v.last(), v.last());
    }
}

proof fn lemma_take_types(x: Seq<FeatureSpec>, r: Seq<u8>, y: Seq<FeatureSpec>, s: Seq<u8>)
    requires
        types_bytes(x) + r == types_bytes(y) + s,
        x.len() == y.len(),
    ensures
        x == y,
        r == s,
    decreases x.len(),
{
    lemma_types_len(x);
    lemma_types_len(y);
    lemma_peel(types_bytes(x), r, types_bytes(y), s);
    if x.len() > 0 {
        lemma_take_types(x.drop_last(), type_bytes(x.last()), y.drop_last(), type_bytes(y.last()));
        lemma_type(x.last(), y.last());
        assert(x =~= x.drop_last().push(x.last()));
        assert(y =~= y.drop_last().push(y.last()));
    } else {
        assert(x =~= y);
    }
}

/// The canonical values of a table.
pub open spec fn canonical_table(rows: Seq<Seq<Single>>) -> Seq<Seq<u32>> {
    rows.map_values(|row: Seq<Single>| canonical_row(row))
}

proof fn lemma_table_len(rows: Seq<Seq<Single>>, columns: nat)
    requires
        forall|r: int| 0 <= r < rows.len() ==> (#[trigger] rows[r]).len() == columns,
    ensures
        table_bytes(rows).len() == 4 * (rows.len() * columns),
    decreases rows.len(),
{
    if rows.len() == 0 {
        assert(rows.len() * columns == 0) by (nonlinear_arith)
            requires
                rows.len() == 0,
        ;
    } else {
        let front = rows.drop_last();
        assert forall|r: int| 0 <= r < front.len() implies (#[trigger] front[r]).len() == columns by {
            assert(front[r] == rows[r]);
        }
        lemma_table_len(front, columns);
        lemma_words_len(canonical_row(rows.last()));
        assert(rows[rows.len() - 1].len() == columns);
        let n = rows.len();
        assert(n * columns == (n - 1) * columns + columns) by (nonlinear_arith);
    }
}

proof fn lemma_take_table(
    x: Seq<Seq<Single>>,
    r: Seq<u8>,
    y: Seq<Seq<Single>>,
    s: Seq<u8>,
    columns: nat,
)
    requires
        table_bytes(x) + r == table_bytes(y) + s,
        x.len() == y.len(),
        forall|k: int| 0 <= k < x.len() ==> (#[trigger] x[k]).len() == columns,
        forall|k: int| 0 <= k < y.len() ==> (#[trigger] y[k]).len() == columns,
    ensures
        canonical_table(x) == canonical_table(y),
        r == s,
    decreases x.len(),
{
    lemma_table_len(x, columns);
    lemma_table_len(y, columns);
    lemma_peel(table_bytes(x), r, table_bytes(y), s);
    if x.len() > 0 {
        let fx = x.drop_last();
        let fy = y.drop_last();
        assert(forall|k: int| 0 <= k < fx.len() ==> #[trigger] fx[k] == x[k]);
        assert(forall|k: int| 0 <= k < fy.len() ==> #[trigger] fy[k] == y[k]);
        let a = canonical_row(x.last());
        let b = canonical_row(y.last());
        lemma_take_table(fx, words(a), fy, words(b), columns);
        assert(x[x.len() - 1].len() == columns && y[y.len() - 1].len() == columns);
        assert(words(a) + Seq::<u8>::empty() =~= words(a));
        assert(words(b) + Seq::<u8>::empty() =~= words(b));
        lemma_take_words(a, Seq::empty(), b, Seq::empty());
        assert(canonical_table(x) =~= canonical_table(fx).push(a));
        assert(canonical_table(y) =~= canonical_table(fy).push(b));
    } else {
        assert(canonical_table(x) =~= canonical_table(y));
    }
}

/// The identifying bytes, read from the front.
spec fn dataset_layout(
    specs: Seq<FeatureSpec>,
    n_outputs: nat,
    ins: Seq<Seq<Single>>,
    outs: Seq<Seq<Single>>,
) -> Seq<u8> {
    le64(ins.len()) + (le64(specs.len()) + (le64(n_outputs) + (types_bytes(specs) + (table_bytes(ins)
        + table_bytes(outs)))))
}

proof fn lemma_dataset_layout(
    specs: Seq<FeatureSpec>,
    n_outputs: nat,
    ins: Seq<Seq<Single>>,
    outs: Seq<Seq<Single>>,
)
    ensures
        dataset_bytes(specs, specs.len(), n_outputs, ins, outs) == dataset_domain()
            + spec_u32_to_le_bytes(VERSION) + dataset_layout(specs, n_outputs, ins, outs),
{
    assert(dataset_bytes(specs, specs.len(), n_outputs, ins, outs) =~= dataset_domain()
        + spec_u32_to_le_bytes(VERSION) + dataset_layout(specs, n_outputs, ins, outs));
}

proof fn lemma_same_layout(
    specs1: Seq<FeatureSpec>,
    n_outputs1: nat,
    ins1: Seq<Seq<Single>>,
    outs1: Seq<Seq<Single>>,
    specs2: Seq<FeatureSpec>,
    n_outputs2: nat,
    ins2: Seq<Seq<Single>>,
    outs2: Seq<Seq<Single>>,
)
    requires
        dataset_layout(specs1, n_outputs1, ins1, outs1) == dataset_layout(
            specs2,
            n_outputs2,
            ins2,
            outs2,
        ),
        ins1.len() == outs1.len() <= u64::MAX,
        ins2.len() == outs2.len() <= u64::MAX,
        specs1.len() <= u64::MAX,
        specs2.len() <= u64::MAX,
        n_outputs1 <= u64::MAX,
        n_outputs2 <= u64::MAX,
        forall|r: int| 0 <= r < ins1.len() ==> (#[trigger] ins1[r]).len() == specs1.len(),
        forall|r: int| 0 <= r < ins2.len() ==> (#[trigger] ins2[r]).len() == specs2.len(),
        forall|r: int| 0 <= r < outs1.len() ==> (#[trigger] outs1[r]).len() == n_outputs1,
        forall|r: int| 0 <= r < outs2.len() ==> (#[trigger] outs2[r]).len() == n_outputs2,
    ensures
        specs1 == specs2,
        n_outputs1 == n_outputs2,
        canonical_table(ins1) == canonical_table(ins2),
        canonical_table(outs1) == canonical_table(outs2),
{
    let o1 = table_bytes(outs1);
    let o2 = table_bytes(outs2);
    let i1 = table_bytes(ins1) + o1;
    let i2 = table_bytes(ins2) + o2;
    let t1 = types_bytes(specs1) + i1;
    let t2 = types_bytes(specs2) + i2;
    let c1 = le64(n_outputs1) + t1;
    let c2 = le64(n_outputs2) + t2;
    lemma_take_count(ins1.len(), le64(specs1.len()) + c1, ins2.len(), le64(specs2.len()) + c2);
    lemma_take_count(specs1.len(), c1, specs2.len(), c2);
    lemma_take_count(n_outputs1, t1, n_outputs2, t2);
    lemma_take_types(specs1, i1, specs2, i2);
    lemma_take_table(ins1, o1, ins2, o2, specs1.len());
    assert(o1 + Seq::<u8>::empty() =~= o1);
    assert(o2 + Seq::<u8>::empty() =~= o2);
    lemma_take_table(outs1, Seq::empty(), outs2, Seq::empty(), n_outputs1);
}

/// Two datasets have the same identifying bytes exactly when a model sees the
/// same: equal sizes, equal input types, and equal values in every place,
/// with the two zeros taken as one number and all NaN as one.
pub proof fn law_dataset_bytes_identify_the_data(
    specs1: Seq<FeatureSpec>,
    n_outputs1: nat,
    ins1: Seq<Seq<Single>>,
    outs1: Seq<Seq<Single>>,
    specs2: Seq<FeatureSpec>,
    n_outputs2: nat,
    ins2: Seq<Seq<Single>>,
    outs2: Seq<Seq<Single>>,
)
    requires
        ins1.len() == outs1.len() <= u64::MAX,
        ins2.len() == outs2.len() <= u64::MAX,
        specs1.len() <= u64::MAX,
        specs2.len() <= u64::MAX,
        n_outputs1 <= u64::MAX,
        n_outputs2 <= u64::MAX,
        forall|r: int| 0 <= r < ins1.len() ==> (#[trigger] ins1[r]).len() == specs1.len(),
        forall|r: int| 0 <= r < ins2.len() ==> (#[trigger] ins2[r]).len() == specs2.len(),
        forall|r: int| 0 <= r < outs1.len() ==> (#[trigger] outs1[r]).len() == n_outputs1,
        forall|r: int| 0 <= r < outs2.len() ==> (#[trigger] outs2[r]).len() == n_outputs2,
    ensures
        dataset_bytes(specs1, specs1.len(), n_outputs1, ins1, outs1) == dataset_bytes(
            specs2,
            specs2.len(),
            n_outputs2,
            ins2,
            outs2,
        ) <==> (specs1 == specs2 && n_outputs1 == n_outputs2 && canonical_table(ins1)
            == canonical_table(ins2) && canonical_table(outs1) == canonical_table(outs2)),
{
    lemma_dataset_layout(specs1, n_outputs1, ins1, outs1);
    lemma_dataset_layout(specs2, n_outputs2, ins2, outs2);
    let e1 = dataset_bytes(specs1, specs1.len(), n_outputs1, ins1, outs1);
    let e2 = dataset_bytes(specs2, specs2.len(), n_outputs2, ins2, outs2);
    let head = dataset_domain() + spec_u32_to_le_bytes(VERSION);
    let l1 = dataset_layout(specs1, n_outputs1, ins1, outs1);
    let l2 = dataset_layout(specs2, n_outputs2, ins2, outs2);
    if e1 == e2 {
        lemma_peel(head, l1, head, l2);
        lemma_same_layout(specs1, n_outputs1, ins1, outs1, specs2, n_outputs2, ins2, outs2);
    }
    if specs1 == specs2 && n_outputs1 == n_outputs2 && canonical_table(ins1) == canonical_table(ins2)
        && canonical_table(outs1) == canonical_table(outs2) {
        lemma_table_of_canonical(ins1, ins2);
        lemma_table_of_canonical(outs1, outs2);
        assert(canonical_table(ins1).len() == ins1.len());
        assert(canonical_table(ins2).len() == ins2.len());
        assert(l1 == l2);
    }
}

proof fn lemma_table_of_canonical(x: Seq<Seq<Single>>, y: Seq<Seq<Single>>)
    requires
        canonical_table(x) == canonical_table(y),
    ensures
        table_bytes(x) == table_bytes(y),
    decreases x.len(),
{
    assert(canonical_table(x).len() == x.len() && canonical_table(y).len() == y.len());
    if x.len() > 0 {
        assert(canonical_table(x.drop_last()) =~= canonical_table(x).drop_last());
        assert(canonical_table(y.drop_last()) =~= canonical_table(y).drop_last());
        lemma_table_of_canonical(x.drop_last(), y.drop_last());
        assert(canonical_table(x)[x.len() - 1] == canonical_row(x.last()));
        assert(canonical_table(y)[y.len() - 1] == canonical_row(y.last()));
    }
}

proof fn lemma_take_tensor(x: TensorView, r: Seq<u8>, y: TensorView, s: Seq<u8>)
    requires
        tensor_bytes(x) + r == tensor_bytes(y) + s,
        x.wf() && y.wf(),
        x.shape.len() <= u64::MAX,
        y.shape.len() <= u64::MAX,
    ensures
        x == y,
        r == s,
{
    let vx = words(exact(x.values)) + r;
    let vy = words(exact(y.values)) + s;
    let dx = sizes_bytes(x.shape) + vx;
    let dy = sizes_bytes(y.shape) + vy;
    assert(tensor_bytes(x) + r =~= le64(x.shape.len()) + dx);
    assert(tensor_bytes(y) + s =~= le64(y.shape.len()) + dy);
    lemma_take_count(x.shape.len(), dx, y.shape.len(), dy);
    lemma_take_sizes(x.shape, vx, y.shape, vy);
    lemma_take_words(exact(x.values), r, exact(y.values), s);
    lemma_exact(x.values, y.values);
}

proof fn lemma_exact(x: Seq<Single>, y: Seq<Single>)
    requires
        exact(x) == exact(y),
    ensures
        x == y,
{
    assert(exact(x).len() == x.len() && exact(y).len() == y.len());
    assert forall|i: int| 0 <= i < x.len() implies x[i] == y[i] by {
        assert(exact(x)[i] == x[i].bits);
        assert(exact(y)[i] == y[i].bits);
    }
    assert(x =~= y);
}

/// Shapes and values fit each other in every tensor.
pub open spec fn sound_tensors(list: Seq<TensorView>) -> bool {
    forall|i: int|
        0 <= i < list.len() ==> (#[trigger] list[i]).wf() && list[i].shape.len() <= u64::MAX
}

/// The masks one by one from the front.
pub open spec fn masks_from(list: Seq<TensorView>, i: int) -> Seq<u8>
    decreases list.len() - i,
{
    if i < 0 || i >= list.len() {
        Seq::empty()
    } else {
        tensor_bytes(list[i]) + masks_from(list, i + 1)
    }
}

proof fn lemma_masks_split(list: Seq<TensorView>, i: int)
    requires
        0 <= i <= list.len(),
    ensures
        masks_bytes(list) == masks_bytes(list.take(i)) + masks_from(list, i),
    decreases list.len() - i,
{
    if i == list.len() {
        assert(list.take(i) =~= list);
        assert(masks_bytes(list) =~= masks_bytes(list) + Seq::<u8>::empty());
    } else {
        lemma_masks_split(list, i + 1);
        assert(list.take(i + 1).drop_last() =~= list.take(i));
        assert(list.take(i + 1).last() == list[i]);
        assert(masks_bytes(list.take(i)) + (tensor_bytes(list[i]) + masks_from(list, i + 1))
            =~= masks_bytes(list.take(i)) + tensor_bytes(list[i]) + masks_from(list, i + 1));
    }
}

proof fn lemma_take_masks(
    x: Seq<TensorView>,
    r: Seq<u8>,
    y: Seq<TensorView>,
    s: Seq<u8>,
    i: int,
)
    requires
        masks_from(x, i) + r == masks_from(y, i) + s,
        x.len() == y.len(),
        0 <= i <= x.len(),
        sound_tensors(x),
        sound_tensors(y),
    ensures
        forall|k: int| i <= k < x.len() ==> x[k] == #[trigger] y[k],
        r == s,
    decreases x.len() - i,
{
    if i < x.len() {
        let rx = masks_from(x, i + 1) + r;
        let ry = masks_from(y, i + 1) + s;
        assert(masks_from(x, i) + r =~= tensor_bytes(x[i]) + rx);
        assert(masks_from(y, i) + s =~= tensor_bytes(y[i]) + ry);
        lemma_take_tensor(x[i], rx, y[i], ry);
        lemma_take_masks(x, r, y, s, i + 1);
    } else {
        assert(r =~= Seq::<u8>::empty() + r);
        assert(s =~= Seq::<u8>::empty() + s);
    }
}

/// The numbered parameters one by one from the front.
pub open spec fn params_from(list: Seq<TensorView>, i: int) -> Seq<u8>
    decreases list.len() - i,
{
    if i < 0 || i >= list.len() {
        Seq::empty()
    } else {
        le64(i as nat) + tensor_bytes(list[i]) + params_from(list, i + 1)
    }
}

proof fn lemma_params_split(list: Seq<TensorView>, i: int)
    requires
        0 <= i <= list.len(),
    ensures
        params_bytes(list) == params_bytes(list.take(i)) + params_from(list, i),
    decreases list.len() - i,
{
    if i == list.len() {
        assert(list.take(i) =~= list);
        assert(params_bytes(list) =~= params_bytes(list) + Seq::<u8>::empty());
    } else {
        lemma_params_split(list, i + 1);
        assert(list.take(i + 1).drop_last() =~= list.take(i));
        assert(list.take(i + 1).last() == list[i]);
        assert(params_bytes(list.take(i)) + (le64(i as nat) + tensor_bytes(list[i]) + params_from(
            list,
            i + 1,
        )) =~= params_bytes(list.take(i)) + le64(i as nat) + tensor_bytes(list[i])
            + params_from(list, i + 1));
    }
}

proof fn lemma_take_params(
    x: Seq<TensorView>,
    r: Seq<u8>,
    y: Seq<TensorView>,
    s: Seq<u8>,
    i: int,
)
    requires
        params_from(x, i) + r == params_from(y, i) + s,
        x.len() == y.len(),
        0 <= i <= x.len() <= u64::MAX,
        sound_tensors(x),
        sound_tensors(y),
    ensures
        forall|k: int| i <= k < x.len() ==> x[k] == #[trigger] y[k],
        r == s,
    decreases x.len() - i,
{
    if i < x.len() {
        let rx = params_from(x, i + 1) + r;
        let ry = params_from(y, i + 1) + s;
        assert(params_from(x, i) + r =~= le64(i as nat) + (tensor_bytes(x[i]) + rx));
        assert(params_from(y, i) + s =~= le64(i as nat) + (tensor_bytes(y[i]) + ry));
        lemma_take_count(i as nat, tensor_bytes(x[i]) + rx, i as nat, tensor_bytes(y[i]) + ry);
        lemma_take_tensor(x[i], rx, y[i], ry);
        lemma_take_params(x, r, y, s, i + 1);
    } else {
        assert(r =~= Seq::<u8>::empty() + r);
        assert(s =~= Seq::<u8>::empty() + s);
    }
}

/// The pairs of a list as one list of sizes.
pub open spec fn flat_pairs(list: Seq<(usize, usize)>) -> Seq<usize> {
    Seq::new(
        2 * list.len(),
        |i: int|
            if i % 2 == 0 {
                list[i / 2].0
            } else {
                list[i / 2].1
            },
    )
}

proof fn lemma_pairs_as_sizes(list: Seq<(usize, usize)>)
    ensures
        pairs_bytes(list) == sizes_bytes(flat_pairs(list)),
    decreases list.len(),
{
    let flat = flat_pairs(list);
    if list.len() > 0 {
        let front = list.drop_last();
        lemma_pairs_as_sizes(front);
        assert(flat.drop_last().drop_last() =~= flat_pairs(front));
        assert(flat.last() == list.last().1);
        assert(flat.drop_last().last() == list.last().0);
        assert(sizes_bytes(flat) == sizes_bytes(flat.drop_last()) + spec_u64_to_le_bytes(
            list.last().1 as u64,
        ));
        assert(sizes_bytes(flat.drop_last()) == sizes_bytes(flat_pairs(front))
            + spec_u64_to_le_bytes(list.last().0 as u64));
    } else {
        assert(flat =~= Seq::<usize>::empty());
    }
}

proof fn lemma_take_pairs(
    x: Seq<(usize, usize)>,
    r: Seq<u8>,
    y: Seq<(usize, usize)>,
    s: Seq<u8>,
)
    requires
        pairs_bytes(x) + r == pairs_bytes(y) + s,
        x.len() == y.len(),
    ensures
        x == y,
        r == s,
{
    lemma_pairs_as_sizes(x);
    lemma_pairs_as_sizes(y);
    lemma_take_sizes(flat_pairs(x), r, flat_pairs(y), s);
    assert forall|i: int| 0 <= i < x.len() implies x[i] == y[i] by {
        assert(flat_pairs(x)[2 * i] == x[i].0 && flat_pairs(x)[2 * i + 1] == x[i].1);
        assert(flat_pairs(y)[2 * i] == y[i].0 && flat_pairs(y)[2 * i + 1] == y[i].1);
    }
    assert(x =~= y);
}

proof fn lemma_take_stats(x: Seq<Single>, r: Seq<u8>, y: Seq<Single>, s: Seq<u8>)
    requires
        stats_bytes(x) + r == stats_bytes(y) + s,
        x.len() <= u64::MAX,
        y.len() <= u64::MAX,
    ensures
        x == y,
        r == s,
{
    let vx = words(exact(x)) + r;
    let vy = words(exact(y)) + s;
    assert(stats_bytes(x) + r =~= le64(x.len()) + vx);
    assert(stats_bytes(y) + s =~= le64(y.len()) + vy);
    lemma_take_count(x.len(), vx, y.len(), vy);
    lemma_take_words(exact(x), r, exact(y), s);
    lemma_exact(x, y);
}

impl NormView {
    pub open spec fn fits(self) -> bool {
        &&& self.mean.len() <= u64::MAX
        &&& self.std.len() <= u64::MAX
        &&& self.min.len() <= u64::MAX
        &&& self.max.len() <= u64::MAX
        &&& self.specs.len() <= u64::MAX
    }
}

proof fn lemma_take_norm(x: NormView, r: Seq<u8>, y: NormView, s: Seq<u8>)
    requires
        norm_bytes(x) + r == norm_bytes(y) + s,
        x.fits(),
        y.fits(),
    ensures
        x == y,
        r == s,
{
    let tx = types_bytes(x.specs) + r;
    let ty = types_bytes(y.specs) + s;
    let ex = le64(x.specs.len()) + tx;
    let ey = le64(y.specs.len()) + ty;
    let dx = stats_bytes(x.max) + ex;
    let dy = stats_bytes(y.max) + ey;
    let cx = stats_bytes(x.min) + dx;
    let cy = stats_bytes(y.min) + dy;
    let bx = stats_bytes(x.std) + cx;
    let by_ = stats_bytes(y.std) + cy;
    assert(norm_bytes(x) + r =~= stats_bytes(x.mean) + bx);
    assert(norm_bytes(y) + s =~= stats_bytes(y.mean) + by_);
    lemma_take_stats(x.mean, bx, y.mean, by_);
    lemma_take_stats(x.std, cx, y.std, cy);
    lemma_take_stats(x.min, dx, y.min, dy);
    lemma_take_stats(x.max, ex, y.max, ey);
    lemma_take_count(x.specs.len(), tx, y.specs.len(), ty);
    lemma_take_types(x.specs, r, y.specs, s);
}

proof fn lemma_config_split(c: NumericConfig, r: Seq<u8>)
    ensures
        config_bytes(c) + r == spec_u32_to_le_bytes(kind_tag(c.kind)) + (sizes_bytes(
            config_sizes(c),
        ) + (spec_u32_to_le_bytes(c.transformer.ln_eps.bits) + (spec_u32_to_le_bytes(
            c.value.fourier_scale.bits,
        ) + (spec_u32_to_le_bytes(encoder_tag(c.value.kind)) + r)))),
{
    let k = spec_u32_to_le_bytes(kind_tag(c.kind));
    let z = sizes_bytes(config_sizes(c));
    let e = spec_u32_to_le_bytes(c.transformer.ln_eps.bits);
    let f = spec_u32_to_le_bytes(c.value.fourier_scale.bits);
    let v = spec_u32_to_le_bytes(encoder_tag(c.value.kind));
    lemma_regroup(k + z + e + f, v, r);
    lemma_regroup(k + z + e, f, v + r);
    lemma_regroup(k + z, e, f + (v + r));
    lemma_regroup(k, z, e + (f + (v + r)));
}

proof fn lemma_take_config(x: NumericConfig, r: Seq<u8>, y: NumericConfig, s: Seq<u8>)
    requires
        config_bytes(x) + r == config_bytes(y) + s,
    ensures
        x == y,
        r == s,
{
    let ex = spec_u32_to_le_bytes(encoder_tag(x.value.kind)) + r;
    let ey = spec_u32_to_le_bytes(encoder_tag(y.value.kind)) + s;
    let dx = spec_u32_to_le_bytes(x.value.fourier_scale.bits) + ex;
    let dy = spec_u32_to_le_bytes(y.value.fourier_scale.bits) + ey;
    let cx = spec_u32_to_le_bytes(x.transformer.ln_eps.bits) + dx;
    let cy = spec_u32_to_le_bytes(y.transformer.ln_eps.bits) + dy;
    let bx = sizes_bytes(config_sizes(x)) + cx;
    let by_ = sizes_bytes(config_sizes(y)) + cy;
    lemma_config_split(x, r);
    lemma_config_split(y, s);
    lemma_take_word(kind_tag(x.kind), bx, kind_tag(y.kind), by_);
    lemma_take_sizes(config_sizes(x), cx, config_sizes(y), cy);
    lemma_take_word(x.transformer.ln_eps.bits, dx, y.transformer.ln_eps.bits, dy);
    lemma_take_word(x.value.fourier_scale.bits, ex, y.value.fourier_scale.bits, ey);
    lemma_take_word(encoder_tag(x.value.kind), r, encoder_tag(y.value.kind), s);
    let a = config_sizes(x);
    let b = config_sizes(y);
    assert(a[0] == b[0] && a[1] == b[1] && a[2] == b[2] && a[3] == b[3] && a[4] == b[4]);
    assert(a[5] == b[5] && a[6] == b[6] && a[7] == b[7] && a[8] == b[8] && a[9] == b[9]);
    assert(a[10] == b[10]);
}

impl ModelView {
    /// All sizes can be counted, and every tensor has the values its shape
    /// calls for.
    pub open spec fn wf(self) -> bool {
        &&& self.params.len() <= u64::MAX
        &&& self.masks.len() <= u64::MAX
        &&& self.layer_dims.len() <= u64::MAX
        &&& sound_tensors(self.params)
        &&& sound_tensors(self.masks)
        &&& self.in_norm.fits()
        &&& self.out_norm.fits()
    }
}

/// What follows the configuration and the numbers of features.
pub open spec fn weight_bytes(m: ModelView) -> Seq<u8> {
    le64(m.params.len()) + (params_from(m.params, 0) + (le64(m.masks.len()) + (masks_from(
        m.masks,
        0,
    ) + (le64(m.layer_dims.len()) + (pairs_bytes(m.layer_dims) + (norm_bytes(m.in_norm) + (
    norm_bytes(m.out_norm) + Seq::<u8>::empty())))))))
}

proof fn lemma_model_bytes_split(m: ModelView)
    ensures
        model_bytes(m) == model_domain() + spec_u32_to_le_bytes(MODEL_FINGERPRINT_VERSION) + (
        config_bytes(m.config) + (le64(m.in_norm.mean.len()) + (le64(m.out_norm.mean.len())
            + weight_bytes(m)))),
{
    lemma_params_split(m.params, 0);
    lemma_masks_split(m.masks, 0);
    assert(m.params.take(0) =~= Seq::<TensorView>::empty());
    assert(m.masks.take(0) =~= Seq::<TensorView>::empty());
    assert(params_bytes(m.params) =~= params_from(m.params, 0));
    assert(masks_bytes(m.masks) =~= masks_from(m.masks, 0));
    let a = le64(m.params.len());
    let b = params_from(m.params, 0);
    let c = le64(m.masks.len());
    let d = masks_from(m.masks, 0);
    let e = le64(m.layer_dims.len());
    let f = pairs_bytes(m.layer_dims);
    let g = norm_bytes(m.in_norm);
    let h = norm_bytes(m.out_norm);
    let domain = model_domain() + spec_u32_to_le_bytes(MODEL_FINGERPRINT_VERSION);
    let k = config_bytes(m.config);
    let l = le64(m.in_norm.mean.len());
    let o = le64(m.out_norm.mean.len());
    let head = domain + k + l + o;
    let none = Seq::<u8>::empty();
    assert(model_bytes(m) == head + (a + b) + (c + d) + (e + f) + g + h);
    assert(h + none =~= h);
    lemma_regroup(head + (a + b) + (c + d) + (e + f), g, h);
    lemma_regroup(head + (a + b) + (c + d), e + f, g + h);
    lemma_regroup(e, f, g + h);
    lemma_regroup(head + (a + b), c + d, e + (f + (g + h)));
    lemma_regroup(c, d, e + (f + (g + h)));
    lemma_regroup(head, a + b, c + (d + (e + (f + (g + h)))));
    lemma_regroup(a, b, c + (d + (e + (f + (g + h)))));
    let w = weight_bytes(m);
    assert(model_bytes(m) == head + w);
    lemma_regroup(domain + k + l, o, w);
    lemma_regroup(domain + k, l, o + w);
    lemma_regroup(domain, k, l + (o + w));
}

proof fn lemma_regroup(x: Seq<u8>, y: Seq<u8>, z: Seq<u8>)
    ensures
        x + y + z == x + (y + z),
{
    assert(x + y + z =~= x + (y + z));
}

proof fn lemma_take_weights(x: ModelView, y: ModelView)
    requires
        x.wf(),
        y.wf(),
        weight_bytes(x) == weight_bytes(y),
    ensures
        x.params == y.params,
        x.masks == y.masks,
        x.layer_dims == y.layer_dims,
        x.in_norm == y.in_norm,
        x.out_norm == y.out_norm,
{
    let none = Seq::<u8>::empty();
    let hx = norm_bytes(x.out_norm) + none;
    let hy = norm_bytes(y.out_norm) + none;
    let gx = norm_bytes(x.in_norm) + hx;
    let gy = norm_bytes(y.in_norm) + hy;
    let fx = pairs_bytes(x.layer_dims) + gx;
    let fy = pairs_bytes(y.layer_dims) + gy;
    let ex = le64(x.layer_dims.len()) + fx;
    let ey = le64(y.layer_dims.len()) + fy;
    let dx = masks_from(x.masks, 0) + ex;
    let dy = masks_from(y.masks, 0) + ey;
    let cx = le64(x.masks.len()) + dx;
    let cy = le64(y.masks.len()) + dy;
    let bx = params_from(x.params, 0) + cx;
    let by_ = params_from(y.params, 0) + cy;
    lemma_take_count(x.params.len(), bx, y.params.len(), by_);
    lemma_take_params(x.params, cx, y.params, cy, 0);
    assert(x.params =~= y.params);
    lemma_take_count(x.masks.len(), dx, y.masks.len(), dy);
    lemma_take_masks(x.masks, ex, y.masks, ey, 0);
    assert(x.masks =~= y.masks);
    lemma_take_count(x.layer_dims.len(), fx, y.layer_dims.len(), fy);
    lemma_take_pairs(x.layer_dims, gx, y.layer_dims, gy);
    lemma_take_norm(x.in_norm, hx, y.in_norm, hy);
    lemma_take_norm(x.out_norm, none, y.out_norm, none);
}

/// Two models with the same identifying bytes agree in every part, bit by
/// bit: configuration, weights, masks, layer sizes and normalizers.
pub proof fn law_model_bytes_identify_the_model(x: ModelView, y: ModelView)
    requires
        x.wf(),
        y.wf(),
        model_bytes(x) == model_bytes(y),
    ensures
        x == y,
{
    lemma_model_bytes_split(x);
    lemma_model_bytes_split(y);
    let head = model_domain() + spec_u32_to_le_bytes(MODEL_FINGERPRINT_VERSION);
    let cx = le64(x.out_norm.mean.len()) + weight_bytes(x);
    let cy = le64(y.out_norm.mean.len()) + weight_bytes(y);
    let bx = le64(x.in_norm.mean.len()) + cx;
    let by_ = le64(y.in_norm.mean.len()) + cy;
    let ax = config_bytes(x.config) + bx;
    let ay = config_bytes(y.config) + by_;
    lemma_peel(head, ax, head, ay);
    lemma_take_config(x.config, bx, y.config, by_);
    lemma_take_count(x.in_norm.mean.len(), cx, y.in_norm.mean.len(), cy);
    lemma_take_count(x.out_norm.mean.len(), weight_bytes(x), y.out_norm.mean.len(), weight_bytes(y));
    lemma_take_weights(x, y);
}

/// Equal numbers have one pattern and different numbers different ones; both
/// zeros are equal, and everything that is no number counts as one.
pub proof fn law_equal_numbers_have_one_pattern(a: Single, b: Single)
    ensures
        canonical(a) == canonical(b) <==> a.equals(b) || (a.nan() && b.nan()),
        !a.nan() && a.bits != 0x8000_0000 ==> canonical(a) == a.bits,
{
}

/// The short form of an identity is eight lower-case hexadecimal digits, which
/// two identities share exactly if they share their first four bytes.
pub proof fn law_the_short_form_shows_four_bytes(a: Seq<u8>, b: Seq<u8>)
    requires
        a.len() >= 4,
        b.len() >= 4,
    ensures
        short_text(a).len() == 8,
        forall|i: int|
            0 <= i < 8 ==> '0' <= #[trigger] short_text(a)[i] <= '9' || 'a' <= short_text(a)[i]
                <= 'f',
        short_text(a) == short_text(b) <==> a.take(4) == b.take(4),
{
    if short_text(a) == short_text(b) {
        assert forall|k: int| 0 <= k < 4 implies a[k] == b[k] by {
            let x = short_text(a)[2 * k];
            let y = short_text(a)[2 * k + 1];
            assert(x == short_text(b)[2 * k] && y == short_text(b)[2 * k + 1]);
            lemma_hex(a[k] as int / 16, b[k] as int / 16);
            lemma_hex(a[k] as int % 16, b[k] as int % 16);
        }
        assert(a.take(4) =~= b.take(4));
    }
    if a.take(4) == b.take(4) {
        assert forall|k: int| 0 <= k < 4 implies a[k] == b[k] by {
            assert(a.take(4)[k] == b.take(4)[k]);
        }
        assert(short_text(a) =~= short_text(b));
    }
}

proof fn lemma_hex(d: int, e: int)
    requires
        0 <= d < 16,
        0 <= e < 16,
    ensures
        hex_digit(d) == hex_digit(e) <==> d == e,
{
    assert(hex_digit(d) as int == if d < 10 {
        48 + d
    } else {
        87 + d
    });
    assert(hex_digit(e) as int == if e < 10 {
        48 + e
    } else {
        87 + e
    });
}

/// Models with the same identifying bytes agree in every weight and its shape,
/// in every mask and layer size, and in all that their normalizers hold.
pub proof fn law_models_of_one_identity_agree(
    a: (ModelWeights, NumericConfig, Normalizer, Normalizer),
    b: (ModelWeights, NumericConfig, Normalizer, Normalizer),
    k: int,
)
    requires
        model_view(a.0, a.1, a.2, a.3).wf(),
        model_view(b.0, b.1, b.2, b.3).wf(),
        model_bytes(model_view(a.0, a.1, a.2, a.3)) == model_bytes(
            model_view(b.0, b.1, b.2, b.3),
        ),
    ensures
        a.1 == b.1,
        a.0.params@.len() == b.0.params@.len(),
        0 <= k < a.0.params@.len() ==> a.0.params@[k].shape@ == b.0.params@[k].shape@
            && a.0.params@[k].values@ == b.0.params@[k].values@,
        match (a.0.masks, b.0.masks) {
            (Some(x), Some(y)) => x@.len() == y@.len() && (0 <= k < x@.len() ==> x@[k].shape@
                == y@[k].shape@ && x@[k].values@ == y@[k].values@),
            (Some(x), None) => x@.len() == 0,
            (None, Some(y)) => y@.len() == 0,
            (None, None) => true,
        },
        match (a.0.layer_dims, b.0.layer_dims) {
            (Some(x), Some(y)) => x@ == y@,
            (Some(x), None) => x@.len() == 0,
            (None, Some(y)) => y@.len() == 0,
            (None, None) => true,
        },
        a.2.mean@ == b.2.mean@ && a.2.std@ == b.2.std@ && a.2.min@ == b.2.min@ && a.2.max@
            == b.2.max@ && a.2.specs@ == b.2.specs@,
        a.3.mean@ == b.3.mean@ && a.3.std@ == b.3.std@ && a.3.min@ == b.3.min@ && a.3.max@
            == b.3.max@ && a.3.specs@ == b.3.specs@,
{
    let x = model_view(a.0, a.1, a.2, a.3);
    let y = model_view(b.0, b.1, b.2, b.3);
    law_model_bytes_identify_the_model(x, y);
    assert(x.params.len() == y.params.len() && x.masks.len() == y.masks.len());
    if 0 <= k < a.0.params@.len() {
        assert(x.params[k] == a.0.params@[k]@ && y.params[k] == b.0.params@[k]@);
    }
    if a.0.masks is Some && b.0.masks is Some && 0 <= k < a.0.masks->0@.len() {
        assert(x.masks[k] == a.0.masks->0@[k]@ && y.masks[k] == b.0.masks->0@[k]@);
    }
}

} // verus!

//! Hyperparameters of a model.

use crate::encoders::ValueEncoderConfig;
use crate::single::Single;
use vstd::prelude::*;

verus! {

/// The single-precision value of 0.00001.
pub const LN_EPS: u32 = 0x3727_c5ac;

/// Sizes of the transformer core.
#[derive(Clone, Copy, Debug, PartialEq, Eq, Structural)]
pub struct ModelConfig {
    pub d_model: usize,
    pub n_heads: usize,
    pub n_enc_layers: usize,
    pub n_dec_layers: usize,
    pub d_ff: usize,
    pub ln_eps: Single,
}

/// A small model for quick iterations.
pub open spec fn default_model() -> ModelConfig {
    ModelConfig {
        d_model: 128,
        n_heads: 4,
        n_enc_layers: 2,
        n_dec_layers: 2,
        d_ff: 512,
        ln_eps: Single { bits: LN_EPS },
    }
}

impl Default for ModelConfig {
    fn default() -> (config: ModelConfig)
        ensures
            config == default_model(),
    {
        ModelConfig {
            d_model: 128,
            n_heads: 4,
            n_enc_layers: 2,
            n_dec_layers: 2,
            d_ff: 512,
            ln_eps: Single { bits: LN_EPS },
        }
    }
}

/// The kinds of numeric models.
#[derive(Clone, Copy, Debug, PartialEq, Eq, Structural)]
pub enum ModelKind {
    Transformer,
    Mlp,
    Kan,
}

#[derive(Clone, Copy, Debug, PartialEq, Eq, Structural)]
pub struct KanConfig {
    pub width: usize,
    pub layers: usize,
    pub grid: usize,
}

pub open spec fn default_kan() -> KanConfig {
    KanConfig { width: 16, layers: 2, grid: 8 }
}

impl Default for KanConfig {
    fn default() -> (config: KanConfig)
        ensures
            config == default_kan(),
    {
        KanConfig { width: 16, layers: 2, grid: 8 }
    }
}

/// Everything that fixes the shape of a numeric model.
#[derive(Clone, Copy, Debug, PartialEq, Eq, Structural)]
pub struct NumericConfig {
    pub kind: ModelKind,
    pub transformer: ModelConfig,
    pub value: ValueEncoderConfig,
    pub mlp_width: usize,
    pub mlp_layers: usize,
    pub kan: KanConfig,
}

/// The model that is made where nothing is set: its heads share its width
/// evenly, and its feed-forward layer is four times as wide.
pub proof fn law_the_small_model_fits_together()
    ensures
        default_model().d_model == 128,
        default_model().n_heads == 4,
        default_model().d_model as int % default_model().n_heads as int == 0,
        default_model().d_ff == 4 * default_model().d_model,
        default_model().n_enc_layers == 2,
        default_model().n_dec_layers == 2,
        default_model().ln_eps == (Single { bits: 0x3727_c5ac }),
        default_kan() == (KanConfig { width: 16, layers: 2, grid: 8 }),
{
}

} // verus!

//! The transformer core: its layers in order, the causal mask, and how a
//! sequence passes through the encoder and the decoder.

use crate::config::ModelConfig;
use crate::data::Matrix;
use crate::encoders::Layer;
use crate::single::Single;
use vstd::prelude::*;

verus! {

/// The single-precision value of -1000000000: added to a score, it leaves
/// nothing of it after the softmax.
pub const BLOCKED: u32 = 0xce6e_6b28;

/// What the causal mask adds to the score of position `k` seen from `q`.
pub open spec fn causal_entry(q: int, k: int) -> Single {
    if q < k {
        Single { bits: BLOCKED }
    } else {
        Single { bits: 0 }
    }
}

pub open spec fn causal_rows(seq_len: nat) -> Seq<Seq<Single>> {
    Seq::new(seq_len, |q: int| Seq::new(seq_len, |k: int| causal_entry(q, k)))
}

/// The additive mask of an autoregressive decoder: position `q` sees the
/// positions up to `q`, and every later position is blocked.
pub fn causal_mask(seq_len: usize) -> (mask: Matrix)
    ensures
        mask.wf(),
        mask.cols == seq_len,
        mask@ == causal_rows(seq_len as nat),
{
    let mut rows: Vec<Vec<Single>> = Vec::new();
    let mut q: usize = 0;
    while q < seq_len
        invariant
            q <= seq_len,
            crate::data::row_views(rows@) == Seq::new(
                q as nat,
                |i: int| Seq::new(seq_len as nat, |k: int| causal_entry(i, k)),
            ),
        decreases seq_len - q,
    {
        let mut row: Vec<Single> = Vec::new();
        let mut k: usize = 0;
        while k < seq_len
            invariant
                k <= seq_len,
                row@ == Seq::new(k as nat, |i: int| causal_entry(q as int, i)),
            decreases seq_len - k,
        {
            if q < k {
                row.push(Single { bits: BLOCKED });
            } else {
                row.push(Single { bits: 0 });
            }
            k += 1;
            assert(row@ =~= Seq::new(k as nat, |i: int| causal_entry(q as int, i)));
        }
        let ghost before = rows@;
        rows.push(row);
        q += 1;
        assert(crate::data::row_views(rows@) =~= crate::data::row_views(before).push(row@));
        assert(crate::data::row_views(rows@) =~= Seq::new(
            q as nat,
            |i: int| Seq::new(seq_len as nat, |k: int| causal_entry(i, k)),
        ));
    }
    Matrix { cols: seq_len, rows }
}

/// The layers of one encoder layer: each sublayer behind its norm.
pub open spec fn encoder_layers(cfg: ModelConfig) -> Seq<Layer> {
    seq![
        Layer::Norm { width: cfg.d_model },
        Layer::Attention { width: cfg.d_model, heads: cfg.n_heads },
        Layer::Norm { width: cfg.d_model },
        Layer::FeedForward { width: cfg.d_model, hidden: cfg.d_ff },
    ]
}

/// The layers of one decoder layer: attention to itself, attention to the
/// encoder's memory, and the feed-forward layer.
pub open spec fn decoder_layers(cfg: ModelConfig) -> Seq<Layer> {
    seq![
        Layer::Norm { width: cfg.d_model },
        Layer::Attention { width: cfg.d_model, heads: cfg.n_heads },
        Layer::Norm { width: cfg.d_model },
        Layer::Attention { width: cfg.d_model, heads: cfg.n_heads },
        Layer::Norm { width: cfg.d_model },
        Layer::FeedForward { width: cfg.d_model, hidden: cfg.d_ff },
    ]
}

pub open spec fn repeated(layers: Seq<Layer>, n: nat) -> Seq<Layer>
    decreases n,
{
    if n == 0 {
        Seq::empty()
    } else {
        repeated(layers, (n - 1) as nat) + layers
    }
}

/// The layers of the whole core: the encoder stack and its norm, then the
/// decoder stack and its norm.
pub open spec fn core_layers(cfg: ModelConfig) -> Seq<Layer> {
    repeated(encoder_layers(cfg), cfg.n_enc_layers as nat).push(Layer::Norm { width: cfg.d_model })
        + repeated(decoder_layers(cfg), cfg.n_dec_layers as nat) + seq![
        Layer::Norm { width: cfg.d_model },
    ]
}

/// The encoder and decoder stacks of these sizes.
#[derive(Clone, Copy, Debug, PartialEq, Eq, Structural)]
pub struct TransformerCore {
    pub cfg: ModelConfig,
}

impl TransformerCore {
    pub fn new(cfg: &ModelConfig) -> (core: TransformerCore)
        ensures
            core.cfg == *cfg,
    {
        TransformerCore { cfg: *cfg }
    }

    fn push_attention(&self, layers: &mut Vec<Layer>)
        ensures
            final(layers)@ == old(layers)@.push(Layer::Norm { width: self.cfg.d_model }).push(
                Layer::Attention { width: self.cfg.d_model, heads: self.cfg.n_heads },
            ),
    {
        layers.push(Layer::Norm { width: self.cfg.d_model });
        layers.push(Layer::Attention { width: self.cfg.d_model, heads: self.cfg.n_heads });
    }

    fn push_feed_forward(&self, layers: &mut Vec<Layer>)
        ensures
            final(layers)@ == old(layers)@.push(Layer::Norm { width: self.cfg.d_model }).push(
                Layer::FeedForward { width: self.cfg.d_model, hidden: self.cfg.d_ff },
            ),
    {
        layers.push(Layer::Norm { width: self.cfg.d_model });
        layers.push(Layer::FeedForward { width: self.cfg.d_model, hidden: self.cfg.d_ff });
    }

    /// All trainable layers of the core, in order.
    pub fn parameters(&self) -> (layers: Vec<Layer>)
        ensures
            layers@ == core_layers(self.cfg),
    {
        let mut layers: Vec<Layer> = Vec::new();
        let mut i: usize = 0;
        while i < self.cfg.n_enc_layers
            invariant
                i <= self.cfg.n_enc_layers,
                layers@ == repeated(encoder_layers(self.cfg), i as nat),
            decreases self.cfg.n_enc_layers - i,
        {
            let ghost before = layers@;
            self.push_attention(&mut layers);
            self.push_feed_forward(&mut layers);
            i += 1;
            assert(layers@ =~= before + encoder_layers(self.cfg));
        }
        layers.push(Layer::Norm { width: self.cfg.d_model });
        let ghost encoder = layers@;
        let mut i: usize = 0;
        while i < self.cfg.n_dec_layers
            invariant
                i <= self.cfg.n_dec_layers,
                layers@ == encoder + repeated(decoder_layers(self.cfg), i as nat),
            decreases self.cfg.n_dec_layers - i,
        {
            let ghost before = layers@;
            self.push_attention(&mut layers);
            self.push_attention(&mut layers);
            self.push_feed_forward(&mut layers);
            i += 1;
            assert(layers@ =~= before + decoder_layers(self.cfg));
            assert(layers@ =~= encoder + repeated(decoder_layers(self.cfg), i as nat));
        }
        layers.push(Layer::Norm { width: self.cfg.d_model });
        assert(layers@ =~= core_layers(self.cfg));
        layers
    }
}

/// The number of layers of a core follows from its depth alone.
pub proof fn law_layer_count(cfg: ModelConfig)
    ensures
        core_layers(cfg).len() == 4 * cfg.n_enc_layers + 6 * cfg.n_dec_layers + 2,
{
    lemma_repeated_len(encoder_layers(cfg), cfg.n_enc_layers as nat);
    lemma_repeated_len(decoder_layers(cfg), cfg.n_dec_layers as nat);
}

proof fn lemma_repeated_len(layers: Seq<Layer>, n: nat)
    ensures
        repeated(layers, n).len() == layers.len() * n,
    decreases n,
{
    if n > 0 {
        lemma_repeated_len(layers, (n - 1) as nat);
        assert(layers.len() * n == layers.len() * (n - 1) + layers.len()) by (nonlinear_arith)
            requires
                n > 0,
        ;
    } else {
        assert(layers.len() * 0 == 0);
    }
}

/// Where an attention gets its keys and values from.
#[derive(Clone, Copy, Debug, PartialEq, Eq, Structural)]
pub enum Reads {
    /// From the sequence itself.
    Itself,
    /// From the encoder's memory.
    Memory,
    /// From nowhere: a feed-forward layer sees one position at a time.
    Nothing,
}

/// One sublayer in its place: the sequence gets the sublayer's answer to the
/// normalised sequence added to it. The layers are given by their places
/// among the parameters of the core.
#[derive(Clone, Copy, Debug, PartialEq, Eq, Structural)]
pub struct Sublayer {
    pub norm: usize,
    pub layer: usize,
    pub reads: Reads,
    /// Whether the caller's mask is added to the scores.
    pub masked: bool,
}

/// A pass through a stack: its sublayers in order, then the last norm.
#[derive(Debug)]
pub struct Pass {
    pub sublayers: Vec<Sublayer>,
    pub norm: usize,
}

/// The sublayers of the encoder layer whose first layer is at `at`.
pub open spec fn encoder_sublayers(at: int, masked: bool) -> Seq<Sublayer> {
    seq![
        Sublayer { norm: at as usize, layer: (at + 1) as usize, reads: Reads::Itself, masked },
        Sublayer {
            norm: (at + 2) as usize,
            layer: (at + 3) as usize,
            reads: Reads::Nothing,
            masked: false,
        },
    ]
}

/// The sublayers of the decoder layer whose first layer is at `at`.
pub open spec fn decoder_sublayers(at: int, self_masked: bool, cross_masked: bool) -> Seq<Sublayer> {
    seq![
        Sublayer {
            norm: at as usize,
            layer: (at + 1) as usize,
            reads: Reads::Itself,
            masked: self_masked,
        },
        Sublayer {
            norm: (at + 2) as usize,
            layer: (at + 3) as usize,
            reads: Reads::Memory,
            masked: cross_masked,
        },
        Sublayer {
            norm: (at + 4) as usize,
            layer: (at + 5) as usize,
            reads: Reads::Nothing,
            masked: false,
        },
    ]
}

/// The sublayers of the first `n` encoder layers.
pub open spec fn encoder_steps(n: nat, masked: bool) -> Seq<Sublayer>
    decreases n,
{
    if n == 0 {
        Seq::empty()
    } else {
        encoder_steps((n - 1) as nat, masked) + encoder_sublayers(4 * (n - 1), masked)
    }
}

/// The sublayers of the first `n` decoder layers, which begin at `from`.
pub open spec fn decoder_steps(from: int, n: nat, self_masked: bool, cross_masked: bool) -> Seq<
    Sublayer,
>
    decreases n,
{
    if n == 0 {
        Seq::empty()
    } else {
        decoder_steps(from, (n - 1) as nat, self_masked, cross_masked) + decoder_sublayers(
            from + 6 * (n - 1),
            self_masked,
            cross_masked,
        )
    }
}

/// The place of the first decoder layer, behind the encoder and its norm.
pub open spec fn decoder_start(cfg: ModelConfig) -> int {
    4 * cfg.n_enc_layers + 1
}

/// The layers of the core can be counted.
pub open spec fn countable(cfg: ModelConfig) -> bool {
    4 * cfg.n_enc_layers + 6 * cfg.n_dec_layers + 2 <= usize::MAX
}

impl TransformerCore {
    /// How an input becomes the encoder's memory; `masked` says whether the
    /// caller has a mask for it.
    pub fn encode(&self, masked: bool) -> (pass: Pass)
        requires
            countable(self.cfg),
        ensures
            pass.sublayers@ == encoder_steps(self.cfg.n_enc_layers as nat, masked),
            pass.norm == 4 * self.cfg.n_enc_layers,
    {
        let mut sublayers: Vec<Sublayer> = Vec::new();
        let mut i: usize = 0;
        while i < self.cfg.n_enc_layers
            invariant
                countable(self.cfg),
                i <= self.cfg.n_enc_layers,
                sublayers@ == encoder_steps(i as nat, masked),
            decreases self.cfg.n_enc_layers - i,
        {
            let ghost before = sublayers@;
            let at: usize = 4 * i;
            sublayers.push(Sublayer { norm: at, layer: at + 1, reads: Reads::Itself, masked });
            sublayers.push(
                Sublayer { norm: at + 2, layer: at + 3, reads: Reads::Nothing, masked: false },
            );
            i += 1;
            assert(sublayers@ =~= before + encoder_sublayers(at as int, masked));
        }
        Pass { sublayers, norm: 4 * self.cfg.n_enc_layers }
    }

    /// How a target becomes the hidden state that a head reads, given which
    /// masks the caller has: a causal one for an autoregression, none for
    /// queries that do not see each other.
    pub fn decode(&self, self_masked: bool, cross_masked: bool) -> (pass: Pass)
        requires
            countable(self.cfg),
        ensures
            pass.sublayers@ == decoder_steps(
                decoder_start(self.cfg),
                self.cfg.n_dec_layers as nat,
                self_masked,
                cross_masked,
            ),
            pass.norm == decoder_start(self.cfg) + 6 * self.cfg.n_dec_layers,
    {
        let from: usize = 4 * self.cfg.n_enc_layers + 1;
        let mut sublayers: Vec<Sublayer> = Vec::new();
        let mut j: usize = 0;
        while j < self.cfg.n_dec_layers
            invariant
                countable(self.cfg),
                from == decoder_start(self.cfg),
                j <= self.cfg.n_dec_layers,
                sublayers@ == decoder_steps(from as int, j as nat, self_masked, cross_masked),
            decreases self.cfg.n_dec_layers - j,
        {
            let ghost before = sublayers@;
            let at: usize = from + 6 * j;
            sublayers.push(
                Sublayer { norm: at, layer: at + 1, reads: Reads::Itself, masked: self_masked },
            );
            sublayers.push(
                Sublayer {
                    norm: at + 2,
                    layer: at + 3,
                    reads: Reads::Memory,
                    masked: cross_masked,
                },
            );
            sublayers.push(
                Sublayer { norm: at + 4, layer: at + 5, reads: Reads::Nothing, masked: false },
            );
            j += 1;
            assert(sublayers@ =~= before + decoder_sublayers(
                at as int,
                self_masked,
                cross_masked,
            ));
        }
        Pass { sublayers, norm: from + 6 * self.cfg.n_dec_layers }
    }
}

/// A sublayer finds at its places a norm and the layer that it is meant for.
pub open spec fn finds(cfg: ModelConfig, s: Sublayer) -> bool {
    let layers = core_layers(cfg);
    &&& s.norm < layers.len()
    &&& s.layer < layers.len()
    &&& layers[s.norm as int] == Layer::Norm { width: cfg.d_model }
    &&& layers[s.layer as int] == match s.reads {
        Reads::Nothing => Layer::FeedForward { width: cfg.d_model, hidden: cfg.d_ff },
        _ => Layer::Attention { width: cfg.d_model, heads: cfg.n_heads },
    }
}

/// Every sublayer of the two passes finds its layers among the parameters of
/// the core, and so do the last norms.
pub proof fn law_passes_find_their_layers(
    cfg: ModelConfig,
    masked: bool,
    self_masked: bool,
    cross_masked: bool,
)
    requires
        countable(cfg),
    ensures
        forall|i: int|
            0 <= i < encoder_steps(cfg.n_enc_layers as nat, masked).len() ==> finds(
                cfg,
                #[trigger] encoder_steps(cfg.n_enc_layers as nat, masked)[i],
            ),
        forall|i: int|
            0 <= i < decoder_steps(
                decoder_start(cfg),
                cfg.n_dec_layers as nat,
                self_masked,
                cross_masked,
            ).len() ==> finds(
                cfg,
                #[trigger] decoder_steps(
                    decoder_start(cfg),
                    cfg.n_dec_layers as nat,
                    self_masked,
                    cross_masked,
                )[i],
            ),
        core_layers(cfg)[4 * cfg.n_enc_layers] == (Layer::Norm { width: cfg.d_model }),
        core_layers(cfg)[decoder_start(cfg) + 6 * cfg.n_dec_layers] == (Layer::Norm {
            width: cfg.d_model,
        }),
{
    law_layer_count(cfg);
    lemma_repeated_len(encoder_layers(cfg), cfg.n_enc_layers as nat);
    lemma_repeated_len(decoder_layers(cfg), cfg.n_dec_layers as nat);
    let encoder = encoder_steps(cfg.n_enc_layers as nat, masked);
    assert forall|i: int| 0 <= i < encoder.len() implies finds(cfg, #[trigger] encoder[i]) by {
        lemma_encoder_finds(cfg, cfg.n_enc_layers as nat, masked, i);
    }
    let decoder = decoder_steps(
        decoder_start(cfg),
        cfg.n_dec_layers as nat,
        self_masked,
        cross_masked,
    );
    assert forall|i: int| 0 <= i < decoder.len() implies finds(cfg, #[trigger] decoder[i]) by {
        lemma_decoder_finds(cfg, cfg.n_dec_layers as nat, self_masked, cross_masked, i);
    }
}

/// The layers of block `k` of a repetition.
proof fn lemma_repeated_at(layers: Seq<Layer>, n: nat, k: nat, i: int)
    requires
        k < n,
        0 <= i < layers.len(),
    ensures
        0 <= layers.len() * k + i < repeated(layers, n).len(),
        repeated(layers, n)[layers.len() * k + i] == layers[i],
    decreases n,
{
    lemma_repeated_len(layers, n);
    lemma_repeated_len(layers, (n - 1) as nat);
    assert(0 <= layers.len() * k) by (nonlinear_arith);
    if k == n - 1 {
    } else {
        lemma_repeated_at(layers, (n - 1) as nat, k, i);
    }
}

/// Layer `i` of encoder layer `k`.
proof fn lemma_encoder_at(cfg: ModelConfig, k: nat, i: int)
    requires
        k < cfg.n_enc_layers,
        0 <= i < 4,
    ensures
        4 * k + i < core_layers(cfg).len(),
        core_layers(cfg)[4 * k + i] == encoder_layers(cfg)[i],
{
    lemma_repeated_at(encoder_layers(cfg), cfg.n_enc_layers as nat, k, i);
}

/// Layer `i` of decoder layer `k`.
proof fn lemma_decoder_at(cfg: ModelConfig, k: nat, i: int)
    requires
        k < cfg.n_dec_layers,
        0 <= i < 6,
    ensures
        decoder_start(cfg) + 6 * k + i < core_layers(cfg).len(),
        core_layers(cfg)[decoder_start(cfg) + 6 * k + i] == decoder_layers(cfg)[i],
{
    lemma_repeated_len(encoder_layers(cfg), cfg.n_enc_layers as nat);
    lemma_repeated_at(decoder_layers(cfg), cfg.n_dec_layers as nat, k, i);
}

proof fn lemma_encoder_layer_finds(cfg: ModelConfig, k: nat, masked: bool)
    requires
        countable(cfg),
        k < cfg.n_enc_layers,
    ensures
        finds(cfg, encoder_sublayers(4 * k as int, masked)[0]),
        finds(cfg, encoder_sublayers(4 * k as int, masked)[1]),
{
    lemma_encoder_at(cfg, k, 0);
    lemma_encoder_at(cfg, k, 1);
    lemma_encoder_at(cfg, k, 2);
    lemma_encoder_at(cfg, k, 3);
}

proof fn lemma_decoder_layer_finds(
    cfg: ModelConfig,
    k: nat,
    self_masked: bool,
    cross_masked: bool,
)
    requires
        countable(cfg),
        k < cfg.n_dec_layers,
    ensures
        ({
            let s = decoder_sublayers(decoder_start(cfg) + 6 * k, self_masked, cross_masked);
            finds(cfg, s[0]) && finds(cfg, s[1]) && finds(cfg, s[2])
        }),
{
    lemma_decoder_at(cfg, k, 0);
    lemma_decoder_at(cfg, k, 1);
    lemma_decoder_at(cfg, k, 2);
    lemma_decoder_at(cfg, k, 3);
    lemma_decoder_at(cfg, k, 4);
    lemma_decoder_at(cfg, k, 5);
}

proof fn lemma_encoder_finds(cfg: ModelConfig, n: nat, masked: bool, i: int)
    requires
        countable(cfg),
        n <= cfg.n_enc_layers,
        0 <= i < encoder_steps(n, masked).len(),
    ensures
        finds(cfg, encoder_steps(n, masked)[i]),
    decreases n,
{
    let k = (n - 1) as nat;
    let before = encoder_steps(k, masked);
    if i < before.len() {
        lemma_encoder_finds(cfg, k, masked, i);
    } else {
        lemma_encoder_layer_finds(cfg, k, masked);
        let own = encoder_sublayers(4 * k as int, masked);
        assert(encoder_steps(n, masked)[i] == own[i - before.len()]);
        assert(i - before.len() == 0 || i - before.len() == 1);
    }
}

proof fn lemma_decoder_finds(
    cfg: ModelConfig,
    n: nat,
    self_masked: bool,
    cross_masked: bool,
    i: int,
)
    requires
        countable(cfg),
        n <= cfg.n_dec_layers,
        0 <= i < decoder_steps(decoder_start(cfg), n, self_masked, cross_masked).len(),
    ensures
        finds(cfg, decoder_steps(decoder_start(cfg), n, self_masked, cross_masked)[i]),
    decreases n,
{
    let k = (n - 1) as nat;
    let before = decoder_steps(decoder_start(cfg), k, self_masked, cross_masked);
    if i < before.len() {
        lemma_decoder_finds(cfg, k, self_masked, cross_masked, i);
    } else {
        lemma_decoder_layer_finds(cfg, k, self_masked, cross_masked);
        let own = decoder_sublayers(decoder_start(cfg) + 6 * k, self_masked, cross_masked);
        assert(decoder_steps(decoder_start(cfg), n, self_masked, cross_masked)[i] == own[i
            - before.len()]);
        assert(i - before.len() == 0 || i - before.len() == 1 || i - before.len() == 2);
    }
}

/// A position sees itself and what stands before it, and nothing behind it:
/// the mask adds nothing to what is seen and -1e9 to what is not.
pub proof fn law_a_position_sees_no_later_one(n: nat, q: int, k: int)
    requires
        0 <= q < n,
        0 <= k < n,
    ensures
        causal_rows(n).len() == n,
        causal_rows(n)[q].len() == n,
        k <= q ==> causal_rows(n)[q][k].bits == 0,
        k > q ==> causal_rows(n)[q][k].bits == 0xce6e_6b28,
{
}

/// An encoder layer is attention to the sequence itself, with the caller's mask,
/// then the feed-forward layer; its layers follow those of the layer before it.
pub proof fn law_encoder_layers_follow_each_other(n: nat, masked: bool, k: nat)
    requires
        k < n,
        4 * n <= usize::MAX,
    ensures
        encoder_steps(n, masked).len() == 2 * n,
        encoder_steps(n, masked)[2 * k as int] == (Sublayer {
            norm: (4 * k) as usize,
            layer: (4 * k + 1) as usize,
            reads: Reads::Itself,
            masked,
        }),
        encoder_steps(n, masked)[2 * k as int + 1] == (Sublayer {
            norm: (4 * k + 2) as usize,
            layer: (4 * k + 3) as usize,
            reads: Reads::Nothing,
            masked: false,
        }),
    decreases n,
{
    if n > 1 {
        law_encoder_layers_follow_each_other(
            (n - 1) as nat,
            masked,
            if k < n - 1 {
                k
            } else {
                0
            },
        );
    } else {
        assert(encoder_steps(0, masked).len() == 0);
    }
}

/// A decoder layer is attention to the target itself, then attention to the
/// encoder's memory, each with its own mask, then the feed-forward layer.
pub proof fn law_decoder_layers_follow_each_other(
    from: int,
    n: nat,
    self_masked: bool,
    cross_masked: bool,
    k: nat,
)
    requires
        k < n,
        0 <= from,
        from + 6 * n <= usize::MAX,
    ensures
        ({
            let steps = decoder_steps(from, n, self_masked, cross_masked);
            &&& steps.len() == 3 * n
            &&& steps[3 * k as int] == (Sublayer {
                norm: (from + 6 * k) as usize,
                layer: (from + 6 * k + 1) as usize,
                reads: Reads::Itself,
                masked: self_masked,
            })
            &&& steps[3 * k as int + 1] == (Sublayer {
                norm: (from + 6 * k + 2) as usize,
                layer: (from + 6 * k + 3) as usize,
                reads: Reads::Memory,
                masked: cross_masked,
            })
            &&& steps[3 * k as int + 2] == (Sublayer {
                norm: (from + 6 * k + 4) as usize,
                layer: (from + 6 * k + 5) as usize,
                reads: Reads::Nothing,
                masked: false,
            })
        }),
    decreases n,
{
    if n > 1 {
        law_decoder_layers_follow_each_other(
            from,
            (n - 1) as nat,
            self_masked,
            cross_masked,
            if k < n - 1 {
                k
            } else {
                0
            },
        );
    } else {
        assert(decoder_steps(from, 0, self_masked, cross_masked).len() == 0);
    }
}

/// What the core trains, place by place: every sublayer has its norm right
/// before it, attention has the asked heads and feed-forward the asked width,
/// and each stack ends with a norm of its own.
pub proof fn law_the_core_trains_its_layers_in_order(cfg: ModelConfig, k: nat)
    ensures
        k < cfg.n_enc_layers ==> {
            &&& core_layers(cfg)[4 * k as int] == (Layer::Norm { width: cfg.d_model })
            &&& core_layers(cfg)[4 * k as int + 1] == (Layer::Attention {
                width: cfg.d_model,
                heads: cfg.n_heads,
            })
            &&& core_layers(cfg)[4 * k as int + 2] == (Layer::Norm { width: cfg.d_model })
            &&& core_layers(cfg)[4 * k as int + 3] == (Layer::FeedForward {
                width: cfg.d_model,
                hidden: cfg.d_ff,
            })
        },
        core_layers(cfg)[4 * cfg.n_enc_layers] == (Layer::Norm { width: cfg.d_model }),
        k < cfg.n_dec_layers ==> {
            let at = 4 * cfg.n_enc_layers + 1 + 6 * k;
            &&& core_layers(cfg)[at] == (Layer::Norm { width: cfg.d_model })
            &&& core_layers(cfg)[at + 1] == (Layer::Attention {
                width: cfg.d_model,
                heads: cfg.n_heads,
            })
            &&& core_layers(cfg)[at + 2] == (Layer::Norm { width: cfg.d_model })
            &&& core_layers(cfg)[at + 3] == (Layer::Attention {
                width: cfg.d_model,
                heads: cfg.n_heads,
            })
            &&& core_layers(cfg)[at + 4] == (Layer::Norm { width: cfg.d_model })
            &&& core_layers(cfg)[at + 5] == (Layer::FeedForward {
                width: cfg.d_model,
                hidden: cfg.d_ff,
            })
        },
        core_layers(cfg).last() == (Layer::Norm { width: cfg.d_model }),
{
    lemma_repeated_len(encoder_layers(cfg), cfg.n_enc_layers as nat);
    lemma_repeated_len(decoder_layers(cfg), cfg.n_dec_layers as nat);
    if k < cfg.n_enc_layers {
        lemma_encoder_at(cfg, k, 0);
        lemma_encoder_at(cfg, k, 1);
        lemma_encoder_at(cfg, k, 2);
        lemma_encoder_at(cfg, k, 3);
    }
    if k < cfg.n_dec_layers {
        lemma_decoder_at(cfg, k, 0);
        lemma_decoder_at(cfg, k, 1);
        lemma_decoder_at(cfg, k, 2);
        lemma_decoder_at(cfg, k, 3);
        lemma_decoder_at(cfg, k, 4);
        lemma_decoder_at(cfg, k, 5);
    }
}

} // verus!

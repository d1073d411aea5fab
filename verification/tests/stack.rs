//! The passes through the transformer core.

use transformer::config::{ModelConfig, LN_EPS};
use transformer::encoders::Layer;
use transformer::single::Single;
use transformer::stack::{Reads, Sublayer, TransformerCore};

fn small() -> TransformerCore {
    TransformerCore::new(&ModelConfig {
        d_model: 8,
        n_heads: 2,
        n_enc_layers: 2,
        n_dec_layers: 1,
        d_ff: 16,
        ln_eps: Single { bits: LN_EPS },
    })
}

#[test]
fn each_sublayer_stands_behind_its_norm() {
    let pass = small().encode(true);
    assert_eq!(
        pass.sublayers,
        vec![
            Sublayer { norm: 0, layer: 1, reads: Reads::Itself, masked: true },
            Sublayer { norm: 2, layer: 3, reads: Reads::Nothing, masked: false },
            Sublayer { norm: 4, layer: 5, reads: Reads::Itself, masked: true },
            Sublayer { norm: 6, layer: 7, reads: Reads::Nothing, masked: false },
        ]
    );
    assert_eq!(pass.norm, 8);
    let pass = small().decode(true, false);
    assert_eq!(
        pass.sublayers,
        vec![
            Sublayer { norm: 9, layer: 10, reads: Reads::Itself, masked: true },
            Sublayer { norm: 11, layer: 12, reads: Reads::Memory, masked: false },
            Sublayer { norm: 13, layer: 14, reads: Reads::Nothing, masked: false },
        ]
    );
    assert_eq!(pass.norm, 15);
}

#[test]
fn passes_find_their_layers() {
    let layers = small().parameters();
    assert_eq!(layers.len(), 16);
    for pass in [small().encode(false), small().decode(false, true)] {
        assert_eq!(layers[pass.norm], Layer::Norm { width: 8 });
        for s in &pass.sublayers {
            assert_eq!(layers[s.norm], Layer::Norm { width: 8 });
            let wanted = match s.reads {
                Reads::Nothing => Layer::FeedForward { width: 8, hidden: 16 },
                _ => Layer::Attention { width: 8, heads: 2 },
            };
            assert_eq!(layers[s.layer], wanted);
        }
    }
}

//! The heads of a task: from the decoder's hidden state to its answer.

use crate::encoders::Layer;
use vstd::prelude::*;

verus! {

/// A number (or several) for each query.
#[derive(Clone, Copy, Debug, PartialEq, Eq, Structural)]
pub struct RegressionHead {
    pub d_model: usize,
    pub out_dim: usize,
}

/// The shape after a projection: the last axis becomes `width`.
pub open spec fn projected(shape: Seq<usize>, width: usize) -> Seq<usize> {
    shape.drop_last().push(width)
}

fn project(shape: &Vec<usize>, width: usize) -> (out: Vec<usize>)
    requires
        shape@.len() > 0,
    ensures
        out@ == projected(shape@, width),
{
    let mut out: Vec<usize> = Vec::new();
    let mut i: usize = 0;
    while i + 1 < shape.len()
        invariant
            i < shape.len(),
            out@ == shape@.take(i as int),
        decreases shape.len() - i,
    {
        out.push(shape[i]);
        i += 1;
        assert(out@ =~= shape@.take(i as int));
    }
    out.push(width);
    assert(out@ =~= projected(shape@, width));
    out
}

impl RegressionHead {
    pub fn new(d_model: usize, out_dim: usize) -> (head: RegressionHead)
        ensures
            head == (RegressionHead { d_model, out_dim }),
    {
        RegressionHead { d_model, out_dim }
    }

    /// The shape of the answer to a hidden state of this shape.
    pub fn forward(&self, hidden: &Vec<usize>) -> (shape: Vec<usize>)
        requires
            hidden@.len() > 0,
            hidden@.last() == self.d_model,
        ensures
            shape@ == projected(hidden@, self.out_dim),
    {
        project(hidden, self.out_dim)
    }

    pub fn parameters(&self) -> (layers: Vec<Layer>)
        ensures
            layers@ == seq![Layer::Linear { inputs: self.d_model, outputs: self.out_dim }],
    {
        let mut layers: Vec<Layer> = Vec::new();
        layers.push(Layer::Linear { inputs: self.d_model, outputs: self.out_dim });
        assert(layers@ =~= seq![Layer::Linear { inputs: self.d_model, outputs: self.out_dim }]);
        layers
    }
}

/// A score for each character of the vocabulary.
#[derive(Clone, Copy, Debug, PartialEq, Eq, Structural)]
pub struct CharHead {
    pub d_model: usize,
    pub vocab_size: usize,
}

impl CharHead {
    pub fn new(d_model: usize, vocab_size: usize) -> (head: CharHead)
        ensures
            head == (CharHead { d_model, vocab_size }),
    {
        CharHead { d_model, vocab_size }
    }

    /// The shape of the scores for a hidden state of this shape.
    pub fn forward(&self, hidden: &Vec<usize>) -> (shape: Vec<usize>)
        requires
            hidden@.len() > 0,
            hidden@.last() == self.d_model,
        ensures
            shape@ == projected(hidden@, self.vocab_size),
    {
        project(hidden, self.vocab_size)
    }

    pub fn parameters(&self) -> (layers: Vec<Layer>)
        ensures
            layers@ == seq![Layer::Linear { inputs: self.d_model, outputs: self.vocab_size }],
    {
        let mut layers: Vec<Layer> = Vec::new();
        layers.push(Layer::Linear { inputs: self.d_model, outputs: self.vocab_size });
        assert(layers@ =~= seq![Layer::Linear { inputs: self.d_model, outputs: self.vocab_size }]);
        layers
    }
}

/// A head keeps every axis but the last, which becomes that of its answers.
pub proof fn law_a_head_changes_the_last_axis_only(shape: Seq<usize>, width: usize, i: int)
    requires
        shape.len() > 0,
        0 <= i < shape.len(),
    ensures
        projected(shape, width).len() == shape.len(),
        i + 1 < shape.len() ==> projected(shape, width)[i] == shape[i],
        i + 1 == shape.len() ==> projected(shape, width)[i] == width,
{
}

} // verus!

//! The layer abstraction. Dense is the one fully implemented kind; the
//! attention kind is declared for the format's sake but cannot be built.

use vstd::prelude::*;

use crate::activation::Activation;
use crate::layer::dense::Dense;
use crate::Executor;

pub mod dense;

verus! {

/// What a layer of each kind is built from.
#[derive(Clone, Copy, Debug, PartialEq, Eq, Structural)]
pub enum LayerType {
    /// Output width and activation kind.
    Dense(usize, Activation),
    /// Head count, internal width, characteristic width, output width. Left
    /// unimplemented; no layer of this kind can be constructed.
    Attention(usize, usize, usize, usize),
}

impl LayerType {
    /// The output width a layer of this kind would have.
    pub open spec fn output_size_spec(self) -> usize {
        match self {
            LayerType::Dense(s, _) => s,
            LayerType::Attention(_, _, _, o) => o,
        }
    }

    /// Builds the layer this kind describes, returning it with its output
    /// width. Only dense layers can be built.
    pub fn layer(&self, exec: (&Executor, &Executor, &Executor), inputs: usize) -> (r: (
        Dense,
        usize,
    ))
        requires
            self matches LayerType::Dense(_, _),
            inputs * self.output_size_spec() <= usize::MAX,
        ensures
            r.0.wf(),
            r.1 == self.output_size_spec(),
            r.0.spec_input_len() == inputs,
            r.0.spec_size() == r.1,
            self matches LayerType::Dense(_, a) ==> r.0.spec_activation() == a,
            r.0.spec_exec() == *exec.1,
            r.0.spec_wmods() == Seq::new((inputs * r.1 as int) as nat, |i: int| 0u32),
            r.0.spec_bmods() == Seq::new(r.1 as nat, |i: int| 0u32),
            r.0.spec_weights().len() == inputs * r.1 as int,
            r.0.spec_biases().len() == r.1 as int,
    {
        match self {
            LayerType::Dense(s, a) => {
                let d = Dense::new(exec, inputs, *s, *a);
                (d, *s)
            },
            LayerType::Attention(_, _, _, _) => {
                proof {
                    assert(false);
                }
                let d = Dense::new(exec, inputs, 0, Activation::Linear);
                (d, 0)
            },
        }
    }
}

} // verus!

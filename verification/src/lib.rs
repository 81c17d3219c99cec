use vstd::prelude::*;

pub mod activation;
pub mod dual_vec;
pub mod error;
pub mod random;
pub mod utils;
pub mod ieee;
pub mod layer;
pub mod loss;
pub mod network;

verus! {

/// Identifies the compute backend a layer's buffers are sized for: plain host
/// memory, or an accelerator whose kernel dispatch lives outside this crate.
#[derive(Clone, Copy, Debug, PartialEq, Eq, Structural)]
pub enum Executor {
    GPU,
    CPU,
}

impl Executor {
    pub fn gpu() -> (r: Executor)
        ensures
            r == Executor::GPU,
    {
        Executor::GPU
    }
}

/// The training rule. The one implemented optimizer is plain gradient descent;
/// its field holds the learning rate as the bits of an IEEE single.
#[derive(Clone, Copy, Debug, PartialEq, Eq, Structural)]
pub enum Optimizer {
    GradientDecent(u32),
}

impl Optimizer {
    pub open spec fn lr(&self) -> u32 {
        match self {
            Optimizer::GradientDecent(lr) => *lr,
        }
    }

    pub fn learn_rate(&self) -> (r: u32)
        ensures
            r == self.lr(),
    {
        match self {
            Optimizer::GradientDecent(lr) => *lr,
        }
    }
}

} // verus!

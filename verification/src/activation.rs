//! The nonlinearity applied to a layer's raw weighted sums, and its
//! derivative, evaluated on IEEE single bit patterns.

use vstd::prelude::*;

use crate::ieee::{
    add_bits, add_val, div_bits, div_val, exp_bits, exp_val, gt_zero, is_gt_zero, mul_bits,
    mul_val, neg_bits, neg_val, pow_bits, pow_val, sub_bits, sub_val, ONE_BITS, TWO_BITS,
    ZERO_BITS,
};

verus! {

#[derive(Clone, Copy, Debug, PartialEq, Eq, Structural)]
pub enum Activation {
    Linear,
    ReLU,
    TanH,
    Sigmoid,
    PNSigmoid,
}

/// `(e^x - e^-x) / (e^x + e^-x)`, on bits.
pub open spec fn tanh_bits(x: u32) -> u32 {
    div_bits(
        sub_bits(exp_bits(x), exp_bits(neg_bits(x))),
        add_bits(exp_bits(x), exp_bits(neg_bits(x))),
    )
}

/// `1 / (1 + e^-x)`, on bits.
pub open spec fn sigmoid_bits(x: u32) -> u32 {
    div_bits(ONE_BITS, add_bits(ONE_BITS, exp_bits(neg_bits(x))))
}

impl Activation {
    /// What `activate` returns for each kind, stated over the named IEEE
    /// single operations.
    pub open spec fn activate_spec(self, x: u32) -> u32 {
        match self {
            Activation::Linear => x,
            Activation::ReLU => if is_gt_zero(x) {
                x
            } else {
                ZERO_BITS
            },
            Activation::TanH => tanh_bits(x),
            Activation::Sigmoid => sigmoid_bits(x),
            Activation::PNSigmoid => sub_bits(
                div_bits(TWO_BITS, add_bits(ONE_BITS, exp_bits(neg_bits(x)))),
                ONE_BITS,
            ),
        }
    }

    /// What `derivative` returns for each kind.
    pub open spec fn derivative_spec(self, x: u32) -> u32 {
        match self {
            Activation::Linear => ONE_BITS,
            Activation::ReLU => if is_gt_zero(x) {
                ONE_BITS
            } else {
                ZERO_BITS
            },
            Activation::TanH => sub_bits(ONE_BITS, mul_bits(tanh_bits(x), tanh_bits(x))),
            Activation::Sigmoid => mul_bits(sigmoid_bits(x), sub_bits(ONE_BITS, sigmoid_bits(x))),
            Activation::PNSigmoid => div_bits(
                mul_bits(TWO_BITS, exp_bits(x)),
                pow_bits(add_bits(exp_bits(x), ONE_BITS), TWO_BITS),
            ),
        }
    }

    pub fn activate(&self, x: u32) -> (r: u32)
        ensures
            r == self.activate_spec(x),
    {
        match self {
            Activation::Linear => x,
            Activation::ReLU => if gt_zero(x) {
                x
            } else {
                ZERO_BITS
            },
            Activation::TanH => {
                let ex = exp_val(x);
                let enx = exp_val(neg_val(x));
                div_val(sub_val(ex, enx), add_val(ex, enx))
            },
            Activation::Sigmoid => div_val(ONE_BITS, add_val(ONE_BITS, exp_val(neg_val(x)))),
            Activation::PNSigmoid => sub_val(
                div_val(TWO_BITS, add_val(ONE_BITS, exp_val(neg_val(x)))),
                ONE_BITS,
            ),
        }
    }

    pub fn derivative(&self, x: u32) -> (r: u32)
        ensures
            r == self.derivative_spec(x),
    {
        match self {
            Activation::Linear => ONE_BITS,
            Activation::ReLU => if gt_zero(x) {
                ONE_BITS
            } else {
                ZERO_BITS
            },
            Activation::TanH => {
                let b = self.activate(x);
                sub_val(ONE_BITS, mul_val(b, b))
            },
            Activation::Sigmoid => {
                let b = self.activate(x);
                mul_val(b, sub_val(ONE_BITS, b))
            },
            Activation::PNSigmoid => {
                let ex = exp_val(x);
                div_val(mul_val(TWO_BITS, ex), pow_val(add_val(ex, ONE_BITS), TWO_BITS))
            },
        }
    }

    /// The identity this kind is stored under in the binary model format.
    pub open spec fn id_spec(self) -> usize {
        match self {
            Activation::Linear => 0,
            Activation::ReLU => 1,
            Activation::TanH => 2,
            Activation::Sigmoid => 3,
            Activation::PNSigmoid => 4,
        }
    }

    pub fn id(&self) -> (r: usize)
        ensures
            r == self.id_spec(),
    {
        match self {
            Activation::Linear => 0,
            Activation::ReLU => 1,
            Activation::TanH => 2,
            Activation::Sigmoid => 3,
            Activation::PNSigmoid => 4,
        }
    }
}

/// The kind stored under an identity; anything unknown falls back to Linear.
pub open spec fn activation_from_id(v: usize) -> Activation {
    if v == 1 {
        Activation::ReLU
    } else if v == 2 {
        Activation::TanH
    } else if v == 3 {
        Activation::Sigmoid
    } else if v == 4 {
        Activation::PNSigmoid
    } else {
        Activation::Linear
    }
}

impl From<usize> for Activation {
    fn from(value: usize) -> (r: Activation)
        ensures
            r == activation_from_id(value),
    {
        match value {
            1 => Activation::ReLU,
            2 => Activation::TanH,
            3 => Activation::Sigmoid,
            4 => Activation::PNSigmoid,
            _ => Activation::Linear,
        }
    }
}

impl vstd::std_specs::convert::FromSpecImpl<usize> for Activation {
    open spec fn obeys_from_spec() -> bool {
        true
    }

    open spec fn from_spec(v: usize) -> Activation {
        activation_from_id(v)
    }
}

/// Storing a kind and reading it back yields the kind again.
pub proof fn lemma_activation_id_round_trip(a: Activation)
    ensures
        activation_from_id(a.id_spec()) == a,
{
}

} // verus!

//! The ordered chain of layers: the whole forward pass, the batched,
//! index-addressed training loop, and the byte form of the whole model.

use vstd::arithmetic::mul::{lemma_mul_inequality, lemma_mul_is_commutative};
use vstd::prelude::*;

use crate::activation::activation_from_id;
use crate::dual_vec::DualVec;
use crate::error::{DecodeError, Error, MismatchError, NetworkError};
use crate::ieee::{add_bits, add_val, div_bits, div_val, mul_bits, single_of, single_of_usize,
    INF_BITS, ONE_BITS, ZERO_BITS};
use crate::layer::dense::{activated_of, contiguous_positions, dense_payload, dense_payload_len,
    forward_outputs, same_params, same_shape, Dense};
use crate::layer::LayerType;
use crate::loss::Loss;
use crate::random::random_below;
use crate::utils::vec_utils::{be8_at, be8_of, cursor_sync, lemma_read_sync, singles_at,
    CursorReader, VecWriter};
use crate::{Executor, Optimizer};

verus! {

/// What one layer makes of an input buffer: as many whole samples as fit are
/// run through the weighted sums and the activation.
pub open spec fn layer_forward_acts(d: Dense, input: Seq<u32>) -> Seq<u32> {
    let batch = (input.len() as int / d.spec_input_len() as int) as nat;
    activated_of(
        d.spec_activation(),
        forward_outputs(
            d.spec_weights(),
            d.spec_biases(),
            input,
            contiguous_positions(batch, d.spec_input_len() as nat),
            d.spec_size() as nat,
            d.spec_input_len() as nat,
        ),
    )
}

/// The activated output after the first `i` layers of a chain have run on an
/// input.
pub open spec fn chain_acts(layers: Seq<Dense>, input: Seq<u32>, i: nat) -> Seq<u32>
    decreases i,
{
    if i == 0 {
        input
    } else {
        layer_forward_acts(layers[i - 1], chain_acts(layers, input, (i - 1) as nat))
    }
}

/// What a prediction needs of the machine: every layer has a positive input
/// width, and no intermediate buffer outgrows the address space.
pub open spec fn predict_fits(layers: Seq<Dense>, input: Seq<u32>) -> bool {
    forall|i: int|
        0 <= i < layers.len() ==> (#[trigger] layers[i].spec_input_len()) >= 1 && chain_acts(
            layers,
            input,
            i as nat,
        ).len() * layers[i].spec_size() <= usize::MAX
}

/// Forward determinism: chains whose layers agree on their parameters produce
/// the same outputs for the same input, step by step.
pub proof fn lemma_chain_deterministic(a: Seq<Dense>, b: Seq<Dense>, input: Seq<u32>, i: nat)
    requires
        a.len() == b.len(),
        i <= a.len(),
        forall|k: int| 0 <= k < a.len() ==> same_params(#[trigger] a[k], b[k]),
    ensures
        chain_acts(a, input, i) == chain_acts(b, input, i),
    decreases i,
{
    if i > 0 {
        lemma_chain_deterministic(a, b, input, (i - 1) as nat);
    }
}

/// The input width the layer at position `i` of a build list receives.
pub open spec fn spec_in_size(input_size: usize, specs: Seq<(Executor, LayerType)>, i: int) -> usize
    decreases i,
{
    if i <= 0 {
        input_size
    } else {
        specs[i - 1].1.output_size_spec()
    }
}

pub struct Network {
    layers: Vec<Dense>,
    output_size: usize,
}

impl Network {
    /// The network's layers, for specification purposes.
    pub closed spec fn layers_seq(self) -> Seq<Dense> {
        self.layers@
    }

    pub closed spec fn spec_output_size(self) -> usize {
        self.output_size
    }

    /// A usable network: at least one layer, every layer coherent, and the
    /// recorded output width is the last layer's.
    pub closed spec fn wf(self) -> bool {
        &&& self.layers@.len() >= 1
        &&& forall|i: int| 0 <= i < self.layers@.len() ==> (#[trigger] self.layers@[i]).wf()
        &&& self.output_size == self.layers@.last().spec_size()
    }

    /// Builds the chain: each entry supplies its executor and its layer kind,
    /// and each layer's input width is the previous entry's output width.
    /// An empty list is refused.
    pub fn new(input_size: usize, layers_types: &Vec<(Executor, LayerType)>) -> (r: Result<
        Network,
        Error,
    >)
        requires
            forall|i: int|
                0 <= i < layers_types@.len() ==> (#[trigger] layers_types@[i].1) matches
                    LayerType::Dense(_, _),
            forall|i: int|
                0 <= i < layers_types@.len() ==> spec_in_size(input_size, layers_types@, i) * (
                #[trigger] layers_types@[i].1).output_size_spec() <= usize::MAX,
        ensures
            r is Err <==> layers_types@.len() == 0,
            r matches Err(e) ==> e matches Error::Network(NetworkError::ZeroLayers),
            r matches Ok(net) ==> {
                &&& net.wf()
                &&& net.layers_seq().len() == layers_types@.len()
                &&& forall|i: int|
                    0 <= i < layers_types@.len() ==> {
                        let l = #[trigger] net.layers_seq()[i];
                        &&& l.spec_input_len() == spec_in_size(input_size, layers_types@, i)
                        &&& l.spec_size() == layers_types@[i].1.output_size_spec()
                        &&& l.spec_exec() == layers_types@[i].0
                        &&& (layers_types@[i].1 matches LayerType::Dense(_, a) ==> l.spec_activation()
                            == a)
                    }
                &&& net.spec_output_size() == layers_types@.last().1.output_size_spec()
            },
    {
        if layers_types.len() == 0 {
            return Err(Error::Network(NetworkError::ZeroLayers));
        }
        let count = layers_types.len();
        let mut layers: Vec<Dense> = Vec::new();
        let mut in_size = input_size;
        let mut network_output_size: usize = 0;
        let mut i: usize = 0;
        while i < count
            invariant
                count == layers_types@.len(),
                i <= count,
                layers@.len() == i,
                in_size == spec_in_size(input_size, layers_types@, i as int),
                forall|k: int|
                    0 <= k < count ==> (#[trigger] layers_types@[k].1) matches LayerType::Dense(
                        _,
                        _,
                    ),
                forall|k: int|
                    0 <= k < count ==> spec_in_size(input_size, layers_types@, k) * (
                    #[trigger] layers_types@[k].1).output_size_spec() <= usize::MAX,
                forall|k: int|
                    0 <= k < i ==> {
                        let l = #[trigger] layers@[k];
                        &&& l.wf()
                        &&& l.spec_input_len() == spec_in_size(input_size, layers_types@, k)
                        &&& l.spec_size() == layers_types@[k].1.output_size_spec()
                        &&& l.spec_exec() == layers_types@[k].0
                        &&& (layers_types@[k].1 matches LayerType::Dense(_, a)
                            ==> l.spec_activation() == a)
                    },
                i >= 1 ==> network_output_size == layers_types@[i - 1].1.output_size_spec(),
            decreases count - i,
        {
            let cpu = Executor::CPU;
            let current_exec = &layers_types[i].0;
            let prev_exec = if i > 0 {
                &layers_types[i - 1].0
            } else {
                &cpu
            };
            let next_exec = if i + 1 < count {
                &layers_types[i + 1].0
            } else {
                &cpu
            };
            let (layer, output_size) = layers_types[i].1.layer(
                (prev_exec, current_exec, next_exec),
                in_size,
            );
            network_output_size = output_size;
            in_size = output_size;
            layers.push(layer);
            i = i + 1;
        }
        Ok(Network { layers, output_size: network_output_size })
    }

    /// Runs the whole input buffer through the chain as one contiguous batch
    /// and returns a copy of the last layer's activated output. The result is
    /// a function of the layers' parameters and the input alone.
    pub fn predict(&mut self, inputs: &mut DualVec) -> (r: DualVec)
        requires
            old(self).wf(),
            old(inputs).wf(),
            predict_fits(old(self).layers_seq(), old(inputs)@),
        ensures
            final(self).wf(),
            final(inputs).wf(),
            final(inputs)@ == old(inputs)@,
            final(self).layers_seq().len() == old(self).layers_seq().len(),
            forall|k: int|
                0 <= k < old(self).layers_seq().len() ==> same_params(
                    #[trigger] final(self).layers_seq()[k],
                    old(self).layers_seq()[k],
                ),
            r.wf(),
            r@ == chain_acts(
                old(self).layers_seq(),
                old(inputs)@,
                old(self).layers_seq().len() as nat,
            ),
    {
        let ghost orig = old(self).layers_seq();
        let ghost inp = old(inputs)@;
        let n = self.layers.len();
        proof {
            assert(orig[0].spec_input_len() >= 1);
            assert(chain_acts(orig, inp, 0nat).len() * orig[0].spec_size() <= usize::MAX);
        }
        let mut first = self.layers.remove(0);
        first.forward(inputs);
        self.layers.insert(0, first);
        proof {
            assert(self.layers@ =~= orig.update(0, self.layers@[0]));
            assert(chain_acts(orig, inp, 0nat) == inp);
            assert(self.layers@[0].spec_activated() == chain_acts(orig, inp, 1nat));
        }
        let mut i: usize = 1;
        while i < n
            invariant
                1 <= i <= n,
                n == self.layers@.len(),
                n == orig.len(),
                inputs.wf(),
                inputs@ == inp,
                predict_fits(orig, inp),
                forall|k: int| 0 <= k < n ==> (#[trigger] self.layers@[k]).wf(),
                forall|k: int|
                    0 <= k < n ==> same_params(#[trigger] self.layers@[k], orig[k]),
                self.layers@[i - 1].spec_activated() == chain_acts(orig, inp, i as nat),
                self.output_size == old(self).spec_output_size(),
            decreases n - i,
        {
            let mut mid = self.layers[i - 1].activated_output();
            proof {
                assert(orig[i as int].spec_input_len() >= 1);
                assert(chain_acts(orig, inp, i as nat).len() * orig[i as int].spec_size()
                    <= usize::MAX);
                assert(same_params(self.layers@[i as int], orig[i as int]));
            }
            let ghost before = self.layers@;
            let mut layer = self.layers.remove(i);
            layer.forward(&mut mid);
            self.layers.insert(i, layer);
            proof {
                assert(self.layers@ =~= before.update(i as int, self.layers@[i as int]));
                assert(self.layers@[i as int].spec_activated() == chain_acts(orig, inp, (i
                    + 1) as nat));
            }
            i = i + 1;
        }
        let r = self.layers[n - 1].activated_output();
        proof {
            assert(self.output_size == self.layers@.last().spec_size());
        }
        r
    }

    /// The batched training loop: each step draws `batch_size` sample indices
    /// uniformly at random (with replacement, from the first
    /// `samples - batch_size` samples), gathers them through the first layer,
    /// runs the remaining layers forward, computes the mean-squared loss and
    /// its gradient, runs every layer backward, and applies the accumulated
    /// gradients once. The returned value is the last epoch's average loss.
    /// Disagreeing sample counts are refused before anything is touched.
    /// The batched training loop: each step draws `batch_size` sample indices
    /// uniformly at random (with replacement, from the first
    /// `samples - batch_size` samples), gathers them through the first layer,
    /// runs the remaining layers forward, computes the mean-squared loss and
    /// its gradient, runs every layer backward, and applies the accumulated
    /// gradients once. The returned value is the last epoch's average loss.
    /// On success there is a sequence of drawn sample indices under which the
    /// final parameters and the returned loss are exactly the deterministic
    /// training fold `run_epochs` over those draws. Disagreeing sample counts
    /// are refused before anything is touched.
    #[verifier::rlimit(100)]
    #[verifier::spinoff_prover]
    pub fn train(&mut self, inputs: &mut DualVec, targets: &mut DualVec, optimizer: Optimizer,
        loss: Loss, epochs: u32, batch_size: usize) -> (r: Result<u32, Error>)
        requires
            old(self).wf(),
            old(inputs).wf(),
            old(targets).wf(),
            loss is MeanSquared,
            batch_size >= 1,
            chained(old(self).layers_seq()),
            train_fits(
                old(self).layers_seq(),
                clamped_batch(old(self).layers_seq(), old(inputs)@, batch_size as int),
            ),
            sample_count(old(self).layers_seq(), old(inputs)@) == target_sample_count(
                old(self).layers_seq(),
                old(targets)@,
            ) ==> sample_count(old(self).layers_seq(), old(inputs)@) >= 1,
        ensures
            r is Err <==> sample_count(old(self).layers_seq(), old(inputs)@)
                != target_sample_count(old(self).layers_seq(), old(targets)@),
            r matches Err(e) ==> {
                &&& e matches Error::Mismatch(MismatchError::Sample(s, t)) && s == sample_count(
                    old(self).layers_seq(),
                    old(inputs)@,
                ) && t == target_sample_count(old(self).layers_seq(), old(targets)@)
                &&& *final(self) == *old(self)
                &&& *final(inputs) == *old(inputs)
                &&& *final(targets) == *old(targets)
            },
            r matches Ok(v) ==> {
                &&& final(self).wf()
                &&& final(inputs).wf()
                &&& final(targets).wf()
                &&& final(inputs)@ == old(inputs)@
                &&& final(targets)@ == old(targets)@
                &&& final(self).layers_seq().len() == old(self).layers_seq().len()
                &&& forall|k: int|
                    0 <= k < old(self).layers_seq().len() ==> same_shape(
                        #[trigger] final(self).layers_seq()[k],
                        old(self).layers_seq()[k],
                    )
                &&& trained_from(
                    old(self).layers_seq(),
                    final(self).layers_seq(),
                    old(inputs)@,
                    old(targets)@,
                    optimizer.lr(),
                    epochs as nat,
                    batch_size as int,
                    v,
                )
            },
    {
        let ghost orig = old(self).layers_seq();
        let ghost inp0 = old(inputs)@;
        let ghost tgt0 = old(targets)@;
        let ghost glr = optimizer.lr();
        let ghost init_params = params_of(orig);
        let n = self.layers.len();
        proof {
            assert(orig[0].spec_input_len() >= 1);
            assert(orig[n - 1].spec_input_len() >= 1);
        }
        let input_size = self.layers[0].input_size();
        let output_size = self.layers[n - 1].output_size();
        let samples = inputs.len() / input_size;
        let t_samples = targets.len() / output_size;
        if t_samples != samples {
            return Err(Error::Mismatch(MismatchError::Sample(samples, t_samples)));
        }
        let mut bs = batch_size;
        if bs > samples {
            bs = samples;
        }
        let steps = samples / bs;
        proof {
            assert(bs as int == clamped_batch(orig, inp0, batch_size as int));
            assert(orig[n - 1].spec_input_len() >= 1);
            assert(bs * orig[n - 1].spec_size() <= usize::MAX);
            vstd::arithmetic::div_mod::lemma_fundamental_div_mod(inp0.len() as int,
                input_size as int);
            vstd::arithmetic::div_mod::lemma_mod_bound(inp0.len() as int, input_size as int);
            vstd::arithmetic::div_mod::lemma_fundamental_div_mod(tgt0.len() as int,
                output_size as int);
            vstd::arithmetic::div_mod::lemma_mod_bound(tgt0.len() as int, output_size as int);
            vstd::arithmetic::div_mod::lemma_fundamental_div_mod(samples as int, bs as int);
            vstd::arithmetic::div_mod::lemma_mod_bound(samples as int, bs as int);
            lemma_mul_is_commutative(samples as int, input_size as int);
            lemma_mul_is_commutative(samples as int, output_size as int);
            lemma_mul_is_commutative(steps as int, bs as int);
            inputs.lemma_len_fits();
            targets.lemma_len_fits();
        }
        let exec_last = *self.layers[n - 1].exec();
        let mut output_sensitivities = DualVec::from_exec(&exec_last, bs * output_size);
        let mut last_loss: u32 = INF_BITS;
        let ghost mut draws: Seq<usize> = Seq::empty();
        let mut epoch: u32 = 0;
        while epoch < epochs
            invariant
                self.layers@.len() == n,
                n == orig.len(),
                n >= 1,
                epoch <= epochs,
                inputs.wf(),
                targets.wf(),
                inputs@ == inp0,
                targets@ == tgt0,
                forall|k: int| 0 <= k < n ==> (#[trigger] self.layers@[k]).wf(),
                forall|k: int| 0 <= k < n ==> same_shape(#[trigger] self.layers@[k], orig[k]),
                output_sensitivities.wf(),
                output_sensitivities@.len() == bs * output_size,
                input_size == orig[0].spec_input_len(),
                output_size == orig[n - 1].spec_size(),
                samples == inp0.len() as int / input_size as int,
                samples == sample_count(orig, inp0),
                bs as int == clamped_batch(orig, inp0, batch_size as int),
                1 <= bs <= samples,
                steps == samples as int / bs as int,
                steps * bs <= samples,
                samples * input_size <= inp0.len(),
                samples * output_size <= tgt0.len(),
                inp0.len() <= usize::MAX,
                tgt0.len() <= usize::MAX,
                chained(orig),
                train_fits(orig, bs as int),
                loss is MeanSquared,
                glr == optimizer.lr(),
                init_params == params_of(orig),
                draws.len() == (epoch as nat) * ((steps * bs) as nat),
                valid_draws(draws, samples as int, bs as int),
                params_of(self.layers@) == run_epochs(orig, init_params, inp0, tgt0, draws, glr,
                    bs as nat, steps as nat, epoch as nat).0,
                last_loss == run_epochs(orig, init_params, inp0, tgt0, draws, glr, bs as nat,
                    steps as nat, epoch as nat).1,
                self.output_size == old(self).spec_output_size(),
            decreases epochs - epoch,
        {
            let ghost epoch_params = params_of(self.layers@);
            let ghost mut edraws: Seq<usize> = Seq::empty();
            let mut avg: u32 = ZERO_BITS;
            let mut step: usize = 0;
            while step < steps
                invariant
                    self.layers@.len() == n,
                    n == orig.len(),
                    n >= 1,
                    step <= steps,
                    inputs.wf(),
                    targets.wf(),
                    inputs@ == inp0,
                    targets@ == tgt0,
                    forall|k: int| 0 <= k < n ==> (#[trigger] self.layers@[k]).wf(),
                    forall|k: int| 0 <= k < n ==> same_shape(#[trigger] self.layers@[k], orig[k]),
                    output_sensitivities.wf(),
                    output_sensitivities@.len() == bs * output_size,
                    input_size == orig[0].spec_input_len(),
                    output_size == orig[n - 1].spec_size(),
                    samples == inp0.len() as int / input_size as int,
                    samples == sample_count(orig, inp0),
                    bs as int == clamped_batch(orig, inp0, batch_size as int),
                    1 <= bs <= samples,
                    steps == samples as int / bs as int,
                    steps * bs <= samples,
                    samples * input_size <= inp0.len(),
                    samples * output_size <= tgt0.len(),
                    inp0.len() <= usize::MAX,
                    tgt0.len() <= usize::MAX,
                    chained(orig),
                    train_fits(orig, bs as int),
                    loss is MeanSquared,
                    glr == optimizer.lr(),
                    init_params == params_of(orig),
                    draws.len() == (epoch as nat) * ((steps * bs) as nat),
                    valid_draws(draws, samples as int, bs as int),
                    epoch_params == run_epochs(orig, init_params, inp0, tgt0, draws, glr,
                        bs as nat, steps as nat, epoch as nat).0,
                    edraws.len() == (step as nat) * (bs as nat),
                    valid_draws(edraws, samples as int, bs as int),
                    params_of(self.layers@) == run_steps(orig, epoch_params, inp0, tgt0, edraws,
                        glr, bs as nat, ZERO_BITS, step as nat).0,
                    avg == run_steps(orig, epoch_params, inp0, tgt0, edraws, glr, bs as nat,
                        ZERO_BITS, step as nat).1,
                    self.output_size == old(self).spec_output_size(),
                decreases steps - step,
            {
                let bound = samples - bs;
                let ghost mut sdraws: Seq<usize> = Seq::empty();
                let mut input_indices: Vec<usize> = Vec::new();
                let mut output_indices: Vec<usize> = Vec::new();
                let mut b: usize = 0;
                while b < bs
                    invariant
                        b <= bs,
                        bs >= 1,
                        bs <= samples,
                        bound == samples - bs,
                        input_indices@.len() == b,
                        output_indices@.len() == b,
                        sdraws.len() == b,
                        samples * input_size <= inp0.len(),
                        samples * output_size <= tgt0.len(),
                        inp0.len() <= usize::MAX,
                        tgt0.len() <= usize::MAX,
                        forall|k: int|
                            0 <= k < b ==> ((#[trigger] input_indices@[k]) + input_size
                                <= inp0.len()),
                        forall|k: int|
                            0 <= k < b ==> ((#[trigger] output_indices@[k]) + output_size
                                <= tgt0.len()),
                        forall|k: int|
                            0 <= k < b ==> (#[trigger] input_indices@[k]) == sdraws[k]
                                * input_size,
                        forall|k: int|
                            0 <= k < b ==> (#[trigger] output_indices@[k]) == sdraws[k]
                                * output_size,
                        valid_draws(sdraws, samples as int, bs as int),
                    decreases bs - b,
                {
                    let mut sample: usize = 0;
                    if bound >= 1 {
                        sample = random_below(bound);
                    }
                    proof {
                        lemma_mul_inequality(sample as int + 1, samples as int, input_size as int);
                        assert((sample + 1) * input_size == sample * input_size + input_size)
                            by (nonlinear_arith);
                        lemma_mul_inequality(sample as int + 1, samples as int,
                            output_size as int);
                        assert((sample + 1) * output_size == sample * output_size + output_size)
                            by (nonlinear_arith);
                        sdraws = sdraws.push(sample);
                    }
                    input_indices.push(sample * input_size);
                    output_indices.push(sample * output_size);
                    b = b + 1;
                }
                let ghost sparams = params_of(self.layers@);
                let ghost savg = avg;
                proof {
                    assert(input_indices@ =~= gather_indices(sdraws, input_size));
                    assert(output_indices@ =~= gather_indices(sdraws, output_size));
                    assert forall|k2: int| 0 <= k2 < n implies (#[trigger] sparams[k2]).0.len()
                        == orig[k2].spec_input_len() * orig[k2].spec_size() && sparams[k2].1.len()
                        == orig[k2].spec_size() && sparams[k2].2.len() == orig[k2].spec_input_len()
                        * orig[k2].spec_size() && sparams[k2].3.len() == orig[k2].spec_size() by {
                        self.layers@[k2].lemma_wf_lens();
                    }
                    assert(step_ctx(orig, sparams, sdraws, inp0, input_indices@, output_indices@,
                        bs as nat));
                    assert(orig[0].spec_input_len() >= 1 && orig[0].spec_size() >= 1 && (
                    bs * orig[0].spec_input_len()) * orig[0].spec_size() <= usize::MAX && bs
                        * orig[0].spec_input_len() <= usize::MAX && bs * orig[0].spec_size()
                        <= usize::MAX);
                }
                let ghost in_idx = input_indices@;
                let ghost out_idx = output_indices@;
                let ghost gather_before = self.layers@;
                let mut l0 = self.layers.remove(0);
                proof {
                    assert(bs * l0.spec_size() <= usize::MAX && bs * l0.spec_input_len()
                        <= usize::MAX);
                }
                l0.dynamic_forward(&input_indices, inputs);
                self.layers.insert(0, l0);
                proof {
                    assert(self.layers@ =~= gather_before.update(0, self.layers@[0]));
                    assert(self.layers@[0].spec_outputs() == step_outs(orig, sparams, inp0,
                        sdraws, 0nat));
                    assert(self.layers@[0].spec_activated() == step_acts(orig, sparams, inp0,
                        sdraws, 0nat));
                    assert(fwd_done(self.layers@, orig, sparams, inp0, sdraws, 1));
                    assert(weights_match(self.layers@, sparams, 0, n as int));
                    assert(mods_match(self.layers@, sparams, 0, n as int));
                }
                let mut i: usize = 1;
                while i < n
                    invariant
                        1 <= i <= n,
                        self.layers@.len() == n,
                        n == orig.len(),
                        inputs.wf(),
                        inputs@ == inp0,
                        targets.wf(),
                        targets@ == tgt0,
                        forall|k: int| 0 <= k < n ==> (#[trigger] self.layers@[k]).wf(),
                        forall|k: int|
                            0 <= k < n ==> same_shape(#[trigger] self.layers@[k], orig[k]),
                        forall|k: int|
                            0 <= k < i ==> (#[trigger] self.layers@[k]).spec_outputs().len() == bs
                                * self.layers@[k].spec_size() && self.layers@[k].spec_activated().len()
                                == bs * self.layers@[k].spec_size()
                                && self.layers@[k].spec_sensitivities().len() == bs
                                * self.layers@[k].spec_input_len(),
                        output_sensitivities.wf(),
                        output_sensitivities@.len() == bs * output_size,
                        bs >= 1,
                        chained(orig),
                        train_fits(orig, bs as int),
                        step_ctx(orig, sparams, sdraws, inp0, in_idx, out_idx, bs as nat),
                        weights_match(self.layers@, sparams, 0, n as int),
                        mods_match(self.layers@, sparams, 0, n as int),
                        fwd_done(self.layers@, orig, sparams, inp0, sdraws, i as int),
                        input_size == orig[0].spec_input_len(),
                        output_size == orig[n - 1].spec_size(),
                        savg == avg,
                        self.output_size == old(self).spec_output_size(),
                    decreases n - i,
                {
                    let mut mid = self.layers[i - 1].activated_output();
                    proof {
                        assert(orig[i as int].spec_input_len() >= 1 && orig[i as int].spec_size()
                            >= 1 && (bs * orig[i as int].spec_input_len()) * orig[
                            i as int].spec_size() <= usize::MAX && bs * orig[
                            i as int].spec_input_len() <= usize::MAX && bs * orig[
                            i as int].spec_size() <= usize::MAX);
                        assert(orig[i - 1].spec_size() == orig[i as int].spec_input_len());
                        assert(mid@.len() == bs * self.layers@[i as int].spec_input_len());
                        vstd::arithmetic::div_mod::lemma_div_by_multiple(bs as int,
                            self.layers@[i as int].spec_input_len() as int);
                        lemma_mul_is_commutative(bs as int,
                            self.layers@[i as int].spec_input_len() as int);
                        assert(mid@ == step_acts(orig, sparams, inp0, sdraws, (i - 1) as nat));
                    }
                    let ghost before = self.layers@;
                    let mut layer = self.layers.remove(i);
                    layer.forward(&mut mid);
                    self.layers.insert(i, layer);
                    proof {
                        assert(self.layers@ =~= before.update(i as int, self.layers@[i as int]));
                        assert(self.layers@[i as int].spec_outputs() == step_outs(orig, sparams,
                            inp0, sdraws, i as nat));
                        assert(self.layers@[i as int].spec_activated() == step_acts(orig, sparams,
                            inp0, sdraws, i as nat));
                        assert(fwd_done(self.layers@, orig, sparams, inp0, sdraws, i + 1));
                        assert(weights_match(self.layers@, sparams, 0, n as int));
                        assert(mods_match(self.layers@, sparams, 0, n as int));
                    }
                    i = i + 1;
                }
                let mut batch_output = self.layers[n - 1].activated_output();
                proof {
                    assert(batch_output@ == step_acts(orig, sparams, inp0, sdraws, (n
                        - 1) as nat));
                }
                let cpu_exec = Executor::CPU;
                match loss.calculate(&cpu_exec, &mut batch_output, output_size, targets,
                    &output_indices, bs) {
                    Ok(res) => {
                        let mut res = res;
                        res.cpu();
                        let ghost lseq = res@;
                        proof {
                            assert(lseq.len() == bs);
                        }
                        let rl = res.len();
                        let mut k: usize = 0;
                        while k < rl
                            invariant
                                k <= rl,
                                res.wf(),
                                res.host_fresh(),
                                rl == res@.len(),
                                res@ == lseq,
                                avg == sum_from(savg, lseq, k as nat),
                            decreases rl - k,
                        {
                            avg = add_val(avg, res.get(k));
                            k = k + 1;
                        }
                        proof {
                            assert(avg == sum_from(savg, lseq, bs as nat));
                            assert(avg == step_loss_sum(orig, sparams, inp0, tgt0, sdraws, savg));
                        }
                        loss.dynamic_derivative(&exec_last, &mut batch_output, output_size,
                            targets, &output_indices, &mut output_sensitivities);
                        proof {
                            assert(output_sensitivities@ == crate::loss::mse_gradients(
                                step_acts(orig, sparams, inp0, sdraws, (n - 1) as nat),
                                tgt0,
                                out_idx,
                                output_size as nat,
                            ));
                        }
                        if n >= 2 {
                            let mut last_acts = self.layers[n - 2].activated_output();
                            proof {
                                assert(orig[n - 2].spec_size() == orig[
                                n - 1].spec_input_len());
                                vstd::arithmetic::div_mod::lemma_div_by_multiple(bs as int,
                                    output_size as int);
                                lemma_mul_is_commutative(bs as int, output_size as int);
                                assert(last_acts@ == step_acts(orig, sparams, inp0, sdraws, (n
                                    - 2) as nat));
                            }
                            let ghost last_before = self.layers@;
                            let mut last = self.layers.remove(n - 1);
                            last.backward(&mut last_acts, None, &mut output_sensitivities,
                                &optimizer);
                            self.layers.insert(n - 1, last);
                            proof {
                                assert(self.layers@ =~= last_before.update(n - 1, self.layers@[n
                                    - 1]));
                                assert(self.layers@[n - 1].spec_bmods() == step_bwd(orig, sparams,
                                    inp0, tgt0, sdraws, glr, (n - 1) as nat).0
                                    && self.layers@[n - 1].spec_wmods() == step_bwd(orig, sparams,
                                    inp0, tgt0, sdraws, glr, (n - 1) as nat).1
                                    && self.layers@[n - 1].spec_sensitivities() == step_bwd(orig,
                                    sparams, inp0, tgt0, sdraws, glr, (n - 1) as nat).2) by {
                                    assert(Seq::new((bs * orig[n - 1].spec_input_len()) as nat,
                                        |q: int| 0u32) =~= Seq::new(
                                        ((sdraws.len()) * orig[n - 1].spec_input_len()) as nat,
                                        |q: int| 0u32,
                                    ));
                                }
                                assert(bwd_done(self.layers@, orig, sparams, inp0, tgt0, sdraws,
                                    glr, n - 1, n as int));
                                assert(weights_match(self.layers@, sparams, 0, n as int));
                                assert(mods_match(self.layers@, sparams, 0, n - 1));
                                assert(fwd_done(self.layers@, orig, sparams, inp0, sdraws,
                                    n as int));
                            }
                            let mut j: usize = n - 1;
                            while j > 1
                                invariant
                                    1 <= j <= n - 1,
                                    self.layers@.len() == n,
                                    n == orig.len(),
                                    n >= 2,
                                    inputs.wf(),
                                    inputs@ == inp0,
                                    targets.wf(),
                                    targets@ == tgt0,
                                    forall|k2: int|
                                        0 <= k2 < n ==> (#[trigger] self.layers@[k2]).wf(),
                                    forall|k2: int|
                                        0 <= k2 < n ==> same_shape(
                                            #[trigger] self.layers@[k2],
                                            orig[k2],
                                        ),
                                    forall|k2: int|
                                        0 <= k2 < n ==> (
                                        #[trigger] self.layers@[k2]).spec_outputs().len() == bs
                                            * self.layers@[k2].spec_size()
                                            && self.layers@[k2].spec_activated().len() == bs
                                            * self.layers@[k2].spec_size()
                                            && self.layers@[k2].spec_sensitivities().len() == bs
                                            * self.layers@[k2].spec_input_len(),
                                    output_sensitivities.wf(),
                                    output_sensitivities@.len() == bs * output_size,
                                    bs >= 1,
                                    chained(orig),
                                    train_fits(orig, bs as int),
                                    step_ctx(orig, sparams, sdraws, inp0, in_idx, out_idx,
                                        bs as nat),
                                    weights_match(self.layers@, sparams, 0, n as int),
                                    mods_match(self.layers@, sparams, 0, j as int),
                                    fwd_done(self.layers@, orig, sparams, inp0, sdraws, j as int),
                                    bwd_done(self.layers@, orig, sparams, inp0, tgt0, sdraws, glr,
                                        j as int, n as int),
                                    input_size == orig[0].spec_input_len(),
                                    output_size == orig[n - 1].spec_size(),
                                    glr == optimizer.lr(),
                                    self.output_size == old(self).spec_output_size(),
                                decreases j,
                            {
                                let i2 = j - 1;
                                let mut prev_acts = self.layers[i2 - 1].activated_output();
                                let mut isens = self.layers[i2 + 1].sensitivities();
                                proof {
                                    assert(orig[i2 - 1].spec_size() == orig[
                                    i2 as int].spec_input_len());
                                    assert(orig[i2 as int].spec_size() == orig[i2
                                        + 1].spec_input_len());
                                    vstd::arithmetic::div_mod::lemma_div_by_multiple(bs as int,
                                        orig[i2 as int].spec_size() as int);
                                    lemma_mul_is_commutative(bs as int,
                                        orig[i2 as int].spec_size() as int);
                                    assert(prev_acts@ == step_acts(orig, sparams, inp0, sdraws, (
                                    i2 - 1) as nat));
                                    assert(isens@ == step_bwd(orig, sparams, inp0, tgt0, sdraws,
                                        glr, (i2 + 1) as nat).2);
                                }
                                let ghost before = self.layers@;
                                let mut layer = self.layers.remove(i2);
                                layer.backward(&mut prev_acts, None, &mut isens, &optimizer);
                                self.layers.insert(i2, layer);
                                proof {
                                    assert(self.layers@ =~= before.update(i2 as int,
                                        self.layers@[i2 as int]));
                                    assert(self.layers@[i2 as int].spec_bmods() == step_bwd(orig,
                                        sparams, inp0, tgt0, sdraws, glr, i2 as nat).0
                                        && self.layers@[i2 as int].spec_wmods() == step_bwd(orig,
                                        sparams, inp0, tgt0, sdraws, glr, i2 as nat).1
                                        && self.layers@[i2 as int].spec_sensitivities()
                                        == step_bwd(orig, sparams, inp0, tgt0, sdraws, glr,
                                        i2 as nat).2) by {
                                        assert(Seq::new((bs * orig[i2 as int].spec_input_len())
                                            as nat, |q: int| 0u32) =~= Seq::new(
                                            ((sdraws.len()) * orig[
                                            i2 as int].spec_input_len()) as nat,
                                            |q: int| 0u32,
                                        ));
                                    }
                                    assert(bwd_done(self.layers@, orig, sparams, inp0, tgt0,
                                        sdraws, glr, i2 as int, n as int));
                                    assert(weights_match(self.layers@, sparams, 0, n as int));
                                    assert(mods_match(self.layers@, sparams, 0, i2 as int));
                                    assert(fwd_done(self.layers@, orig, sparams, inp0, sdraws,
                                        i2 as int));
                                }
                                j = i2;
                            }
                            let mut first_isens = self.layers[1].sensitivities();
                            proof {
                                assert(orig[0].spec_size() == orig[1].spec_input_len());
                                vstd::arithmetic::div_mod::lemma_div_by_multiple(bs as int,
                                    orig[0].spec_size() as int);
                                lemma_mul_is_commutative(bs as int,
                                    orig[0].spec_size() as int);
                                assert(first_isens@ == step_bwd(orig, sparams, inp0, tgt0, sdraws,
                                    glr, 1nat).2);
                            }
                            let ghost first_before = self.layers@;
                            let mut first = self.layers.remove(0);
                            first.backward(inputs, Some(&input_indices), &mut first_isens,
                                &optimizer);
                            self.layers.insert(0, first);
                            proof {
                                assert(self.layers@ =~= first_before.update(0, self.layers@[0]));
                                assert(self.layers@[0].spec_bmods() == step_bwd(orig, sparams,
                                    inp0, tgt0, sdraws, glr, 0nat).0
                                    && self.layers@[0].spec_wmods() == step_bwd(orig, sparams,
                                    inp0, tgt0, sdraws, glr, 0nat).1
                                    && self.layers@[0].spec_sensitivities() == step_bwd(orig,
                                    sparams, inp0, tgt0, sdraws, glr, 0nat).2) by {
                                    assert(Seq::new((bs * orig[0].spec_input_len()) as nat,
                                        |q: int| 0u32) =~= Seq::new(
                                        ((sdraws.len()) * orig[0].spec_input_len()) as nat,
                                        |q: int| 0u32,
                                    ));
                                }
                                assert(bwd_done(self.layers@, orig, sparams, inp0, tgt0, sdraws,
                                    glr, 0, n as int));
                                assert(weights_match(self.layers@, sparams, 0, n as int));
                            }
                        } else {
                            proof {
                                vstd::arithmetic::div_mod::lemma_div_by_multiple(bs as int,
                                    output_size as int);
                                lemma_mul_is_commutative(bs as int, output_size as int);
                            }
                            let ghost only_before = self.layers@;
                            let mut only = self.layers.remove(0);
                            only.backward(inputs, Some(&input_indices), &mut output_sensitivities,
                                &optimizer);
                            self.layers.insert(0, only);
                            proof {
                                assert(self.layers@ =~= only_before.update(0, self.layers@[0]));
                                assert(self.layers@[0].spec_bmods() == step_bwd(orig, sparams,
                                    inp0, tgt0, sdraws, glr, 0nat).0
                                    && self.layers@[0].spec_wmods() == step_bwd(orig, sparams,
                                    inp0, tgt0, sdraws, glr, 0nat).1
                                    && self.layers@[0].spec_sensitivities() == step_bwd(orig,
                                    sparams, inp0, tgt0, sdraws, glr, 0nat).2) by {
                                    assert(Seq::new((bs * orig[0].spec_input_len()) as nat,
                                        |q: int| 0u32) =~= Seq::new(
                                        ((sdraws.len()) * orig[0].spec_input_len()) as nat,
                                        |q: int| 0u32,
                                    ));
                                }
                                assert(bwd_done(self.layers@, orig, sparams, inp0, tgt0, sdraws,
                                    glr, 0, n as int));
                                assert(weights_match(self.layers@, sparams, 0, n as int));
                            }
                        }
                        let mut a: usize = n;
                        while a > 0
                            invariant
                                a <= n,
                                self.layers@.len() == n,
                                n == orig.len(),
                                n >= 1,
                                inputs.wf(),
                                inputs@ == inp0,
                                targets.wf(),
                                targets@ == tgt0,
                                forall|k2: int|
                                    0 <= k2 < n ==> (#[trigger] self.layers@[k2]).wf(),
                                forall|k2: int|
                                    0 <= k2 < n ==> same_shape(
                                        #[trigger] self.layers@[k2],
                                        orig[k2],
                                    ),
                                output_sensitivities.wf(),
                                output_sensitivities@.len() == bs * output_size,
                                bs >= 1,
                                step_ctx(orig, sparams, sdraws, inp0, in_idx, out_idx, bs as nat),
                                weights_match(self.layers@, sparams, 0, a as int),
                                bwd_done(self.layers@, orig, sparams, inp0, tgt0, sdraws, glr, 0,
                                    a as int),
                                apply_done(self.layers@, orig, sparams, inp0, tgt0, sdraws, glr,
                                    a as int),
                                glr == optimizer.lr(),
                                self.output_size == old(self).spec_output_size(),
                            decreases a,
                        {
                            let a2 = a - 1;
                            let ghost before = self.layers@;
                            let mut layer = self.layers.remove(a2);
                            layer.apply_gradients(&optimizer, bs);
                            self.layers.insert(a2, layer);
                            proof {
                                assert(self.layers@ =~= before.update(a2 as int, self.layers@[a2
                                    as int]));
                                lemma_step_bwd_lens(orig, sparams, inp0, tgt0, sdraws, glr,
                                    a2 as nat);
                                assert(self.layers@[a2 as int].spec_weights() =~= train_step(orig,
                                    sparams, inp0, tgt0, sdraws, glr)[a2 as int].0);
                                assert(self.layers@[a2 as int].spec_biases() =~= train_step(orig,
                                    sparams, inp0, tgt0, sdraws, glr)[a2 as int].1);
                                assert(self.layers@[a2 as int].spec_wmods() =~= train_step(orig,
                                    sparams, inp0, tgt0, sdraws, glr)[a2 as int].2);
                                assert(self.layers@[a2 as int].spec_bmods() =~= train_step(orig,
                                    sparams, inp0, tgt0, sdraws, glr)[a2 as int].3);
                                assert(apply_done(self.layers@, orig, sparams, inp0, tgt0, sdraws,
                                    glr, a2 as int));
                                assert(weights_match(self.layers@, sparams, 0, a2 as int));
                                assert(bwd_done(self.layers@, orig, sparams, inp0, tgt0, sdraws,
                                    glr, 0, a2 as int));
                            }
                            a = a2;
                        }
                        proof {
                            assert(params_of(self.layers@) =~= train_step(orig, sparams, inp0,
                                tgt0, sdraws, glr));
                        }
                    },
                    Err(_) => {
                        proof {
                            assert(false);
                        }
                    },
                }
                proof {
                    assert(((step + 1) as nat) * (bs as nat) == (step as nat) * (bs as nat) + (
                    bs as nat)) by (nonlinear_arith);
                    let newe = edraws + sdraws;
                    lemma_run_steps_prefix(orig, epoch_params, inp0, tgt0, edraws, newe, glr,
                        bs as nat, ZERO_BITS, step as nat);
                    assert(newe.subrange(((step as nat) * (bs as nat)) as int, (((step
                        + 1) as nat) * (bs as nat)) as int) =~= sdraws);
                    assert(run_steps(orig, epoch_params, inp0, tgt0, newe, glr, bs as nat,
                        ZERO_BITS, (step + 1) as nat).0 == params_of(self.layers@));
                    assert(run_steps(orig, epoch_params, inp0, tgt0, newe, glr, bs as nat,
                        ZERO_BITS, (step + 1) as nat).1 == avg);
                    edraws = newe;
                }
                step = step + 1;
            }
            let ghost esum = avg;
            let denom = steps * bs;
            avg = div_val(avg, single_of(denom));
            last_loss = avg;
            proof {
                assert(((epoch + 1) as nat) * ((steps * bs) as nat) == (epoch as nat) * ((steps
                    * bs) as nat) + ((steps * bs) as nat)) by (nonlinear_arith);
                let newd = draws + edraws;
                lemma_run_epochs_prefix(orig, init_params, inp0, tgt0, draws, newd, glr,
                    bs as nat, steps as nat, epoch as nat);
                assert(newd.subrange(((epoch as nat) * ((steps * bs) as nat)) as int, (((epoch
                    + 1) as nat) * ((steps * bs) as nat)) as int) =~= edraws);
                assert(run_epochs(orig, init_params, inp0, tgt0, newd, glr, bs as nat,
                    steps as nat, (epoch + 1) as nat).0 == params_of(self.layers@));
                assert(run_epochs(orig, init_params, inp0, tgt0, newd, glr, bs as nat,
                    steps as nat, (epoch + 1) as nat).1 == last_loss);
                draws = newd;
            }
            epoch = epoch + 1;
        }
        proof {
            assert(trained_with(orig, self.layers@, inp0, tgt0, glr, epochs as nat,
                batch_size as int, last_loss, draws)) by {
                assert(params_of(self.layers@) == run_epochs(orig, init_params, inp0, tgt0, draws,
                    glr, bs as nat, steps as nat, epochs as nat).0);
            }
            assert(trained_from(orig, self.layers@, inp0, tgt0, glr, epochs as nat,
                batch_size as int, last_loss));
        }
        Ok(last_loss)
    }

    /// The whole model as bytes: the layer count, one (type, executor kind)
    /// header pair per layer, then every layer's payload, in order.
    pub fn as_bytes(&mut self) -> (r: Vec<u8>)
        requires
            old(self).wf(),
        ensures
            final(self).wf(),
            final(self).layers_seq().len() == old(self).layers_seq().len(),
            forall|k: int|
                0 <= k < old(self).layers_seq().len() ==> same_params(
                    #[trigger] final(self).layers_seq()[k],
                    old(self).layers_seq()[k],
                ),
            r@ == network_bytes(old(self).layers_seq()),
    {
        let ghost orig = old(self).layers_seq();
        let mut writer = VecWriter::new();
        let n = self.layers.len();
        writer.usize(n);
        let ghost head = be8_of(n as u64);
        proof {
            assert(writer@ =~= head + headers_of(orig.subrange(0, 0)));
        }
        let mut i: usize = 0;
        while i < n
            invariant
                i <= n,
                n == self.layers@.len(),
                n == orig.len(),
                forall|k: int| 0 <= k < n ==> (#[trigger] self.layers@[k]).wf(),
                forall|k: int| 0 <= k < n ==> same_params(#[trigger] self.layers@[k], orig[k]),
                head == be8_of(n as u64),
                writer@ == head + headers_of(orig.subrange(0, i as int)),
                self.output_size == old(self).spec_output_size(),
            decreases n - i,
        {
            writer.usize(self.layers[i].id());
            let kind: usize = match self.layers[i].exec() {
                Executor::CPU => 0,
                Executor::GPU => 1,
            };
            writer.usize(kind);
            i = i + 1;
            proof {
                assert(orig.subrange(0, i as int).drop_last() =~= orig.subrange(0, i - 1));
                assert(writer@ =~= head + headers_of(orig.subrange(0, i as int)));
            }
        }
        let ghost head2 = head + headers_of(orig);
        proof {
            assert(orig.subrange(0, n as int) =~= orig);
            assert(writer@ =~= head2 + payloads_of(orig.subrange(0, 0)));
        }
        let mut j: usize = 0;
        while j < n
            invariant
                j <= n,
                n == self.layers@.len(),
                n == orig.len(),
                forall|k: int| 0 <= k < n ==> (#[trigger] self.layers@[k]).wf(),
                forall|k: int| 0 <= k < n ==> same_params(#[trigger] self.layers@[k], orig[k]),
                head2 == be8_of(n as u64) + headers_of(orig),
                writer@ == head2 + payloads_of(orig.subrange(0, j as int)),
                self.output_size == old(self).spec_output_size(),
            decreases n - j,
        {
            let ghost before = self.layers@;
            let mut layer = self.layers.remove(j);
            layer.as_bytes(&mut writer);
            self.layers.insert(j, layer);
            j = j + 1;
            proof {
                assert(self.layers@ =~= before.update(j - 1, self.layers@[j - 1]));
                assert(orig.subrange(0, j as int).drop_last() =~= orig.subrange(0, j - 1));
                assert(writer@ =~= head2 + payloads_of(orig.subrange(0, j as int)));
            }
        }
        proof {
            assert(orig.subrange(0, n as int) =~= orig);
            assert(writer@ =~= network_bytes(orig));
        }
        writer.vec()
    }

    /// Rebuilds a network from its byte form. A stored accelerator kind uses
    /// the supplied executor, or the host when none is supplied; every other
    /// kind uses the host. The first layer whose stored type is not the dense
    /// tag fails with a decode error naming it.
    #[verifier::rlimit(100)]
    pub fn from_bytes(gpu_executor: Option<&Executor>, bytes: Vec<u8>) -> (r: Result<
        Network,
        Error,
    >)
        requires
            forall|j: nat|
                j < stored_count(bytes@) && types_valid(bytes@, j as int + 1) ==> (
                #[trigger] stored_il(bytes@, stored_count(bytes@) as int, j)) * stored_size(
                    bytes@,
                    stored_count(bytes@) as int,
                    j,
                ) <= usize::MAX,
        ensures
            r is Ok <==> types_valid(bytes@, stored_count(bytes@) as int),
            r matches Err(e) ==> exists|j: int|
                0 <= j < stored_count(bytes@) && (#[trigger] stored_type(bytes@, j)) != 0 && (
                forall|k: int| 0 <= k < j ==> stored_type(bytes@, k) == 0) && (e matches
                    Error::Decode(DecodeError::InvalidLayerType(v)) && v == stored_type(bytes@, j)),
            r matches Ok(net) ==> {
                let count = stored_count(bytes@) as int;
                &&& net.layers_seq().len() == count
                &&& (count >= 1 ==> net.wf())
                &&& forall|j: int|
                    0 <= j < count ==> {
                        let l = #[trigger] net.layers_seq()[j];
                        &&& l.spec_input_len() == stored_il(bytes@, count, j as nat)
                        &&& l.spec_size() == stored_size(bytes@, count, j as nat)
                        &&& l.spec_activation() == stored_act(bytes@, count, j as nat)
                        &&& l.spec_weights() == stored_weights(bytes@, count, j as nat)
                        &&& l.spec_biases() == stored_biases(bytes@, count, j as nat)
                        &&& l.spec_exec() == (if stored_exec_kind(bytes@, j) == 1 {
                            match gpu_executor {
                                Some(e) => *e,
                                None => Executor::CPU,
                            }
                        } else {
                            Executor::CPU
                        })
                    }
            },
    {
        let ghost data = bytes@;
        let ghost n_ghost = data.len() as int;
        let cpu = Executor::CPU;
        let gpu_exec: &Executor = match gpu_executor {
            Some(e) => e,
            None => &cpu,
        };
        let mut reader = CursorReader::new(bytes.as_slice());
        let layer_count = reader.usize();
        let ghost count = stored_count(data) as int;
        proof {
            lemma_read_sync(data, 0, 0, 8);
        }
        let mut kinds: Vec<usize> = Vec::new();
        let mut execs: Vec<usize> = Vec::new();
        let mut j: usize = 0;
        while j < layer_count
            invariant
                data == bytes@,
                j <= layer_count,
                layer_count == stored_count(data),
                reader.data() == data,
                cursor_sync(reader.position() as int, 8 + 16 * j, data.len() as int),
                kinds@.len() == j,
                execs@.len() == j,
                forall|k: int| 0 <= k < j ==> #[trigger] kinds@[k] == stored_type(data, k),
                forall|k: int| 0 <= k < j ==> #[trigger] execs@[k] == stored_exec_kind(data, k),
            decreases layer_count - j,
        {
            proof {
                lemma_read_sync(data, reader.position() as int, 8 + 16 * j, 8);
            }
            let t = reader.usize();
            proof {
                lemma_read_sync(data, reader.position() as int, 16 + 16 * j, 8);
            }
            let e = reader.usize();
            kinds.push(t);
            execs.push(e);
            j = j + 1;
        }
        let mut layers: Vec<Dense> = Vec::new();
        let mut last_exec = Executor::CPU;
        let mut i: usize = 0;
        while i < layer_count
            invariant
                data == bytes@,
                i <= layer_count,
                layer_count == stored_count(data),
                count == layer_count as int,
                reader.data() == data,
                cursor_sync(reader.position() as int, payload_pos(data, count, i as nat),
                    data.len() as int),
                kinds@.len() == layer_count,
                execs@.len() == layer_count,
                forall|k: int|
                    0 <= k < layer_count ==> #[trigger] kinds@[k] == stored_type(data, k),
                forall|k: int|
                    0 <= k < layer_count ==> #[trigger] execs@[k] == stored_exec_kind(data, k),
                forall|k: int| 0 <= k < i ==> #[trigger] stored_type(data, k) == 0,
                layers@.len() == i,
                forall|j2: int|
                    0 <= j2 < i ==> {
                        let l = #[trigger] layers@[j2];
                        &&& l.wf()
                        &&& l.spec_input_len() == stored_il(data, count, j2 as nat)
                        &&& l.spec_size() == stored_size(data, count, j2 as nat)
                        &&& l.spec_activation() == stored_act(data, count, j2 as nat)
                        &&& l.spec_weights() == stored_weights(data, count, j2 as nat)
                        &&& l.spec_biases() == stored_biases(data, count, j2 as nat)
                        &&& l.spec_exec() == (if stored_exec_kind(data, j2) == 1 {
                            match gpu_executor {
                                Some(e) => *e,
                                None => Executor::CPU,
                            }
                        } else {
                            Executor::CPU
                        })
                    },
                forall|j2: nat|
                    j2 < stored_count(data) && types_valid(data, j2 as int + 1) ==> (
                    #[trigger] stored_il(data, count, j2)) * stored_size(data, count,
                    j2) <= usize::MAX,
                match gpu_executor {
                    Some(e) => *gpu_exec == *e,
                    None => *gpu_exec == Executor::CPU,
                },
                cpu == Executor::CPU,
            decreases layer_count - i,
        {
            let t = kinds[i];
            if t != 0 {
                proof {
                    assert(stored_type(data, i as int) == t && t != 0);
                }
                return Err(Error::Decode(DecodeError::InvalidLayerType(t)));
            }
            let current: &Executor = if execs[i] == 1 {
                gpu_exec
            } else {
                &cpu
            };
            let next: &Executor = if i + 1 < layer_count && execs[i + 1] == 1 {
                gpu_exec
            } else {
                &cpu
            };
            let prev = last_exec;
            let ghost ppos = payload_pos(data, count, i as nat);
            let ghost q = reader.position() as int;
            proof {
                assert(types_valid(data, i as int + 1)) by {
                    assert(stored_type(data, i as int) == 0);
                }
                lemma_read_sync(data, q, ppos, 0);
                lemma_read_sync(data, q + 8, ppos + 8, 0);
                assert(be8_at(data, q) as usize == stored_il(data, count, i as nat));
                assert(be8_at(data, q + 8) as usize == stored_size(data, count, i as nat));
                assert(stored_il(data, count, i as nat) * stored_size(data, count, i as nat)
                    <= usize::MAX);
                assert((be8_at(data, q) as usize) * (be8_at(data, q + 8) as usize)
                    <= usize::MAX);
            }
            let layer = Dense::from_bytes((&prev, current, next), &mut reader);
            proof {
                lemma_read_sync(data, q + 16, ppos + 16, 0);
                lemma_read_sync(data, q + 24, ppos + 24, 0);
                assert(layer.spec_weights() =~= stored_weights(data, count, i as nat)) by {
                    assert forall|w: int|
                        0 <= w < layer.spec_weights().len() implies #[trigger] layer.spec_weights()[w]
                        == stored_weights(data, count, i as nat)[w] by {
                        lemma_read_sync(data, q + 24 + 4 * w, ppos + 24 + 4 * w, 0);
                    }
                }
                assert(layer.spec_biases() =~= stored_biases(data, count, i as nat)) by {
                    let wl = 4 * (stored_il(data, count, i as nat)
                        * stored_size(data, count, i as nat));
                    assert forall|w: int|
                        0 <= w < layer.spec_biases().len() implies #[trigger] layer.spec_biases()[w]
                        == stored_biases(data, count, i as nat)[w] by {
                        lemma_read_sync(data, q + 24 + wl + 4 * w, ppos + 24 + wl + 4 * w, 0);
                    }
                }
                assert(cursor_sync(reader.position() as int, payload_pos(data, count, (i
                    + 1) as nat), data.len() as int));
                assert(layer.spec_activation() == stored_act(data, count, i as nat));
            }
            layers.push(layer);
            last_exec = *current;
            i = i + 1;
        }
        let output_size: usize = if layer_count >= 1 {
            layers[layer_count - 1].output_size()
        } else {
            0
        };
        Ok(Network { layers, output_size })
    }
}

/// The executor kind a layer's header stores: 1 for the accelerator, 0 for
/// the host.
pub open spec fn spec_exec_kind(d: Dense) -> u64 {
    if d.spec_exec() == Executor::GPU {
        1
    } else {
        0
    }
}

/// The header block: one (type, executor kind) pair of 8-byte values per
/// layer. Every layer of this crate is dense, type 0.
pub open spec fn headers_of(layers: Seq<Dense>) -> Seq<u8>
    decreases layers.len(),
{
    if layers.len() == 0 {
        Seq::<u8>::empty()
    } else {
        headers_of(layers.drop_last()) + be8_of(0u64) + be8_of(spec_exec_kind(layers.last()))
    }
}

/// Every layer's payload, in order.
pub open spec fn payloads_of(layers: Seq<Dense>) -> Seq<u8>
    decreases layers.len(),
{
    if layers.len() == 0 {
        Seq::<u8>::empty()
    } else {
        payloads_of(layers.drop_last()) + dense_payload(
            layers.last().spec_input_len(),
            layers.last().spec_size(),
            layers.last().spec_activation(),
            layers.last().spec_weights(),
            layers.last().spec_biases(),
        )
    }
}

/// The whole model's byte form.
pub open spec fn network_bytes(layers: Seq<Dense>) -> Seq<u8> {
    be8_of(layers.len() as u64) + headers_of(layers) + payloads_of(layers)
}

/// The stored layer count.
pub open spec fn stored_count(data: Seq<u8>) -> usize {
    be8_at(data, 0) as usize
}

/// The stored type tag of layer `j`.
pub open spec fn stored_type(data: Seq<u8>, j: int) -> usize {
    be8_at(data, 8 + 16 * j) as usize
}

/// The stored executor kind of layer `j`.
pub open spec fn stored_exec_kind(data: Seq<u8>, j: int) -> usize {
    be8_at(data, 16 + 16 * j) as usize
}

/// Whether the first `count` stored type tags are all the dense tag.
pub open spec fn types_valid(data: Seq<u8>, count: int) -> bool {
    forall|j: int| 0 <= j < count ==> #[trigger] stored_type(data, j) == 0
}

/// Where layer `j`'s payload starts: after the count, the headers, and every
/// earlier payload.
pub open spec fn payload_pos(data: Seq<u8>, count: int, j: nat) -> int
    decreases j,
{
    if j == 0 {
        8 + 16 * count
    } else {
        let p = payload_pos(data, count, (j - 1) as nat);
        p + dense_payload_len(be8_at(data, p) as usize, be8_at(data, p + 8) as usize)
    }
}

/// The stored input width of layer `j`.
pub open spec fn stored_il(data: Seq<u8>, count: int, j: nat) -> usize {
    be8_at(data, payload_pos(data, count, j)) as usize
}

/// The stored output width of layer `j`.
pub open spec fn stored_size(data: Seq<u8>, count: int, j: nat) -> usize {
    be8_at(data, payload_pos(data, count, j) + 8) as usize
}

/// The stored activation kind of layer `j`.
pub open spec fn stored_act(data: Seq<u8>, count: int, j: nat) -> crate::activation::Activation {
    activation_from_id(be8_at(data, payload_pos(data, count, j) + 16) as usize)
}

/// The stored weights of layer `j`.
pub open spec fn stored_weights(data: Seq<u8>, count: int, j: nat) -> Seq<u32> {
    singles_at(
        data,
        payload_pos(data, count, j) + 24,
        (stored_il(data, count, j) * stored_size(data, count, j)) as nat,
    )
}

/// The stored biases of layer `j`.
pub open spec fn stored_biases(data: Seq<u8>, count: int, j: nat) -> Seq<u32> {
    singles_at(
        data,
        payload_pos(data, count, j) + 24 + 4 * (stored_il(data, count, j) * stored_size(
            data,
            count,
            j,
        )),
        stored_size(data, count, j) as nat,
    )
}

/// Two layers agree on everything the forward mathematics reads; their
/// executors may differ.
pub open spec fn same_math(a: Dense, b: Dense) -> bool {
    &&& a.spec_weights() == b.spec_weights()
    &&& a.spec_biases() == b.spec_biases()
    &&& a.spec_input_len() == b.spec_input_len()
    &&& a.spec_size() == b.spec_size()
    &&& a.spec_activation() == b.spec_activation()
}

/// Chains that agree on the forward mathematics produce the same outputs.
pub proof fn lemma_chain_same_math(a: Seq<Dense>, b: Seq<Dense>, input: Seq<u32>, i: nat)
    requires
        a.len() == b.len(),
        i <= a.len(),
        forall|k: int| 0 <= k < a.len() ==> same_math(#[trigger] a[k], b[k]),
    ensures
        chain_acts(a, input, i) == chain_acts(b, input, i),
    decreases i,
{
    if i > 0 {
        lemma_chain_same_math(a, b, input, (i - 1) as nat);
    }
}

/// A run of singles occupies four bytes per value.
pub proof fn lemma_singles_len(s: Seq<u32>)
    ensures
        crate::layer::dense::singles_of(s).len() == 4 * s.len(),
    decreases s.len(),
{
    if s.len() > 0 {
        lemma_singles_len(s.drop_last());
    }
}

/// The bytes of the `i`-th single in a run are its four big-endian bytes.
pub proof fn lemma_singles_block(s: Seq<u32>, i: int)
    requires
        0 <= i < s.len(),
    ensures
        crate::layer::dense::singles_of(s).subrange(4 * i, 4 * i + 4) == crate::utils::vec_utils::be4_of(
            s[i],
        ),
    decreases s.len(),
{
    lemma_singles_len(s);
    lemma_singles_len(s.drop_last());
    if i == s.len() - 1 {
        assert(crate::layer::dense::singles_of(s).subrange(4 * i, 4 * i + 4)
            =~= crate::utils::vec_utils::be4_of(s[i]));
    } else {
        lemma_singles_block(s.drop_last(), i);
        assert(crate::layer::dense::singles_of(s).subrange(4 * i, 4 * i + 4)
            =~= crate::layer::dense::singles_of(s.drop_last()).subrange(4 * i, 4 * i + 4));
    }
}

/// Every stored single of a run written at `off` reads back unchanged.
pub proof fn lemma_singles_read_back(enc: Seq<u8>, off: int, s: Seq<u32>)
    requires
        0 <= off,
        off + 4 * s.len() <= enc.len(),
        enc.subrange(off, off + 4 * s.len()) == crate::layer::dense::singles_of(s),
    ensures
        singles_at(enc, off, s.len()) == s,
{
    lemma_singles_len(s);
    assert forall|i: int| 0 <= i < s.len() implies #[trigger] singles_at(enc, off, s.len())[i]
        == s[i] by {
        lemma_singles_block(s, i);
        assert(enc.subrange(off + 4 * i, off + 4 * i + 4) =~= crate::layer::dense::singles_of(
            s,
        ).subrange(4 * i, 4 * i + 4));
        crate::utils::vec_utils::lemma_be4_round_trip(s[i], enc, off + 4 * i);
    }
    assert(singles_at(enc, off, s.len()) =~= s);
}

/// A payload written at `off` reads back field for field.
pub proof fn lemma_payload_fields(
    enc: Seq<u8>,
    off: int,
    il: usize,
    size: usize,
    act: crate::activation::Activation,
    w: Seq<u32>,
    b: Seq<u32>,
)
    requires
        0 <= off,
        w.len() == il * size,
        b.len() == size,
        off + dense_payload_len(il, size) <= enc.len(),
        enc.subrange(off, off + dense_payload_len(il, size)) == dense_payload(il, size, act, w, b),
    ensures
        be8_at(enc, off) as usize == il,
        be8_at(enc, off + 8) as usize == size,
        activation_from_id(be8_at(enc, off + 16) as usize) == act,
        singles_at(enc, off + 24, (il * size) as nat) == w,
        singles_at(enc, off + 24 + 4 * (il * size), size as nat) == b,
{
    lemma_singles_len(w);
    lemma_singles_len(b);
    let payload = dense_payload(il, size, act, w, b);
    assert(payload.len() == dense_payload_len(il, size));
    assert(forall|x: int|
        0 <= x < payload.len() ==> enc[off + x] == #[trigger] payload[x]) by {
        assert(forall|x: int|
            0 <= x < payload.len() ==> #[trigger] enc.subrange(
                off,
                off + dense_payload_len(il, size),
            )[x] == payload[x]);
    }
    assert(enc.subrange(off, off + 8) =~= be8_of(il as u64)) by {
        assert forall|y: int| 0 <= y < 8 implies #[trigger] enc.subrange(off, off + 8)[y] == be8_of(
            il as u64,
        )[y] by {
            assert(enc[off + y] == payload[y]);
            assert(payload[y] == be8_of(il as u64)[y]);
        }
    }
    crate::utils::vec_utils::lemma_be8_round_trip(il as u64, enc, off);
    assert(enc.subrange(off + 8, off + 16) =~= be8_of(size as u64)) by {
        assert forall|y: int| 0 <= y < 8 implies #[trigger] enc.subrange(off + 8, off + 16)[y] == be8_of(
            size as u64,
        )[y] by {
            assert(enc[off + (8 + y)] == payload[8 + y]);
            assert(payload[8 + y] == be8_of(size as u64)[y]);
        }
    }
    crate::utils::vec_utils::lemma_be8_round_trip(size as u64, enc, off + 8);
    assert(enc.subrange(off + 16, off + 24) =~= be8_of(act.id_spec() as u64)) by {
        assert forall|y: int| 0 <= y < 8 implies #[trigger] enc.subrange(off + 16, off + 24)[y] == be8_of(
            act.id_spec() as u64,
        )[y] by {
            assert(enc[off + (16 + y)] == payload[16 + y]);
            assert(payload[16 + y] == be8_of(act.id_spec() as u64)[y]);
        }
    }
    crate::utils::vec_utils::lemma_be8_round_trip(act.id_spec() as u64, enc, off + 16);
    crate::activation::lemma_activation_id_round_trip(act);
    assert(enc.subrange(off + 24, off + 24 + 4 * w.len()) =~= crate::layer::dense::singles_of(
        w,
    )) by {
        assert forall|y: int| 0 <= y < 4 * w.len() implies #[trigger] enc.subrange(
            off + 24,
            off + 24 + 4 * w.len(),
        )[y] == crate::layer::dense::singles_of(w)[y] by {
            assert(enc[off + (24 + y)] == payload[24 + y]);
            assert(payload[24 + y] == crate::layer::dense::singles_of(w)[y]);
        }
    }
    lemma_singles_read_back(enc, off + 24, w);
    assert(enc.subrange(off + 24 + 4 * (il * size), off + 24 + 4 * (il * size) + 4 * b.len())
        =~= crate::layer::dense::singles_of(b)) by {
        assert forall|y: int| 0 <= y < 4 * b.len() implies #[trigger] enc.subrange(
            off + 24 + 4 * (il * size),
            off + 24 + 4 * (il * size) + 4 * b.len(),
        )[y] == crate::layer::dense::singles_of(b)[y] by {
            assert(enc[off + (24 + 4 * (il * size) + y)] == payload[24 + 4 * (il * size) + y]);
            assert(payload[24 + 4 * (il * size) + y] == crate::layer::dense::singles_of(b)[y]);
        }
    }
    lemma_singles_read_back(enc, off + 24 + 4 * (il * size), b);
}

/// The header block is sixteen bytes per layer.
pub proof fn lemma_headers_len(layers: Seq<Dense>)
    ensures
        headers_of(layers).len() == 16 * layers.len(),
    decreases layers.len(),
{
    if layers.len() > 0 {
        lemma_headers_len(layers.drop_last());
    }
}

/// Where one byte of the header block comes from: the front of the block is
/// the shorter chain's block, and the last sixteen bytes are the last layer's
/// two stored values.
pub proof fn lemma_headers_index(layers: Seq<Dense>, x: int)
    requires
        layers.len() >= 1,
        0 <= x < 16 * layers.len(),
    ensures
        headers_of(layers)[x] == (if x < 16 * (layers.len() - 1) {
            headers_of(layers.drop_last())[x]
        } else if x < 16 * (layers.len() - 1) + 8 {
            be8_of(0u64)[x - 16 * (layers.len() - 1)]
        } else {
            be8_of(spec_exec_kind(layers.last()))[x - (16 * (layers.len() - 1) + 8)]
        }),
{
    lemma_headers_len(layers.drop_last());
}

/// Layer `j`'s header holds a zero type tag, then its executor kind.
pub proof fn lemma_headers_at(layers: Seq<Dense>, j: int)
    requires
        0 <= j < layers.len(),
    ensures
        headers_of(layers).subrange(16 * j, 16 * j + 8) == be8_of(0u64),
        headers_of(layers).subrange(16 * j + 8, 16 * j + 16) == be8_of(
            spec_exec_kind(layers[j]),
        ),
    decreases layers.len(),
{
    lemma_headers_len(layers);
    lemma_headers_len(layers.drop_last());
    if j == layers.len() - 1 {
        assert(headers_of(layers).subrange(16 * j, 16 * j + 8) =~= be8_of(0u64)) by {
            assert forall|y: int| 0 <= y < 8 implies #[trigger] headers_of(layers).subrange(
                16 * j,
                16 * j + 8,
            )[y] == be8_of(0u64)[y] by {
                lemma_headers_index(layers, 16 * j + y);
            }
        }
        assert(headers_of(layers).subrange(16 * j + 8, 16 * j + 16) =~= be8_of(
            spec_exec_kind(layers[j]),
        )) by {
            assert forall|y: int| 0 <= y < 8 implies #[trigger] headers_of(layers).subrange(
                16 * j + 8,
                16 * j + 16,
            )[y] == be8_of(spec_exec_kind(layers[j]))[y] by {
                lemma_headers_index(layers, 16 * j + 8 + y);
            }
        }
    } else {
        lemma_headers_at(layers.drop_last(), j);
        assert(headers_of(layers).subrange(16 * j, 16 * j + 8) =~= headers_of(
            layers.drop_last(),
        ).subrange(16 * j, 16 * j + 8)) by {
            assert forall|y: int| 0 <= y < 8 implies #[trigger] headers_of(layers).subrange(
                16 * j,
                16 * j + 8,
            )[y] == headers_of(layers.drop_last()).subrange(16 * j, 16 * j + 8)[y] by {
                lemma_headers_index(layers, 16 * j + y);
            }
        }
        assert(headers_of(layers).subrange(16 * j + 8, 16 * j + 16) =~= headers_of(
            layers.drop_last(),
        ).subrange(16 * j + 8, 16 * j + 16)) by {
            assert forall|y: int| 0 <= y < 8 implies #[trigger] headers_of(layers).subrange(
                16 * j + 8,
                16 * j + 16,
            )[y] == headers_of(layers.drop_last()).subrange(16 * j + 8, 16 * j + 16)[y] by {
                lemma_headers_index(layers, 16 * j + 8 + y);
            }
        }
    }
}

/// Appending one layer appends exactly its payload.
pub proof fn lemma_payloads_step(layers: Seq<Dense>, j: int)
    requires
        0 <= j < layers.len(),
    ensures
        payloads_of(layers.subrange(0, j + 1)) == payloads_of(layers.subrange(0, j))
            + dense_payload(
            layers[j].spec_input_len(),
            layers[j].spec_size(),
            layers[j].spec_activation(),
            layers[j].spec_weights(),
            layers[j].spec_biases(),
        ),
{
    assert(layers.subrange(0, j + 1).drop_last() =~= layers.subrange(0, j));
    assert(layers.subrange(0, j + 1).last() == layers[j]);
}

/// The payload block of the first `j` layers stands unchanged at the front of
/// the whole payload block.
pub proof fn lemma_payloads_prefix(layers: Seq<Dense>, j: int)
    requires
        0 <= j <= layers.len(),
    ensures
        payloads_of(layers.subrange(0, j)).len() <= payloads_of(layers).len(),
        payloads_of(layers).subrange(0, payloads_of(layers.subrange(0, j)).len() as int)
            == payloads_of(layers.subrange(0, j)),
    decreases layers.len() - j,
{
    if j == layers.len() {
        assert(layers.subrange(0, j) =~= layers);
        assert(payloads_of(layers).subrange(0, payloads_of(layers).len() as int) =~= payloads_of(
            layers,
        ));
    } else {
        lemma_payloads_step(layers, j);
        lemma_payloads_prefix(layers, j + 1);
        let shorter = payloads_of(layers.subrange(0, j));
        let longer = payloads_of(layers.subrange(0, j + 1));
        assert(payloads_of(layers).subrange(0, shorter.len() as int) =~= shorter) by {
            assert(longer.subrange(0, shorter.len() as int) =~= shorter);
            assert(payloads_of(layers).subrange(0, longer.len() as int) == longer);
            assert(forall|x: int|
                0 <= x < shorter.len() ==> payloads_of(layers)[x] == #[trigger] longer[x]);
        }
    }
}

/// The stored fields of layer `k` in a byte form are exactly this layer's.
pub open spec fn parses_layer(enc: Seq<u8>, count: int, k: int, l: Dense) -> bool {
    &&& stored_il(enc, count, k as nat) == l.spec_input_len()
    &&& stored_size(enc, count, k as nat) == l.spec_size()
    &&& stored_act(enc, count, k as nat) == l.spec_activation()
    &&& stored_weights(enc, count, k as nat) == l.spec_weights()
    &&& stored_biases(enc, count, k as nat) == l.spec_biases()
}

/// The bytes of layer `j`'s payload stand unchanged inside the whole byte
/// form, right after the count, the headers and the earlier payloads.
#[verifier::rlimit(100)]
pub proof fn lemma_payload_block_at(layers: Seq<Dense>, j: int)
    requires
        forall|k: int| 0 <= k < layers.len() ==> (#[trigger] layers[k]).wf(),
        0 <= j < layers.len(),
    ensures
        ({
            let enc = network_bytes(layers);
            let base = 8 + 16 * layers.len() + payloads_of(layers.subrange(0, j)).len();
            let l = layers[j];
            let plen = dense_payload_len(l.spec_input_len(), l.spec_size());
            &&& base + plen <= enc.len()
            &&& enc.subrange(base as int, base + plen) == dense_payload(
                l.spec_input_len(),
                l.spec_size(),
                l.spec_activation(),
                l.spec_weights(),
                l.spec_biases(),
            )
        }),
{
    let enc = network_bytes(layers);
    let base = 8 + 16 * layers.len() + payloads_of(layers.subrange(0, j)).len();
    let l = layers[j];
    let plen = dense_payload_len(l.spec_input_len(), l.spec_size());
    lemma_headers_len(layers);
    l.lemma_wf_lens();
    lemma_singles_len(l.spec_weights());
    lemma_singles_len(l.spec_biases());
    lemma_payloads_step(layers, j);
    lemma_payloads_prefix(layers, j + 1);
    let before = payloads_of(layers.subrange(0, j));
    let upto = payloads_of(layers.subrange(0, j + 1));
    let payload = dense_payload(
        l.spec_input_len(),
        l.spec_size(),
        l.spec_activation(),
        l.spec_weights(),
        l.spec_biases(),
    );
    assert(payload.len() == plen);
    assert(upto.len() == before.len() + plen);
    assert(enc.subrange(base as int, base + plen) =~= payload) by {
        assert forall|x: int| 0 <= x < plen implies #[trigger] enc.subrange(
            base as int,
            base + plen,
        )[x] == payload[x] by {
            assert(enc[8 + 16 * layers.len() + (before.len() + x)] == payloads_of(
                layers,
            )[before.len() + x]);
            assert(payloads_of(layers)[before.len() + x] == payloads_of(layers).subrange(
                0,
                upto.len() as int,
            )[before.len() + x]);
            assert(upto[before.len() + x] == payload[x]);
        }
    }
}

/// One parsing step: with layer `j`'s payload position known, its stored
/// fields are the layer's own, and the next payload position follows.
#[verifier::rlimit(100)]
pub proof fn lemma_parse_step(layers: Seq<Dense>, j: int)
    requires
        forall|k: int| 0 <= k < layers.len() ==> (#[trigger] layers[k]).wf(),
        0 <= j < layers.len(),
        payload_pos(network_bytes(layers), layers.len() as int, j as nat) == 8 + 16 * layers.len()
            + payloads_of(layers.subrange(0, j)).len(),
    ensures
        payload_pos(network_bytes(layers), layers.len() as int, (j + 1) as nat) == 8 + 16
            * layers.len() + payloads_of(layers.subrange(0, j + 1)).len(),
        parses_layer(network_bytes(layers), layers.len() as int, j, layers[j]),
{
    let enc = network_bytes(layers);
    let count = layers.len() as int;
    let base = payload_pos(enc, count, j as nat);
    let l = layers[j];
    l.lemma_wf_lens();
    lemma_singles_len(l.spec_weights());
    lemma_singles_len(l.spec_biases());
    lemma_payloads_step(layers, j);
    lemma_payload_block_at(layers, j);
    let plen = dense_payload_len(l.spec_input_len(), l.spec_size());
    lemma_payload_fields(enc, base, l.spec_input_len(), l.spec_size(), l.spec_activation(),
        l.spec_weights(), l.spec_biases());
    assert(parses_layer(enc, count, j, l));
    assert(payload_pos(enc, count, (j + 1) as nat) == base + plen);
}

/// The header bytes stand unchanged inside the whole byte form.
#[verifier::rlimit(100)]
#[verifier::spinoff_prover]
pub proof fn lemma_headers_embedded(layers: Seq<Dense>)
    ensures
        16 * layers.len() + 8 <= network_bytes(layers).len(),
        network_bytes(layers).subrange(8, 8 + 16 * layers.len() as int) == headers_of(layers),
{
    let enc = network_bytes(layers);
    lemma_headers_len(layers);
    let h = headers_of(layers);
    assert(enc.subrange(8, 8 + 16 * layers.len() as int) =~= h) by {
        assert forall|y: int| 0 <= y < 16 * layers.len() implies #[trigger] enc.subrange(
            8,
            8 + 16 * layers.len() as int,
        )[y] == h[y] by {
            assert(enc[8 + y] == h[y]);
        }
    }
}

/// The stored header of layer `j` in a written byte form: the dense tag and
/// the layer's executor kind.
#[verifier::rlimit(100)]
#[verifier::spinoff_prover]
pub proof fn lemma_header_read(layers: Seq<Dense>, j: int)
    requires
        0 <= j < layers.len(),
    ensures
        stored_type(network_bytes(layers), j) == 0,
        stored_exec_kind(network_bytes(layers), j) == spec_exec_kind(layers[j]) as usize,
{
    let enc = network_bytes(layers);
    lemma_headers_len(layers);
    lemma_headers_at(layers, j);
    lemma_headers_embedded(layers);
    let h = headers_of(layers);
    let block = enc.subrange(8, 8 + 16 * layers.len() as int);
    assert(enc.subrange(8 + 16 * j, 8 + 16 * j + 8) =~= be8_of(0u64)) by {
        assert forall|y: int| 0 <= y < 8 implies #[trigger] enc.subrange(
            8 + 16 * j,
            8 + 16 * j + 8,
        )[y] == be8_of(0u64)[y] by {
            assert(block[16 * j + y] == h[16 * j + y]);
            assert(enc[8 + (16 * j + y)] == block[16 * j + y]);
            assert(h.subrange(16 * j, 16 * j + 8)[y] == h[16 * j + y]);
        }
    }
    crate::utils::vec_utils::lemma_be8_round_trip(0u64, enc, 8 + 16 * j);
    assert(enc.subrange(8 + 16 * j + 8, 8 + 16 * j + 16) =~= be8_of(spec_exec_kind(layers[j])))
        by {
        assert forall|y: int| 0 <= y < 8 implies #[trigger] enc.subrange(
            8 + 16 * j + 8,
            8 + 16 * j + 16,
        )[y] == be8_of(spec_exec_kind(layers[j]))[y] by {
            assert(block[16 * j + 8 + y] == h[16 * j + 8 + y]);
            assert(enc[8 + (16 * j + 8 + y)] == block[16 * j + 8 + y]);
            assert(h.subrange(16 * j + 8, 16 * j + 16)[y] == h[16 * j + 8 + y]);
        }
    }
    crate::utils::vec_utils::lemma_be8_round_trip(spec_exec_kind(layers[j]), enc, 16 + 16 * j);
}

/// Reading the byte form of a dense-only chain finds the layer count, dense
/// type tags throughout, each stored executor kind, and each layer's exact
/// parameters.
#[verifier::rlimit(100)]
#[verifier::spinoff_prover]
pub proof fn lemma_network_bytes_parse(layers: Seq<Dense>, j: int)
    requires
        forall|k: int| 0 <= k < layers.len() ==> (#[trigger] layers[k]).wf(),
        layers.len() <= usize::MAX,
        0 <= j <= layers.len(),
    ensures
        stored_count(network_bytes(layers)) == layers.len(),
        payload_pos(network_bytes(layers), layers.len() as int, j as nat) == 8 + 16 * layers.len()
            + payloads_of(layers.subrange(0, j)).len(),
        forall|k: int|
            0 <= k < j ==> #[trigger] parses_layer(
                network_bytes(layers),
                layers.len() as int,
                k,
                layers[k],
            ),
    decreases j,
{
    let enc = network_bytes(layers);
    lemma_headers_len(layers);
    assert(enc.subrange(0, 8) =~= be8_of(layers.len() as u64));
    crate::utils::vec_utils::lemma_be8_round_trip(layers.len() as u64, enc, 0);
    if j == 0 {
        assert(payloads_of(layers.subrange(0, 0)) =~= payloads_of(Seq::<Dense>::empty())) by {
            assert(layers.subrange(0, 0) =~= Seq::<Dense>::empty());
        }
    } else {
        lemma_network_bytes_parse(layers, j - 1);
        lemma_parse_step(layers, j - 1);
    }
}

/// Round trip: a dense-only network written to bytes and decoded again has
/// layers with the very same parameters, and therefore computes the same
/// forward pass on every input. The decoded layers' executors may differ,
/// which the forward mathematics never reads.
pub proof fn lemma_round_trip(original: Seq<Dense>, decoded: Seq<Dense>, input: Seq<u32>)
    requires
        forall|k: int| 0 <= k < original.len() ==> (#[trigger] original[k]).wf(),
        original.len() <= usize::MAX,
        decoded.len() == stored_count(network_bytes(original)),
        forall|k: int|
            0 <= k < decoded.len() ==> {
                let enc = network_bytes(original);
                let count = stored_count(enc) as int;
                let l = #[trigger] decoded[k];
                &&& l.spec_input_len() == stored_il(enc, count, k as nat)
                &&& l.spec_size() == stored_size(enc, count, k as nat)
                &&& l.spec_activation() == stored_act(enc, count, k as nat)
                &&& l.spec_weights() == stored_weights(enc, count, k as nat)
                &&& l.spec_biases() == stored_biases(enc, count, k as nat)
            },
    ensures
        decoded.len() == original.len(),
        types_valid(network_bytes(original), original.len() as int),
        forall|k: int|
            0 <= k < original.len() ==> same_math(#[trigger] decoded[k], original[k]),
        chain_acts(decoded, input, decoded.len() as nat) == chain_acts(
            original,
            input,
            original.len() as nat,
        ),
{
    lemma_network_bytes_parse(original, original.len() as int);
    assert forall|k: int| 0 <= k < original.len() implies #[trigger] stored_type(
        network_bytes(original),
        k,
    ) == 0 by {
        lemma_header_read(original, k);
    }
    assert forall|k: int| 0 <= k < original.len() implies same_math(
        #[trigger] decoded[k],
        original[k],
    ) by {
        assert(parses_layer(network_bytes(original), original.len() as int, k, original[k]));
    }
    lemma_chain_same_math(decoded, original, input, original.len() as nat);
}

/// One layer's trainable state: weights, biases, and the two gradient
/// accumulators, as the training fold tracks them.
pub open spec fn params_of(layers: Seq<Dense>) -> Seq<(Seq<u32>, Seq<u32>, Seq<u32>, Seq<u32>)> {
    Seq::new(
        layers.len(),
        |i: int|
            (
                layers[i].spec_weights(),
                layers[i].spec_biases(),
                layers[i].spec_wmods(),
                layers[i].spec_bmods(),
            ),
    )
}

/// The element offsets a step's drawn sample indices address, for entries of
/// the given width.
pub open spec fn gather_indices(db: Seq<usize>, width: usize) -> Seq<usize> {
    Seq::new(db.len(), |b: int| (db[b] * width) as usize)
}

/// The pre-activation outputs of layer `i` within one training step: layer 0
/// gathers the drawn samples out of the input buffer, every later layer runs
/// on the previous layer's activated batch.
pub open spec fn step_outs(
    shapes: Seq<Dense>,
    params: Seq<(Seq<u32>, Seq<u32>, Seq<u32>, Seq<u32>)>,
    inputs: Seq<u32>,
    db: Seq<usize>,
    i: nat,
) -> Seq<u32>
    decreases i,
{
    if i == 0 {
        forward_outputs(
            params[0].0,
            params[0].1,
            inputs,
            gather_indices(db, shapes[0].spec_input_len()),
            shapes[0].spec_size() as nat,
            shapes[0].spec_input_len() as nat,
        )
    } else {
        forward_outputs(
            params[i as int].0,
            params[i as int].1,
            activated_of(
                shapes[i - 1].spec_activation(),
                step_outs(shapes, params, inputs, db, (i - 1) as nat),
            ),
            contiguous_positions(db.len(), shapes[i as int].spec_input_len() as nat),
            shapes[i as int].spec_size() as nat,
            shapes[i as int].spec_input_len() as nat,
        )
    }
}

/// The activated outputs of layer `i` within one training step.
pub open spec fn step_acts(
    shapes: Seq<Dense>,
    params: Seq<(Seq<u32>, Seq<u32>, Seq<u32>, Seq<u32>)>,
    inputs: Seq<u32>,
    db: Seq<usize>,
    i: nat,
) -> Seq<u32> {
    activated_of(
        shapes[i as int].spec_activation(),
        step_outs(shapes, params, inputs, db, i),
    )
}

/// What the backward pass of one training step leaves in layer `i`: the bias
/// accumulator, the weight accumulator, and the upstream sensitivities. The
/// last layer consumes the loss gradient; every other layer consumes the
/// sensitivities its successor just computed; layer 0 addresses the raw input
/// buffer at the drawn offsets.
pub open spec fn step_bwd(
    shapes: Seq<Dense>,
    params: Seq<(Seq<u32>, Seq<u32>, Seq<u32>, Seq<u32>)>,
    inputs: Seq<u32>,
    targets: Seq<u32>,
    db: Seq<usize>,
    lr: u32,
    i: nat,
) -> (Seq<u32>, Seq<u32>, Seq<u32>)
    decreases shapes.len() - i,
{
    let n = shapes.len();
    let isens = if i + 1 >= n {
        crate::loss::mse_gradients(
            step_acts(shapes, params, inputs, db, (n - 1) as nat),
            targets,
            gather_indices(db, shapes[n - 1].spec_size()),
            shapes[n - 1].spec_size() as nat,
        )
    } else {
        step_bwd(shapes, params, inputs, targets, db, lr, (i + 1) as nat).2
    };
    crate::layer::dense::backward_batches(
        params[i as int].3,
        params[i as int].2,
        Seq::new((db.len() * shapes[i as int].spec_input_len()) as nat, |k: int| 0u32),
        params[i as int].0,
        if i == 0 {
            inputs
        } else {
            step_acts(shapes, params, inputs, db, (i - 1) as nat)
        },
        step_outs(shapes, params, inputs, db, i),
        isens,
        shapes[i as int].spec_activation(),
        lr,
        if i == 0 {
            Some(gather_indices(db, shapes[0].spec_input_len()))
        } else {
            None
        },
        shapes[i as int].spec_size() as nat,
        shapes[i as int].spec_input_len() as nat,
        db.len(),
    )
}

/// One training step: forward over the drawn samples, backward, and the
/// averaged gradient application, leaving fresh zero accumulators.
pub open spec fn train_step(
    shapes: Seq<Dense>,
    params: Seq<(Seq<u32>, Seq<u32>, Seq<u32>, Seq<u32>)>,
    inputs: Seq<u32>,
    targets: Seq<u32>,
    db: Seq<usize>,
    lr: u32,
) -> Seq<(Seq<u32>, Seq<u32>, Seq<u32>, Seq<u32>)> {
    Seq::new(
        shapes.len(),
        |i: int|
            {
                let bwd = step_bwd(shapes, params, inputs, targets, db, lr, i as nat);
                let inv = div_bits(ONE_BITS, single_of_usize(db.len() as usize));
                (
                    Seq::new(
                        params[i].0.len(),
                        |k: int| add_bits(params[i].0[k], mul_bits(bwd.1[k], inv)),
                    ),
                    Seq::new(
                        params[i].1.len(),
                        |k: int| add_bits(params[i].1[k], mul_bits(bwd.0[k], inv)),
                    ),
                    Seq::new(params[i].2.len(), |k: int| 0u32),
                    Seq::new(params[i].3.len(), |k: int| 0u32),
                )
            },
    )
}

/// A running sum over the first `k` entries, added up in loop order.
pub open spec fn sum_from(acc: u32, s: Seq<u32>, k: nat) -> u32
    decreases k,
{
    if k == 0 {
        acc
    } else {
        add_bits(sum_from(acc, s, (k - 1) as nat), s[k - 1])
    }
}

/// The loss sum one training step adds: the mean-squared losses of the drawn
/// samples against the final activated batch, accumulated onto `acc`.
pub open spec fn step_loss_sum(
    shapes: Seq<Dense>,
    params: Seq<(Seq<u32>, Seq<u32>, Seq<u32>, Seq<u32>)>,
    inputs: Seq<u32>,
    targets: Seq<u32>,
    db: Seq<usize>,
    acc: u32,
) -> u32 {
    sum_from(
        acc,
        crate::loss::mse_losses(
            step_acts(shapes, params, inputs, db, (shapes.len() - 1) as nat),
            targets,
            gather_indices(db, shapes[shapes.len() - 1].spec_size()),
            shapes[shapes.len() - 1].spec_size() as nat,
            db.len(),
        ),
        db.len(),
    )
}

/// The parameters and the loss sum after the first `s` steps of one epoch,
/// each step consuming its `bs` drawn sample indices.
pub open spec fn run_steps(
    shapes: Seq<Dense>,
    params: Seq<(Seq<u32>, Seq<u32>, Seq<u32>, Seq<u32>)>,
    inputs: Seq<u32>,
    targets: Seq<u32>,
    draws: Seq<usize>,
    lr: u32,
    bs: nat,
    avg: u32,
    s: nat,
) -> (Seq<(Seq<u32>, Seq<u32>, Seq<u32>, Seq<u32>)>, u32)
    decreases s,
{
    if s == 0 {
        (params, avg)
    } else {
        let prev = run_steps(shapes, params, inputs, targets, draws, lr, bs, avg, (s - 1) as nat);
        let db = draws.subrange(((s - 1) * bs) as int, (s * bs) as int);
        (
            train_step(shapes, prev.0, inputs, targets, db, lr),
            step_loss_sum(shapes, prev.0, inputs, targets, db, prev.1),
        )
    }
}

/// The parameters and reported loss after `e` epochs: each epoch runs its
/// steps from a zero loss sum and reports the sum averaged over the samples
/// it drew; before any epoch the reported loss is infinity.
pub open spec fn run_epochs(
    shapes: Seq<Dense>,
    params: Seq<(Seq<u32>, Seq<u32>, Seq<u32>, Seq<u32>)>,
    inputs: Seq<u32>,
    targets: Seq<u32>,
    draws: Seq<usize>,
    lr: u32,
    bs: nat,
    steps: nat,
    e: nat,
) -> (Seq<(Seq<u32>, Seq<u32>, Seq<u32>, Seq<u32>)>, u32)
    decreases e,
{
    if e == 0 {
        (params, INF_BITS)
    } else {
        let prev = run_epochs(shapes, params, inputs, targets, draws, lr, bs, steps, (e - 1) as nat);
        let ed = draws.subrange(((e - 1) * (steps * bs)) as int, (e * (steps * bs)) as int);
        let stepped = run_steps(shapes, prev.0, inputs, targets, ed, lr, bs, ZERO_BITS, steps);
        (stepped.0, div_bits(stepped.1, single_of_usize((steps * bs) as usize)))
    }
}

/// Every drawn sample index lies below `samples - bs`, and is zero when no
/// slack exists.
pub open spec fn valid_draws(draws: Seq<usize>, samples: int, bs: int) -> bool {
    forall|d: int|
        0 <= d < draws.len() ==> (if samples > bs {
            (#[trigger] draws[d]) < samples - bs
        } else {
            draws[d] == 0
        })
}

/// What a successful training run did, witnessed by its drawn sample indices:
/// the layers' parameters and the returned loss are exactly the training fold
/// over those draws.
pub open spec fn trained_with(
    shapes: Seq<Dense>,
    finals: Seq<Dense>,
    inputs: Seq<u32>,
    targets: Seq<u32>,
    lr: u32,
    epochs: nat,
    requested_batch: int,
    v: u32,
    draws: Seq<usize>,
) -> bool {
    let samples = sample_count(shapes, inputs);
    let bs = clamped_batch(shapes, inputs, requested_batch);
    let steps = samples / bs;
    let outcome = run_epochs(
        shapes,
        params_of(shapes),
        inputs,
        targets,
        draws,
        lr,
        bs as nat,
        steps as nat,
        epochs,
    );
    &&& draws.len() == epochs * ((steps * bs) as nat)
    &&& valid_draws(draws, samples, bs)
    &&& v == outcome.1
    &&& params_of(finals) == outcome.0
}

/// The facts one training step works under: the original shapes, the step's
/// parameter snapshot with the lengths the layer invariants give it, the
/// drawn sample indices, and the element offsets derived from them.
pub open spec fn step_ctx(
    shapes: Seq<Dense>,
    sparams: Seq<(Seq<u32>, Seq<u32>, Seq<u32>, Seq<u32>)>,
    sdraws: Seq<usize>,
    inputs: Seq<u32>,
    in_idx: Seq<usize>,
    out_idx: Seq<usize>,
    bs: nat,
) -> bool {
    &&& shapes.len() >= 1
    &&& sparams.len() == shapes.len()
    &&& sdraws.len() == bs
    &&& bs >= 1
    &&& in_idx == gather_indices(sdraws, shapes[0].spec_input_len())
    &&& out_idx == gather_indices(sdraws, shapes[shapes.len() - 1].spec_size())
    &&& chained(shapes)
    &&& train_fits(shapes, bs as int)
    &&& forall|k: int|
        0 <= k < shapes.len() ==> (#[trigger] sparams[k]).0.len() == shapes[k].spec_input_len()
            * shapes[k].spec_size() && sparams[k].1.len() == shapes[k].spec_size()
            && sparams[k].2.len() == shapes[k].spec_input_len() * shapes[k].spec_size()
            && sparams[k].3.len() == shapes[k].spec_size()
}

/// The layers in `[lo, hi)` still carry the snapshot's weights and biases.
pub open spec fn weights_match(
    layers: Seq<Dense>,
    sparams: Seq<(Seq<u32>, Seq<u32>, Seq<u32>, Seq<u32>)>,
    lo: int,
    hi: int,
) -> bool {
    forall|k: int|
        lo <= k < hi ==> (#[trigger] layers[k]).spec_weights() == sparams[k].0
            && layers[k].spec_biases() == sparams[k].1
}

/// The layers in `[lo, hi)` still carry the snapshot's gradient accumulators.
pub open spec fn mods_match(
    layers: Seq<Dense>,
    sparams: Seq<(Seq<u32>, Seq<u32>, Seq<u32>, Seq<u32>)>,
    lo: int,
    hi: int,
) -> bool {
    forall|k: int|
        lo <= k < hi ==> (#[trigger] layers[k]).spec_wmods() == sparams[k].2
            && layers[k].spec_bmods() == sparams[k].3
}

/// The first `upto` layers hold this step's forward results.
pub open spec fn fwd_done(
    layers: Seq<Dense>,
    shapes: Seq<Dense>,
    sparams: Seq<(Seq<u32>, Seq<u32>, Seq<u32>, Seq<u32>)>,
    inputs: Seq<u32>,
    sdraws: Seq<usize>,
    upto: int,
) -> bool {
    forall|k: int|
        0 <= k < upto ==> (#[trigger] layers[k]).spec_outputs() == step_outs(
            shapes,
            sparams,
            inputs,
            sdraws,
            k as nat,
        ) && layers[k].spec_activated() == step_acts(shapes, sparams, inputs, sdraws, k as nat)
}

/// The layers in `[lo, hi)` hold this step's backward results.
pub open spec fn bwd_done(
    layers: Seq<Dense>,
    shapes: Seq<Dense>,
    sparams: Seq<(Seq<u32>, Seq<u32>, Seq<u32>, Seq<u32>)>,
    inputs: Seq<u32>,
    targets: Seq<u32>,
    sdraws: Seq<usize>,
    lr: u32,
    lo: int,
    hi: int,
) -> bool {
    forall|k: int|
        lo <= k < hi ==> (#[trigger] layers[k]).spec_bmods() == step_bwd(
            shapes,
            sparams,
            inputs,
            targets,
            sdraws,
            lr,
            k as nat,
        ).0 && layers[k].spec_wmods() == step_bwd(shapes, sparams, inputs, targets, sdraws, lr,
            k as nat).1 && layers[k].spec_sensitivities() == step_bwd(shapes, sparams, inputs,
            targets, sdraws, lr, k as nat).2
}

/// The backward results of one step keep each accumulator's length, and size
/// the upstream sensitivities for the batch.
pub proof fn lemma_step_bwd_lens(
    shapes: Seq<Dense>,
    sparams: Seq<(Seq<u32>, Seq<u32>, Seq<u32>, Seq<u32>)>,
    inputs: Seq<u32>,
    targets: Seq<u32>,
    sdraws: Seq<usize>,
    lr: u32,
    i: nat,
)
    requires
        i < shapes.len(),
        sparams.len() == shapes.len(),
        sparams[i as int].2.len() == shapes[i as int].spec_input_len() * shapes[
            i as int
        ].spec_size(),
        sparams[i as int].3.len() == shapes[i as int].spec_size(),
    ensures
        step_bwd(shapes, sparams, inputs, targets, sdraws, lr, i).0.len() == sparams[
            i as int
        ].3.len(),
        step_bwd(shapes, sparams, inputs, targets, sdraws, lr, i).1.len() == sparams[
            i as int
        ].2.len(),
        step_bwd(shapes, sparams, inputs, targets, sdraws, lr, i).2.len() == sdraws.len()
            * shapes[i as int].spec_input_len(),
{
    lemma_mul_is_commutative(shapes[i as int].spec_input_len() as int,
        shapes[i as int].spec_size() as int);
    let n = shapes.len();
    let isens = if i + 1 >= n {
        crate::loss::mse_gradients(
            step_acts(shapes, sparams, inputs, sdraws, (n - 1) as nat),
            targets,
            gather_indices(sdraws, shapes[n - 1].spec_size()),
            shapes[n - 1].spec_size() as nat,
        )
    } else {
        step_bwd(shapes, sparams, inputs, targets, sdraws, lr, (i + 1) as nat).2
    };
    crate::layer::dense::lemma_backward_lens(
        sparams[i as int].3,
        sparams[i as int].2,
        Seq::new((sdraws.len() * shapes[i as int].spec_input_len()) as nat, |k: int| 0u32),
        sparams[i as int].0,
        if i == 0 {
            inputs
        } else {
            step_acts(shapes, sparams, inputs, sdraws, (i - 1) as nat)
        },
        step_outs(shapes, sparams, inputs, sdraws, i),
        isens,
        shapes[i as int].spec_activation(),
        lr,
        if i == 0 {
            Some(gather_indices(sdraws, shapes[0].spec_input_len()))
        } else {
            None
        },
        shapes[i as int].spec_size() as nat,
        shapes[i as int].spec_input_len() as nat,
        sdraws.len(),
    );
}

/// The layers from `lo` on hold this step's applied parameters and zeroed
/// accumulators.
pub open spec fn apply_done(
    layers: Seq<Dense>,
    shapes: Seq<Dense>,
    sparams: Seq<(Seq<u32>, Seq<u32>, Seq<u32>, Seq<u32>)>,
    inputs: Seq<u32>,
    targets: Seq<u32>,
    sdraws: Seq<usize>,
    lr: u32,
    lo: int,
) -> bool {
    forall|k: int|
        lo <= k < layers.len() ==> (#[trigger] layers[k]).spec_weights() == train_step(
            shapes,
            sparams,
            inputs,
            targets,
            sdraws,
            lr,
        )[k].0 && layers[k].spec_biases() == train_step(shapes, sparams, inputs, targets, sdraws,
            lr)[k].1 && layers[k].spec_wmods() == train_step(shapes, sparams, inputs, targets,
            sdraws, lr)[k].2 && layers[k].spec_bmods() == train_step(shapes, sparams, inputs,
            targets, sdraws, lr)[k].3
}

/// A successful training run is witnessed by some sequence of drawn sample
/// indices.
pub open spec fn trained_from(
    shapes: Seq<Dense>,
    finals: Seq<Dense>,
    inputs: Seq<u32>,
    targets: Seq<u32>,
    lr: u32,
    epochs: nat,
    requested_batch: int,
    v: u32,
) -> bool {
    exists|ds: Seq<usize>|
        #[trigger] trained_with(shapes, finals, inputs, targets, lr, epochs, requested_batch, v,
            ds)
}

/// Running the steps of an epoch reads only that epoch's draws: any two draw
/// sequences that agree on them fold identically.
pub proof fn lemma_run_steps_prefix(
    shapes: Seq<Dense>,
    params: Seq<(Seq<u32>, Seq<u32>, Seq<u32>, Seq<u32>)>,
    inputs: Seq<u32>,
    targets: Seq<u32>,
    d1: Seq<usize>,
    d2: Seq<usize>,
    lr: u32,
    bs: nat,
    avg: u32,
    s: nat,
)
    requires
        s * bs <= d1.len(),
        s * bs <= d2.len(),
        forall|k: int| 0 <= k < s * bs ==> d1[k] == d2[k],
    ensures
        run_steps(shapes, params, inputs, targets, d1, lr, bs, avg, s) == run_steps(
            shapes,
            params,
            inputs,
            targets,
            d2,
            lr,
            bs,
            avg,
            s,
        ),
    decreases s,
{
    if s > 0 {
        lemma_mul_inequality(s as int - 1, s as int, bs as int);
        assert(s * bs == (s - 1) * bs + bs) by (nonlinear_arith);
        lemma_run_steps_prefix(shapes, params, inputs, targets, d1, d2, lr, bs, avg, (s
            - 1) as nat);
        assert(d1.subrange(((s - 1) * bs) as int, (s * bs) as int) =~= d2.subrange(
            ((s - 1) * bs) as int,
            (s * bs) as int,
        ));
    }
}

/// Running epochs reads only the draws of the epochs run: any two draw
/// sequences that agree on them fold identically.
pub proof fn lemma_run_epochs_prefix(
    shapes: Seq<Dense>,
    params: Seq<(Seq<u32>, Seq<u32>, Seq<u32>, Seq<u32>)>,
    inputs: Seq<u32>,
    targets: Seq<u32>,
    d1: Seq<usize>,
    d2: Seq<usize>,
    lr: u32,
    bs: nat,
    steps: nat,
    e: nat,
)
    requires
        e * (steps * bs) <= d1.len(),
        e * (steps * bs) <= d2.len(),
        forall|k: int| 0 <= k < e * (steps * bs) ==> d1[k] == d2[k],
    ensures
        run_epochs(shapes, params, inputs, targets, d1, lr, bs, steps, e) == run_epochs(
            shapes,
            params,
            inputs,
            targets,
            d2,
            lr,
            bs,
            steps,
            e,
        ),
    decreases e,
{
    if e > 0 {
        lemma_mul_inequality(e as int - 1, e as int, (steps * bs) as int);
        assert(e * (steps * bs) == (e - 1) * (steps * bs) + (steps * bs)) by (nonlinear_arith);
        lemma_run_epochs_prefix(shapes, params, inputs, targets, d1, d2, lr, bs, steps, (e
            - 1) as nat);
        let lo = ((e - 1) * (steps * bs)) as int;
        let hi = (e * (steps * bs)) as int;
        assert(d1.subrange(lo, hi) =~= d2.subrange(lo, hi));
        let prev = run_epochs(shapes, params, inputs, targets, d1, lr, bs, steps, (e - 1) as nat);
        let ed = d1.subrange(lo, hi);
        lemma_run_steps_prefix(shapes, prev.0, inputs, targets, ed, ed, lr, bs, ZERO_BITS, steps);
    }
}

/// A chain whose widths agree: each layer feeds the next one exactly.
pub open spec fn chained(layers: Seq<Dense>) -> bool {
    forall|i: int|
        0 <= i < layers.len() - 1 ==> (#[trigger] layers[i].spec_size()) == layers[
            i + 1
        ].spec_input_len()
}

/// How many whole input samples the input buffer holds.
pub open spec fn sample_count(layers: Seq<Dense>, input: Seq<u32>) -> int {
    input.len() as int / layers[0].spec_input_len() as int
}

/// How many whole target samples the target buffer holds.
pub open spec fn target_sample_count(layers: Seq<Dense>, targets: Seq<u32>) -> int {
    targets.len() as int / layers.last().spec_size() as int
}

/// The batch size a training run actually uses: the requested one, clamped to
/// the sample count.
pub open spec fn clamped_batch(layers: Seq<Dense>, input: Seq<u32>, batch_size: int) -> int {
    vstd::math::min(batch_size, sample_count(layers, input))
}

/// What a training run needs of the machine: positive widths everywhere, and
/// no per-batch buffer outgrowing the address space.
pub open spec fn train_fits(layers: Seq<Dense>, bs: int) -> bool {
    forall|i: int|
        0 <= i < layers.len() ==> {
            &&& (#[trigger] layers[i].spec_input_len()) >= 1
            &&& layers[i].spec_size() >= 1
            &&& (bs * layers[i].spec_input_len()) * layers[i].spec_size() <= usize::MAX
            &&& bs * layers[i].spec_input_len() <= usize::MAX
            &&& bs * layers[i].spec_size() <= usize::MAX
        }
}

} // verus!

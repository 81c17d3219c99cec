//! The dense (fully connected) layer: weights, biases, gradient accumulators
//! and per-batch buffers, with forward propagation, backward propagation,
//! gradient application and the byte form of its parameters.

use vstd::arithmetic::mul::{lemma_mul_inequality, lemma_mul_is_commutative};
use vstd::prelude::*;

use crate::activation::Activation;
use crate::dual_vec::DualVec;
use crate::ieee::{add_bits, add_val, div_bits, div_val, mul_bits, mul_val, sub_bits, sub_val,
    single_of, single_of_usize, ONE_BITS};
use crate::utils::vec_utils::{be4_of, be8_at, be8_of, cursor_sync, lemma_read_sync, singles_at,
    CursorReader, VecWriter};
use crate::{Executor, Optimizer};

verus! {

/// The weighted sum of one output unit over the first `k` inputs of one
/// sample, accumulated left to right on top of the bias, exactly as the
/// forward loop adds it up: row `row` of the weights against the inputs at
/// offset `in_off`.
pub open spec fn neuron_acc(
    w: Seq<u32>,
    inp: Seq<u32>,
    bias: u32,
    row: int,
    in_off: int,
    k: nat,
) -> u32
    decreases k,
{
    if k == 0 {
        bias
    } else {
        add_bits(
            neuron_acc(w, inp, bias, row, in_off, (k - 1) as nat),
            mul_bits(w[row + k - 1], inp[in_off + k - 1]),
        )
    }
}

/// Every pre-activation output of a forward pass: `positions` holds one input
/// offset per batch entry, and entry `b` fills output slots `b*size..(b+1)*size`.
pub open spec fn forward_outputs(
    w: Seq<u32>,
    b: Seq<u32>,
    inp: Seq<u32>,
    positions: Seq<usize>,
    size: nat,
    input_len: nat,
) -> Seq<u32> {
    Seq::new(
        positions.len() * size,
        |oi: int|
            neuron_acc(
                w,
                inp,
                b[oi % size as int],
                (oi % size as int) * input_len,
                positions[oi / size as int] as int,
                input_len,
            ),
    )
}

/// The activation applied to every entry.
pub open spec fn activated_of(act: Activation, outs: Seq<u32>) -> Seq<u32> {
    Seq::new(outs.len(), |i: int| act.activate_spec(outs[i]))
}

/// The contiguous sample offsets a plain (non-gathering) forward pass uses:
/// sample `b` starts at `b * input_len`.
pub open spec fn contiguous_positions(batch: nat, input_len: nat) -> Seq<usize> {
    Seq::new(batch, |b: int| (b * input_len) as usize)
}

/// The local gradient of one output unit: the activation derivative at its
/// stored pre-activation output, times the incoming sensitivity.
pub open spec fn gradient_at(act: Activation, outs: Seq<u32>, isens: Seq<u32>, idx: int) -> u32 {
    mul_bits(act.derivative_spec(outs[idx]), isens[idx])
}

/// Where batch entry `b` reads its inputs: the explicit per-sample offset
/// when one is supplied, else the dense in-batch offset.
pub open spec fn in_offset_of(indices: Option<Seq<usize>>, b: int, input_len: nat) -> int {
    match indices {
        Some(ids) => ids[b] as int,
        None => b * input_len,
    }
}

/// The weight accumulator and upstream sensitivities after the first `y`
/// input units of one output unit have been visited: the accumulator entry
/// loses `lr * input * gradient`, and the sensitivity entry gains
/// `gradient * weight`, in loop order.
pub open spec fn backward_y_state(
    wm: Seq<u32>,
    sn: Seq<u32>,
    w: Seq<u32>,
    inp: Seq<u32>,
    lr: u32,
    g: u32,
    row: int,
    in_off: int,
    s_off: int,
    y: nat,
) -> (Seq<u32>, Seq<u32>)
    decreases y,
{
    if y == 0 {
        (wm, sn)
    } else {
        let prev = backward_y_state(wm, sn, w, inp, lr, g, row, in_off, s_off, (y - 1) as nat);
        let wi = row + y - 1;
        let si = s_off + y - 1;
        (
            prev.0.update(
                wi,
                sub_bits(prev.0[wi], mul_bits(mul_bits(lr, inp[in_off + y - 1]), g)),
            ),
            prev.1.update(si, add_bits(prev.1[si], mul_bits(g, w[wi]))),
        )
    }
}

/// The three accumulators after the first `x` output units of one batch
/// entry: each unit subtracts `lr * gradient` from its bias accumulator and
/// then walks its weight row.
pub open spec fn backward_x_state(
    bm: Seq<u32>,
    wm: Seq<u32>,
    sn: Seq<u32>,
    w: Seq<u32>,
    inp: Seq<u32>,
    outs: Seq<u32>,
    isens: Seq<u32>,
    act: Activation,
    lr: u32,
    out_off: int,
    in_off: int,
    s_off: int,
    input_len: nat,
    x: nat,
) -> (Seq<u32>, Seq<u32>, Seq<u32>)
    decreases x,
{
    if x == 0 {
        (bm, wm, sn)
    } else {
        let prev = backward_x_state(bm, wm, sn, w, inp, outs, isens, act, lr, out_off, in_off,
            s_off, input_len, (x - 1) as nat);
        let g = gradient_at(act, outs, isens, out_off + x - 1);
        let row = (x - 1) * input_len;
        let ys = backward_y_state(prev.1, prev.2, w, inp, lr, g, row, in_off, s_off, input_len);
        (prev.0.update(x - 1, sub_bits(prev.0[x - 1], mul_bits(lr, g))), ys.0, ys.1)
    }
}

/// The three accumulators after the first `b` batch entries of one backward
/// pass.
pub open spec fn backward_batches(
    bm: Seq<u32>,
    wm: Seq<u32>,
    sn: Seq<u32>,
    w: Seq<u32>,
    inp: Seq<u32>,
    outs: Seq<u32>,
    isens: Seq<u32>,
    act: Activation,
    lr: u32,
    indices: Option<Seq<usize>>,
    size: nat,
    input_len: nat,
    b: nat,
) -> (Seq<u32>, Seq<u32>, Seq<u32>)
    decreases b,
{
    if b == 0 {
        (bm, wm, sn)
    } else {
        let prev = backward_batches(bm, wm, sn, w, inp, outs, isens, act, lr, indices, size,
            input_len, (b - 1) as nat);
        backward_x_state(
            prev.0,
            prev.1,
            prev.2,
            w,
            inp,
            outs,
            isens,
            act,
            lr,
            (b - 1) * size,
            in_offset_of(indices, b - 1, input_len),
            (b - 1) * input_len,
            input_len,
            size,
        )
    }
}

/// The bytes of a run of singles, each as its four big-endian bytes.
pub open spec fn singles_of(s: Seq<u32>) -> Seq<u8>
    decreases s.len(),
{
    if s.len() == 0 {
        Seq::<u8>::empty()
    } else {
        singles_of(s.drop_last()) + be4_of(s.last())
    }
}

/// A dense layer's stored payload: input width, output width and activation
/// identity as 8-byte values, then the weights and the biases as singles.
pub open spec fn dense_payload(
    input_len: usize,
    size: usize,
    act: Activation,
    w: Seq<u32>,
    b: Seq<u32>,
) -> Seq<u8> {
    be8_of(input_len as u64) + be8_of(size as u64) + be8_of(act.id_spec() as u64) + singles_of(w)
        + singles_of(b)
}

/// How many bytes a dense payload with these widths occupies.
pub open spec fn dense_payload_len(input_len: usize, size: usize) -> int {
    24 + 4 * (input_len * size) + 4 * size
}

/// A pass through one input unit's updates changes no lengths.
pub proof fn lemma_backward_y_lens(
    wm: Seq<u32>,
    sn: Seq<u32>,
    w: Seq<u32>,
    inp: Seq<u32>,
    lr: u32,
    g: u32,
    row: int,
    in_off: int,
    s_off: int,
    y: nat,
)
    requires
        0 <= row,
        row + y <= wm.len(),
        0 <= s_off,
        s_off + y <= sn.len(),
    ensures
        backward_y_state(wm, sn, w, inp, lr, g, row, in_off, s_off, y).0.len() == wm.len(),
        backward_y_state(wm, sn, w, inp, lr, g, row, in_off, s_off, y).1.len() == sn.len(),
    decreases y,
{
    if y > 0 {
        lemma_backward_y_lens(wm, sn, w, inp, lr, g, row, in_off, s_off, (y - 1) as nat);
    }
}

/// A pass through one batch entry's output units changes no lengths.
pub proof fn lemma_backward_x_lens(
    bm: Seq<u32>,
    wm: Seq<u32>,
    sn: Seq<u32>,
    w: Seq<u32>,
    inp: Seq<u32>,
    outs: Seq<u32>,
    isens: Seq<u32>,
    act: Activation,
    lr: u32,
    out_off: int,
    in_off: int,
    s_off: int,
    input_len: nat,
    x: nat,
)
    requires
        x <= bm.len(),
        x * input_len <= wm.len(),
        0 <= s_off,
        s_off + input_len <= sn.len(),
    ensures
        ({
            let st = backward_x_state(bm, wm, sn, w, inp, outs, isens, act, lr, out_off, in_off,
                s_off, input_len, x);
            st.0.len() == bm.len() && st.1.len() == wm.len() && st.2.len() == sn.len()
        }),
    decreases x,
{
    if x > 0 {
        lemma_mul_inequality(x as int - 1, x as int, input_len as int);
        assert(x * input_len == (x - 1) * input_len + input_len) by (nonlinear_arith);
        let prev = backward_x_state(bm, wm, sn, w, inp, outs, isens, act, lr, out_off, in_off,
            s_off, input_len, (x - 1) as nat);
        lemma_backward_x_lens(bm, wm, sn, w, inp, outs, isens, act, lr, out_off, in_off, s_off,
            input_len, (x - 1) as nat);
        let g = gradient_at(act, outs, isens, out_off + x - 1);
        lemma_backward_y_lens(prev.1, prev.2, w, inp, lr, g, (x - 1) * input_len, in_off, s_off,
            input_len);
    }
}

/// A whole backward pass changes no lengths.
pub proof fn lemma_backward_lens(
    bm: Seq<u32>,
    wm: Seq<u32>,
    sn: Seq<u32>,
    w: Seq<u32>,
    inp: Seq<u32>,
    outs: Seq<u32>,
    isens: Seq<u32>,
    act: Activation,
    lr: u32,
    indices: Option<Seq<usize>>,
    size: nat,
    input_len: nat,
    b: nat,
)
    requires
        size <= bm.len(),
        size * input_len <= wm.len(),
        b * input_len <= sn.len(),
    ensures
        ({
            let st = backward_batches(bm, wm, sn, w, inp, outs, isens, act, lr, indices, size,
                input_len, b);
            st.0.len() == bm.len() && st.1.len() == wm.len() && st.2.len() == sn.len()
        }),
    decreases b,
{
    if b > 0 {
        lemma_mul_inequality(b as int - 1, b as int, input_len as int);
        assert(b * input_len == (b - 1) * input_len + input_len) by (nonlinear_arith);
        let prev = backward_batches(bm, wm, sn, w, inp, outs, isens, act, lr, indices, size,
            input_len, (b - 1) as nat);
        lemma_backward_lens(bm, wm, sn, w, inp, outs, isens, act, lr, indices, size, input_len,
            (b - 1) as nat);
        lemma_backward_x_lens(prev.0, prev.1, prev.2, w, inp, outs, isens, act, lr, (b - 1)
            * size, in_offset_of(indices, b - 1, input_len), (b - 1) * input_len, input_len,
            size);
    }
}

/// Two layers agree on their widths, activation and executor.
pub open spec fn same_shape(a: Dense, b: Dense) -> bool {
    &&& a.spec_input_len() == b.spec_input_len()
    &&& a.spec_size() == b.spec_size()
    &&& a.spec_activation() == b.spec_activation()
    &&& a.spec_exec() == b.spec_exec()
}

/// Two layers agree on everything a forward pass reads: parameters, widths,
/// activation and executor.
pub open spec fn same_params(a: Dense, b: Dense) -> bool {
    &&& a.spec_weights() == b.spec_weights()
    &&& a.spec_biases() == b.spec_biases()
    &&& a.spec_input_len() == b.spec_input_len()
    &&& a.spec_size() == b.spec_size()
    &&& a.spec_activation() == b.spec_activation()
    &&& a.spec_exec() == b.spec_exec()
}

pub struct Dense {
    executor: Executor,
    size: usize,
    input_len: usize,
    activation: Activation,
    weights: DualVec,
    biases: DualVec,
    weight_mods: DualVec,
    bias_mods: DualVec,
    outputs: DualVec,
    activated_outputs: DualVec,
    sensitivities: DualVec,
}

impl Dense {
    /// The layer's structural invariant: every buffer is coherent, the
    /// parameter buffers match the layer's shape, and the three batch buffers
    /// agree on one batch size.
    pub closed spec fn wf(self) -> bool {
        &&& self.weights.wf()
        &&& self.biases.wf()
        &&& self.weight_mods.wf()
        &&& self.bias_mods.wf()
        &&& self.outputs.wf()
        &&& self.activated_outputs.wf()
        &&& self.sensitivities.wf()
        &&& self.weights@.len() == self.input_len * self.size
        &&& self.biases@.len() == self.size
        &&& self.weight_mods@.len() == self.input_len * self.size
        &&& self.bias_mods@.len() == self.size
        &&& self.outputs@.len() == self.activated_outputs@.len()
    }

    /// What the invariant says of the parameter buffers' lengths, for
    /// callers outside this module.
    pub proof fn lemma_wf_lens(&self)
        requires
            self.wf(),
        ensures
            self.spec_weights().len() == self.spec_input_len() * self.spec_size(),
            self.spec_biases().len() == self.spec_size(),
            self.spec_wmods().len() == self.spec_input_len() * self.spec_size(),
            self.spec_bmods().len() == self.spec_size(),
    {
    }

    pub closed spec fn spec_input_len(self) -> usize {
        self.input_len
    }

    pub closed spec fn spec_size(self) -> usize {
        self.size
    }

    pub closed spec fn spec_activation(self) -> Activation {
        self.activation
    }

    pub closed spec fn spec_exec(self) -> Executor {
        self.executor
    }

    pub closed spec fn spec_weights(self) -> Seq<u32> {
        self.weights@
    }

    pub closed spec fn spec_biases(self) -> Seq<u32> {
        self.biases@
    }

    pub closed spec fn spec_wmods(self) -> Seq<u32> {
        self.weight_mods@
    }

    pub closed spec fn spec_bmods(self) -> Seq<u32> {
        self.bias_mods@
    }

    pub closed spec fn spec_outputs(self) -> Seq<u32> {
        self.outputs@
    }

    pub closed spec fn spec_activated(self) -> Seq<u32> {
        self.activated_outputs@
    }

    pub closed spec fn spec_sensitivities(self) -> Seq<u32> {
        self.sensitivities@
    }

    /// A fresh layer: weights and biases randomly initialized, gradient
    /// accumulators zero, batch buffers sized for one sample. The three
    /// executors are the previous, the layer's own, and the next one; each
    /// buffer is materialized on the sides those imply.
    pub fn new(exec: (&Executor, &Executor, &Executor), inputs: usize, size: usize,
        activation: Activation) -> (r: Dense)
        requires
            inputs * size <= usize::MAX,
        ensures
            r.wf(),
            r.spec_input_len() == inputs,
            r.spec_size() == size,
            r.spec_activation() == activation,
            r.spec_exec() == *exec.1,
            r.spec_weights().len() == inputs * size,
            r.spec_biases().len() == size,
            r.spec_wmods() == Seq::new((inputs * size) as nat, |i: int| 0u32),
            r.spec_bmods() == Seq::new(size as nat, |i: int| 0u32),
            r.spec_outputs().len() == size,
            r.spec_activated().len() == size,
            r.spec_sensitivities().len() == inputs,
    {
        let c = exec.1;
        let p_to_c = (exec.0, exec.1);
        let c_to_n = (exec.1, exec.2);
        let mut weights = DualVec::from_exec(c, inputs * size);
        let mut biases = DualVec::from_exec(c, size);
        weights.randomize(c);
        biases.randomize(c);
        Dense {
            executor: *c,
            size,
            input_len: inputs,
            activation,
            outputs: DualVec::from_execs(c_to_n, size),
            activated_outputs: DualVec::from_execs(c_to_n, size),
            sensitivities: DualVec::from_execs(p_to_c, inputs),
            weights,
            biases,
            weight_mods: DualVec::from_exec(c, inputs * size),
            bias_mods: DualVec::from_exec(c, size),
        }
    }

    /// Sizes the three per-batch buffers for exactly `batch_size` samples,
    /// growing or shrinking as needed; parameters and accumulators are
    /// untouched. Returns whether anything changed.
    pub fn ensure_batch_size(&mut self, batch_size: usize) -> (changed: bool)
        requires
            old(self).wf(),
            batch_size * old(self).spec_size() <= usize::MAX,
            batch_size * old(self).spec_input_len() <= usize::MAX,
        ensures
            final(self).wf(),
            final(self).spec_outputs().len() == batch_size * final(self).spec_size(),
            final(self).spec_activated().len() == batch_size * final(self).spec_size(),
            final(self).spec_sensitivities().len() == batch_size * final(self).spec_input_len(),
            final(self).spec_weights() == old(self).spec_weights(),
            final(self).spec_biases() == old(self).spec_biases(),
            final(self).spec_wmods() == old(self).spec_wmods(),
            final(self).spec_bmods() == old(self).spec_bmods(),
            final(self).spec_input_len() == old(self).spec_input_len(),
            final(self).spec_size() == old(self).spec_size(),
            final(self).spec_activation() == old(self).spec_activation(),
            final(self).spec_exec() == old(self).spec_exec(),
            changed == (old(self).spec_outputs().len() != batch_size * old(self).spec_size()),
    {
        let target = batch_size * self.size;
        let sens_target = batch_size * self.input_len;
        if self.outputs.len() < target {
            self.outputs.expand_to(target);
            self.outputs.truncate_to(target);
            self.activated_outputs.expand_to(target);
            self.activated_outputs.truncate_to(target);
            self.sensitivities.expand_to(sens_target);
            self.sensitivities.truncate_to(sens_target);
            true
        } else if self.outputs.len() > target {
            self.outputs.truncate_to(target);
            self.activated_outputs.expand_to(target);
            self.activated_outputs.truncate_to(target);
            self.sensitivities.expand_to(sens_target);
            self.sensitivities.truncate_to(sens_target);
            true
        } else {
            let changed = self.activated_outputs.len() != target || self.sensitivities.len()
                != sens_target;
            if changed {
                self.activated_outputs.expand_to(target);
                self.activated_outputs.truncate_to(target);
                self.sensitivities.expand_to(sens_target);
                self.sensitivities.truncate_to(sens_target);
            }
            false
        }
    }

    /// The forward pass over explicitly addressed samples: for batch entry
    /// `b`, output unit `x` becomes the bias of `x` plus the weighted sum of
    /// the `input_len` inputs starting at `positions[b]`, and the activated
    /// output applies the layer's activation to it.
    pub fn dynamic_forward(&mut self, positions: &Vec<usize>, inputs: &mut DualVec)
        requires
            old(self).wf(),
            old(inputs).wf(),
            positions@.len() * old(self).spec_size() <= usize::MAX,
            positions@.len() * old(self).spec_input_len() <= usize::MAX,
            forall|b: int|
                0 <= b < positions@.len() ==> (#[trigger] positions@[b]) + old(
                    self,
                ).spec_input_len() <= old(inputs)@.len(),
        ensures
            final(self).wf(),
            final(inputs).wf(),
            final(inputs)@ == old(inputs)@,
            final(self).spec_outputs() == forward_outputs(
                old(self).spec_weights(),
                old(self).spec_biases(),
                old(inputs)@,
                positions@,
                old(self).spec_size() as nat,
                old(self).spec_input_len() as nat,
            ),
            final(self).spec_activated() == activated_of(
                old(self).spec_activation(),
                final(self).spec_outputs(),
            ),
            final(self).spec_sensitivities().len() == positions@.len() * old(
                self,
            ).spec_input_len(),
            final(self).spec_weights() == old(self).spec_weights(),
            final(self).spec_biases() == old(self).spec_biases(),
            final(self).spec_wmods() == old(self).spec_wmods(),
            final(self).spec_bmods() == old(self).spec_bmods(),
            final(self).spec_input_len() == old(self).spec_input_len(),
            final(self).spec_size() == old(self).spec_size(),
            final(self).spec_activation() == old(self).spec_activation(),
            final(self).spec_exec() == old(self).spec_exec(),
    {
        self.ensure_batch_size(positions.len());
        self.cpu_forward(positions, inputs);
    }

    /// The host-side forward computation; the batch buffers are already sized.
    fn cpu_forward(&mut self, positions: &Vec<usize>, inputs: &mut DualVec)
        requires
            old(self).wf(),
            old(inputs).wf(),
            old(self).spec_outputs().len() == positions@.len() * old(self).spec_size(),
            forall|b: int|
                0 <= b < positions@.len() ==> (#[trigger] positions@[b]) + old(
                    self,
                ).spec_input_len() <= old(inputs)@.len(),
        ensures
            final(self).wf(),
            final(inputs).wf(),
            final(inputs)@ == old(inputs)@,
            final(self).spec_outputs() == forward_outputs(
                old(self).spec_weights(),
                old(self).spec_biases(),
                old(inputs)@,
                positions@,
                old(self).spec_size() as nat,
                old(self).spec_input_len() as nat,
            ),
            final(self).spec_activated() == activated_of(
                old(self).spec_activation(),
                final(self).spec_outputs(),
            ),
            final(self).spec_sensitivities() == old(self).spec_sensitivities(),
            final(self).spec_weights() == old(self).spec_weights(),
            final(self).spec_biases() == old(self).spec_biases(),
            final(self).spec_wmods() == old(self).spec_wmods(),
            final(self).spec_bmods() == old(self).spec_bmods(),
            final(self).spec_input_len() == old(self).spec_input_len(),
            final(self).spec_size() == old(self).spec_size(),
            final(self).spec_activation() == old(self).spec_activation(),
            final(self).spec_exec() == old(self).spec_exec(),
    {
        inputs.cpu();
        self.weights.cpu();
        self.biases.cpu();
        self.outputs.cpu();
        self.activated_outputs.cpu();
        let batch_count = positions.len();
        let size = self.size;
        let input_len = self.input_len;
        let ghost w = self.weights@;
        let ghost bs = self.biases@;
        let ghost inp = inputs@;
        let ghost spec_out = forward_outputs(w, bs, inp, positions@, size as nat,
            input_len as nat);
        proof {
            self.weights.lemma_len_fits();
            inputs.lemma_len_fits();
            self.outputs.lemma_len_fits();
        }
        let mut batch: usize = 0;
        while batch < batch_count
            invariant
                self.wf(),
                inputs.wf(),
                inputs@ == inp,
                inputs.host_fresh(),
                self.weights.host_fresh(),
                self.biases.host_fresh(),
                self.outputs.host_fresh(),
                self.activated_outputs.host_fresh(),
                batch <= batch_count,
                batch_count == positions@.len(),
                size == self.size,
                input_len == self.input_len,
                w == self.weights@,
                bs == self.biases@,
                self.outputs@.len() == batch_count * size,
                self.activated_outputs@.len() == batch_count * size,
                batch_count * size <= usize::MAX,
                w.len() <= usize::MAX,
                inp.len() <= usize::MAX,
                spec_out == forward_outputs(w, bs, inp, positions@, size as nat, input_len as nat),
                forall|oi: int|
                    0 <= oi < batch * size ==> #[trigger] self.outputs@[oi] == spec_out[oi],
                forall|oi: int|
                    0 <= oi < batch * size ==> #[trigger] self.activated_outputs@[oi]
                        == self.activation.activate_spec(spec_out[oi]),
                forall|b: int|
                    0 <= b < positions@.len() ==> (#[trigger] positions@[b]) + input_len
                        <= inp.len(),
                self.spec_sensitivities() == old(self).spec_sensitivities(),
                self.spec_wmods() == old(self).spec_wmods(),
                self.spec_bmods() == old(self).spec_bmods(),
                self.activation == old(self).spec_activation(),
                self.executor == old(self).spec_exec(),
            decreases batch_count - batch,
        {
            proof {
                lemma_mul_inequality(batch as int + 1, batch_count as int, size as int);
                assert((batch + 1) * size == batch * size + size) by (nonlinear_arith);
            }
            let output_offset = batch * size;
            let input_offset = positions[batch];
            let mut x: usize = 0;
            while x < size
                invariant
                    self.wf(),
                    inputs.wf(),
                    inputs@ == inp,
                    inputs.host_fresh(),
                    self.weights.host_fresh(),
                    self.biases.host_fresh(),
                    self.outputs.host_fresh(),
                    self.activated_outputs.host_fresh(),
                    x <= size,
                    batch < batch_count,
                    batch_count == positions@.len(),
                    size == self.size,
                    input_len == self.input_len,
                    w == self.weights@,
                    bs == self.biases@,
                    output_offset == batch * size,
                    input_offset == positions@[batch as int],
                    input_offset + input_len <= inp.len(),
                    output_offset + size <= batch_count * size,
                    self.outputs@.len() == batch_count * size,
                    self.activated_outputs@.len() == batch_count * size,
                    batch_count * size <= usize::MAX,
                    w.len() <= usize::MAX,
                    inp.len() <= usize::MAX,
                    spec_out == forward_outputs(w, bs, inp, positions@, size as nat,
                        input_len as nat),
                    forall|oi: int|
                        0 <= oi < output_offset + x ==> #[trigger] self.outputs@[oi]
                            == spec_out[oi],
                    forall|oi: int|
                        0 <= oi < output_offset + x ==> #[trigger] self.activated_outputs@[oi]
                            == self.activation.activate_spec(spec_out[oi]),
                    forall|b: int|
                        0 <= b < positions@.len() ==> (#[trigger] positions@[b]) + input_len
                            <= inp.len(),
                    self.spec_sensitivities() == old(self).spec_sensitivities(),
                    self.spec_wmods() == old(self).spec_wmods(),
                    self.spec_bmods() == old(self).spec_bmods(),
                    self.activation == old(self).spec_activation(),
                    self.executor == old(self).spec_exec(),
                decreases size - x,
            {
                let output_index = x + output_offset;
                proof {
                    assert(x * input_len + input_len <= size * input_len) by {
                        lemma_mul_inequality(x as int + 1, size as int, input_len as int);
                        assert((x + 1) * input_len == x * input_len + input_len)
                            by (nonlinear_arith);
                    }
                    lemma_mul_is_commutative(size as int, input_len as int);
                    lemma_mul_is_commutative(x as int, input_len as int);
                }
                let row = input_len * x;
                let mut acc = self.biases.get(x);
                let mut y: usize = 0;
                while y < input_len
                    invariant
                        self.wf(),
                        inputs.wf(),
                        inputs@ == inp,
                        inputs.host_fresh(),
                        self.weights.host_fresh(),
                        self.biases.host_fresh(),
                        y <= input_len,
                        x < size,
                        size == self.size,
                        input_len == self.input_len,
                        w == self.weights@,
                        bs == self.biases@,
                        row == input_len * x,
                        row + input_len <= w.len(),
                        w.len() <= usize::MAX,
                        inp.len() <= usize::MAX,
                        input_offset + input_len <= inp.len(),
                        acc == neuron_acc(w, inp, bs[x as int], row as int, input_offset as int,
                            y as nat),
                    decreases input_len - y,
                {
                    let weight_index = row + y;
                    let in_value = inputs.get(y + input_offset);
                    acc = add_val(acc, mul_val(self.weights.get(weight_index), in_value));
                    y = y + 1;
                }
                self.outputs.set(output_index, acc);
                let activated = self.activation.activate(acc);
                self.activated_outputs.set(output_index, activated);
                proof {
                    assert(spec_out[output_index as int] == neuron_acc(w, inp, bs[x as int],
                        (x as int) * input_len, positions@[batch as int] as int,
                        input_len as nat)) by {
                        assert((output_index as int) % (size as int) == x as int
                            && (output_index as int) / (size as int) == batch as int) by {
                            vstd::arithmetic::div_mod::lemma_fundamental_div_mod_converse(
                                output_index as int, size as int, batch as int, x as int);
                        }
                    }
                    lemma_mul_is_commutative(x as int, input_len as int);
                }
                x = x + 1;
            }
            batch = batch + 1;
        }
        proof {
            assert(self.outputs@ =~= spec_out);
            assert(self.activated_outputs@ =~= activated_of(self.activation, spec_out));
        }
    }

    /// The plain forward pass: the input buffer is one dense run of samples,
    /// each `input_len` wide, and the batch size is however many fit.
    pub fn forward(&mut self, activated_inputs: &mut DualVec) -> (batch_size: usize)
        requires
            old(self).wf(),
            old(activated_inputs).wf(),
            old(self).spec_input_len() >= 1,
            old(activated_inputs)@.len() * old(self).spec_size() <= usize::MAX,
        ensures
            batch_size == old(activated_inputs)@.len() as int / old(self).spec_input_len() as int,
            final(self).wf(),
            final(activated_inputs).wf(),
            final(activated_inputs)@ == old(activated_inputs)@,
            final(self).spec_outputs() == forward_outputs(
                old(self).spec_weights(),
                old(self).spec_biases(),
                old(activated_inputs)@,
                contiguous_positions(batch_size as nat, old(self).spec_input_len() as nat),
                old(self).spec_size() as nat,
                old(self).spec_input_len() as nat,
            ),
            final(self).spec_activated() == activated_of(
                old(self).spec_activation(),
                final(self).spec_outputs(),
            ),
            final(self).spec_sensitivities().len() == batch_size * old(self).spec_input_len(),
            final(self).spec_weights() == old(self).spec_weights(),
            final(self).spec_biases() == old(self).spec_biases(),
            final(self).spec_wmods() == old(self).spec_wmods(),
            final(self).spec_bmods() == old(self).spec_bmods(),
            final(self).spec_input_len() == old(self).spec_input_len(),
            final(self).spec_size() == old(self).spec_size(),
            final(self).spec_activation() == old(self).spec_activation(),
            final(self).spec_exec() == old(self).spec_exec(),
    {
        let batch_size = activated_inputs.len() / self.input_len;
        proof {
            assert(batch_size * self.input_len <= old(activated_inputs)@.len()) by {
                vstd::arithmetic::div_mod::lemma_fundamental_div_mod(
                    old(activated_inputs)@.len() as int,
                    self.input_len as int,
                );
                vstd::arithmetic::div_mod::lemma_mod_bound(
                    old(activated_inputs)@.len() as int,
                    self.input_len as int,
                );
                lemma_mul_is_commutative(batch_size as int, self.input_len as int);
            }
            assert(batch_size * self.size <= usize::MAX) by {
                lemma_mul_inequality(batch_size as int, old(activated_inputs)@.len() as int,
                    self.size as int);
                vstd::arithmetic::div_mod::lemma_div_is_ordered_by_denominator(
                    old(activated_inputs)@.len() as int, 1, self.input_len as int);
                vstd::arithmetic::div_mod::lemma_div_basics(
                    old(activated_inputs)@.len() as int);
            }
        }
        proof {
            activated_inputs.lemma_len_fits();
        }
        let mut positions: Vec<usize> = Vec::new();
        let mut i: usize = 0;
        while i < batch_size
            invariant
                i <= batch_size,
                batch_size * self.input_len <= old(activated_inputs)@.len(),
                old(activated_inputs)@.len() <= usize::MAX,
                positions@.len() == i,
                forall|b: int| 0 <= b < i ==> positions@[b] == b * self.input_len,
                self == old(self),
            decreases batch_size - i,
        {
            proof {
                lemma_mul_inequality(i as int + 1, batch_size as int, self.input_len as int);
                assert((i + 1) * self.input_len == i * self.input_len + self.input_len)
                    by (nonlinear_arith);
            }
            positions.push(i * self.input_len);
            i = i + 1;
        }
        proof {
            assert forall|b: int| 0 <= b < positions@.len() implies (#[trigger] positions@[b])
                + self.input_len <= old(activated_inputs)@.len() by {
                lemma_mul_inequality(b + 1, batch_size as int, self.input_len as int);
                assert((b + 1) * self.input_len == b * self.input_len + self.input_len)
                    by (nonlinear_arith);
            }
            assert(positions@ =~= contiguous_positions(batch_size as nat,
                self.input_len as nat));
            assert(positions@.len() * self.size <= usize::MAX);
            lemma_mul_is_commutative(batch_size as int, self.input_len as int);
        }
        self.dynamic_forward(&positions, activated_inputs);
        batch_size
    }

    /// The backward pass: for each batch entry and output unit, the local
    /// gradient is the activation derivative at the stored pre-activation
    /// output times the incoming sensitivity; it is scaled into the bias and
    /// weight accumulators and propagated to the upstream sensitivities,
    /// which are zeroed first and then summed across the batch. The batch
    /// size is how many whole samples the incoming sensitivities hold.
    pub fn backward(&mut self, inputs: &mut DualVec, input_indices: Option<&Vec<usize>>,
        in_sensitivities: &mut DualVec, optimizer: &Optimizer)
        requires
            old(self).wf(),
            old(inputs).wf(),
            old(in_sensitivities).wf(),
            old(self).spec_size() >= 1,
            old(self).spec_outputs().len() >= (old(in_sensitivities)@.len() as int / old(
                self,
            ).spec_size() as int) * old(self).spec_size(),
            old(self).spec_sensitivities().len() >= (old(in_sensitivities)@.len() as int / old(
                self,
            ).spec_size() as int) * old(self).spec_input_len(),
            match input_indices {
                Some(ids) => ids@.len() >= old(in_sensitivities)@.len() as int / old(
                    self,
                ).spec_size() as int && forall|b: int|
                    0 <= b < ids@.len() ==> (#[trigger] ids@[b]) + old(self).spec_input_len()
                        <= old(inputs)@.len(),
                None => (old(in_sensitivities)@.len() as int / old(self).spec_size() as int) * old(
                    self,
                ).spec_input_len() <= old(inputs)@.len(),
            },
        ensures
            final(self).wf(),
            final(inputs).wf(),
            final(in_sensitivities).wf(),
            final(inputs)@ == old(inputs)@,
            final(in_sensitivities)@ == old(in_sensitivities)@,
            ({
                let batch = old(in_sensitivities)@.len() as int / old(self).spec_size() as int;
                let state = backward_batches(
                    old(self).spec_bmods(),
                    old(self).spec_wmods(),
                    Seq::new(old(self).spec_sensitivities().len(), |i: int| 0u32),
                    old(self).spec_weights(),
                    old(inputs)@,
                    old(self).spec_outputs(),
                    old(in_sensitivities)@,
                    old(self).spec_activation(),
                    optimizer.lr(),
                    match input_indices {
                        Some(ids) => Some(ids@),
                        None => None,
                    },
                    old(self).spec_size() as nat,
                    old(self).spec_input_len() as nat,
                    batch as nat,
                );
                &&& final(self).spec_bmods() == state.0
                &&& final(self).spec_wmods() == state.1
                &&& final(self).spec_sensitivities() == state.2
            }),
            final(self).spec_sensitivities().len() == old(self).spec_sensitivities().len(),
            final(self).spec_weights() == old(self).spec_weights(),
            final(self).spec_biases() == old(self).spec_biases(),
            final(self).spec_outputs() == old(self).spec_outputs(),
            final(self).spec_activated() == old(self).spec_activated(),
            final(self).spec_input_len() == old(self).spec_input_len(),
            final(self).spec_size() == old(self).spec_size(),
            final(self).spec_activation() == old(self).spec_activation(),
            final(self).spec_exec() == old(self).spec_exec(),
    {
        let batch_size = in_sensitivities.len() / self.size;
        proof {
            lemma_mul_is_commutative(old(self).spec_input_len() as int,
                old(self).spec_size() as int);
            vstd::arithmetic::div_mod::lemma_div_pos_is_pos(
                old(in_sensitivities)@.len() as int, old(self).spec_size() as int);
            lemma_backward_lens(
                old(self).spec_bmods(),
                old(self).spec_wmods(),
                Seq::new(old(self).spec_sensitivities().len(), |i: int| 0u32),
                old(self).spec_weights(),
                old(inputs)@,
                old(self).spec_outputs(),
                old(in_sensitivities)@,
                old(self).spec_activation(),
                optimizer.lr(),
                match input_indices {
                    Some(ids) => Some(ids@),
                    None => None,
                },
                old(self).spec_size() as nat,
                old(self).spec_input_len() as nat,
                (old(in_sensitivities)@.len() as int / old(self).spec_size() as int) as nat,
            );
        }
        proof {
            vstd::arithmetic::div_mod::lemma_fundamental_div_mod(
                old(in_sensitivities)@.len() as int,
                self.size as int,
            );
            vstd::arithmetic::div_mod::lemma_mod_bound(
                old(in_sensitivities)@.len() as int,
                self.size as int,
            );
            lemma_mul_is_commutative(batch_size as int, self.size as int);
        }
        self.cpu_backward(inputs, input_indices, in_sensitivities, optimizer, batch_size);
    }

    /// The host-side backward computation over an explicit batch size.
    fn cpu_backward(&mut self, inputs: &mut DualVec, input_indices: Option<&Vec<usize>>,
        in_sensitivities: &mut DualVec, optimizer: &Optimizer, batch_size: usize)
        requires
            old(self).wf(),
            old(inputs).wf(),
            old(in_sensitivities).wf(),
            batch_size * old(self).spec_size() <= old(in_sensitivities)@.len(),
            batch_size * old(self).spec_size() <= old(self).spec_outputs().len(),
            batch_size * old(self).spec_input_len() <= old(self).spec_sensitivities().len(),
            match input_indices {
                Some(ids) => ids@.len() >= batch_size && forall|b: int|
                    0 <= b < ids@.len() ==> (#[trigger] ids@[b]) + old(self).spec_input_len()
                        <= old(inputs)@.len(),
                None => batch_size * old(self).spec_input_len() <= old(inputs)@.len(),
            },
        ensures
            final(self).wf(),
            final(inputs).wf(),
            final(in_sensitivities).wf(),
            final(inputs)@ == old(inputs)@,
            final(in_sensitivities)@ == old(in_sensitivities)@,
            ({
                let state = backward_batches(
                    old(self).spec_bmods(),
                    old(self).spec_wmods(),
                    Seq::new(old(self).spec_sensitivities().len(), |i: int| 0u32),
                    old(self).spec_weights(),
                    old(inputs)@,
                    old(self).spec_outputs(),
                    old(in_sensitivities)@,
                    old(self).spec_activation(),
                    optimizer.lr(),
                    match input_indices {
                        Some(ids) => Some(ids@),
                        None => None,
                    },
                    old(self).spec_size() as nat,
                    old(self).spec_input_len() as nat,
                    batch_size as nat,
                );
                &&& final(self).spec_bmods() == state.0
                &&& final(self).spec_wmods() == state.1
                &&& final(self).spec_sensitivities() == state.2
            }),
            final(self).spec_weights() == old(self).spec_weights(),
            final(self).spec_biases() == old(self).spec_biases(),
            final(self).spec_outputs() == old(self).spec_outputs(),
            final(self).spec_activated() == old(self).spec_activated(),
            final(self).spec_input_len() == old(self).spec_input_len(),
            final(self).spec_size() == old(self).spec_size(),
            final(self).spec_activation() == old(self).spec_activation(),
            final(self).spec_exec() == old(self).spec_exec(),
    {
        let lr = optimizer.learn_rate();
        in_sensitivities.cpu();
        inputs.cpu();
        self.outputs.cpu();
        self.weights.cpu();
        self.weight_mods.cpu();
        self.bias_mods.cpu();
        self.sensitivities.cpu();
        self.sensitivities.clear();
        let size = self.size;
        let input_len = self.input_len;
        let ghost w = self.weights@;
        let ghost inp = inputs@;
        let ghost outs = self.outputs@;
        let ghost isens = in_sensitivities@;
        let ghost act = self.activation;
        let ghost ids = match input_indices {
            Some(v) => Some(v@),
            None => None,
        };
        let ghost bm0 = self.bias_mods@;
        let ghost wm0 = self.weight_mods@;
        let ghost sn0 = Seq::new(old(self).spec_sensitivities().len(), |i: int| 0u32);
        proof {
            self.weights.lemma_len_fits();
            self.outputs.lemma_len_fits();
            self.sensitivities.lemma_len_fits();
            inputs.lemma_len_fits();
            in_sensitivities.lemma_len_fits();
            assert(self.sensitivities@ =~= sn0);
        }
        let mut batch: usize = 0;
        while batch < batch_size
            invariant
                self.wf(),
                inputs.wf(),
                in_sensitivities.wf(),
                inputs@ == inp,
                in_sensitivities@ == isens,
                inputs.host_fresh(),
                in_sensitivities.host_fresh(),
                self.outputs.host_fresh(),
                self.weights.host_fresh(),
                self.weight_mods.host_fresh(),
                self.bias_mods.host_fresh(),
                self.sensitivities.host_fresh(),
                batch <= batch_size,
                size == self.size,
                input_len == self.input_len,
                w == self.weights@,
                outs == self.outputs@,
                act == self.activation,
                batch_size * size <= isens.len(),
                batch_size * size <= outs.len(),
                batch_size * input_len <= self.sensitivities@.len(),
                self.sensitivities@.len() == sn0.len(),
                isens.len() <= usize::MAX,
                outs.len() <= usize::MAX,
                inp.len() <= usize::MAX,
                w.len() <= usize::MAX,
                sn0.len() <= usize::MAX,
                match ids {
                    Some(v) => v.len() >= batch_size && forall|b: int|
                        0 <= b < v.len() ==> (#[trigger] v[b]) + input_len <= inp.len(),
                    None => batch_size * input_len <= inp.len(),
                },
                (match input_indices {
                    Some(v) => ids == Some(v@),
                    None => ids is None,
                }),
                (self.bias_mods@, self.weight_mods@, self.sensitivities@) == backward_batches(
                    bm0,
                    wm0,
                    sn0,
                    w,
                    inp,
                    outs,
                    isens,
                    act,
                    lr,
                    ids,
                    size as nat,
                    input_len as nat,
                    batch as nat,
                ),
                self.weights@ == old(self).spec_weights(),
                self.biases@ == old(self).spec_biases(),
                self.outputs@ == old(self).spec_outputs(),
                self.activated_outputs@ == old(self).spec_activated(),
                self.activation == old(self).spec_activation(),
                self.executor == old(self).spec_exec(),
                bm0.len() == size,
                wm0.len() == input_len * size,
                self.bias_mods@.len() == size,
                self.weight_mods@.len() == input_len * size,
            decreases batch_size - batch,
        {
            proof {
                lemma_mul_inequality(batch as int + 1, batch_size as int, size as int);
                assert((batch + 1) * size == batch * size + size) by (nonlinear_arith);
                lemma_mul_inequality(batch as int + 1, batch_size as int, input_len as int);
                assert((batch + 1) * input_len == batch * input_len + input_len)
                    by (nonlinear_arith);
            }
            let out_offset = batch * size;
            let sens_offset = batch * input_len;
            let in_offset = match input_indices {
                None => batch * input_len,
                Some(indices) => indices[batch],
            };
            let ghost state_b = (self.bias_mods@, self.weight_mods@, self.sensitivities@);
            let mut x: usize = 0;
            while x < size
                invariant
                    self.wf(),
                    inputs.wf(),
                    in_sensitivities.wf(),
                    inputs@ == inp,
                    in_sensitivities@ == isens,
                    inputs.host_fresh(),
                    in_sensitivities.host_fresh(),
                    self.outputs.host_fresh(),
                    self.weights.host_fresh(),
                    self.weight_mods.host_fresh(),
                    self.bias_mods.host_fresh(),
                    self.sensitivities.host_fresh(),
                    x <= size,
                    batch < batch_size,
                    size == self.size,
                    input_len == self.input_len,
                    w == self.weights@,
                    outs == self.outputs@,
                    act == self.activation,
                    out_offset == batch * size,
                    sens_offset == batch * input_len,
                    out_offset + size <= isens.len(),
                    out_offset + size <= outs.len(),
                    sens_offset + input_len <= self.sensitivities@.len(),
                    in_offset + input_len <= inp.len(),
                    in_offset == in_offset_of(ids, batch as int, input_len as nat),
                    isens.len() <= usize::MAX,
                    outs.len() <= usize::MAX,
                    inp.len() <= usize::MAX,
                    w.len() <= usize::MAX,
                    sn0.len() <= usize::MAX,
                    self.sensitivities@.len() == sn0.len(),
                    (self.bias_mods@, self.weight_mods@, self.sensitivities@) == backward_x_state(
                        state_b.0,
                        state_b.1,
                        state_b.2,
                        w,
                        inp,
                        outs,
                        isens,
                        act,
                        lr,
                        out_offset as int,
                        in_offset as int,
                        sens_offset as int,
                        input_len as nat,
                        x as nat,
                    ),
                    state_b == backward_batches(bm0, wm0, sn0, w, inp, outs, isens, act, lr, ids,
                        size as nat, input_len as nat, batch as nat),
                    state_b.0.len() == size,
                    state_b.1.len() == input_len * size,
                    state_b.2.len() == sn0.len(),
                    self.weights@ == old(self).spec_weights(),
                    self.biases@ == old(self).spec_biases(),
                    self.outputs@ == old(self).spec_outputs(),
                    self.activated_outputs@ == old(self).spec_activated(),
                    self.activation == old(self).spec_activation(),
                    self.executor == old(self).spec_exec(),
                    bm0.len() == size,
                    wm0.len() == input_len * size,
                    self.bias_mods@.len() == size,
                    self.weight_mods@.len() == input_len * size,
                decreases size - x,
            {
                let ghost state_x = (self.bias_mods@, self.weight_mods@, self.sensitivities@);
                let ghost g = gradient_at(act, outs, isens, out_offset + x as int);
                let gradient = mul_val(
                    self.activation.derivative(self.outputs.get(x + out_offset)),
                    in_sensitivities.get(x + out_offset),
                );
                self.bias_mods.set(x, sub_val(self.bias_mods.get(x), mul_val(lr, gradient)));
                proof {
                    assert(x * input_len + input_len <= size * input_len) by {
                        lemma_mul_inequality(x as int + 1, size as int, input_len as int);
                        assert((x + 1) * input_len == x * input_len + input_len)
                            by (nonlinear_arith);
                    }
                    lemma_mul_is_commutative(size as int, input_len as int);
                    lemma_mul_is_commutative(x as int, input_len as int);
                }
                let row = input_len * x;
                let mut y: usize = 0;
                while y < input_len
                    invariant
                        self.wf(),
                        inputs.wf(),
                        in_sensitivities.wf(),
                        inputs@ == inp,
                        in_sensitivities@ == isens,
                        inputs.host_fresh(),
                        in_sensitivities.host_fresh(),
                        self.outputs.host_fresh(),
                        self.weights.host_fresh(),
                        self.weight_mods.host_fresh(),
                        self.bias_mods.host_fresh(),
                        self.sensitivities.host_fresh(),
                        y <= input_len,
                        x < size,
                        size == self.size,
                        input_len == self.input_len,
                        w == self.weights@,
                        outs == self.outputs@,
                        act == self.activation,
                        row == input_len * x,
                        row + input_len <= w.len(),
                        row + input_len <= self.weight_mods@.len(),
                        sens_offset + input_len <= self.sensitivities@.len(),
                        in_offset + input_len <= inp.len(),
                        g == gradient,
                        w.len() <= usize::MAX,
                        inp.len() <= usize::MAX,
                        sn0.len() <= usize::MAX,
                        self.sensitivities@.len() == sn0.len(),
                        (self.weight_mods@, self.sensitivities@) == backward_y_state(
                            state_x.1,
                            state_x.2,
                            w,
                            inp,
                            lr,
                            g,
                            row as int,
                            in_offset as int,
                            sens_offset as int,
                            y as nat,
                        ),
                        self.bias_mods@ == state_x.0.update(x as int, sub_bits(state_x.0[x as int],
                            mul_bits(lr, g))),
                        state_x.0.len() == size,
                        state_x.1.len() == input_len * size,
                        state_x.2.len() == sn0.len(),
                        self.weights@ == old(self).spec_weights(),
                        self.biases@ == old(self).spec_biases(),
                        self.outputs@ == old(self).spec_outputs(),
                        self.activated_outputs@ == old(self).spec_activated(),
                        self.activation == old(self).spec_activation(),
                        self.executor == old(self).spec_exec(),
                        bm0.len() == size,
                        wm0.len() == input_len * size,
                        self.bias_mods@.len() == size,
                        self.weight_mods@.len() == input_len * size,
                    decreases input_len - y,
                {
                    let weight_index = row + y;
                    self.weight_mods.set(
                        weight_index,
                        sub_val(
                            self.weight_mods.get(weight_index),
                            mul_val(mul_val(lr, inputs.get(y + in_offset)), gradient),
                        ),
                    );
                    let sens_index = y + sens_offset;
                    self.sensitivities.set(
                        sens_index,
                        add_val(
                            self.sensitivities.get(sens_index),
                            mul_val(gradient, self.weights.get(weight_index)),
                        ),
                    );
                    y = y + 1;
                }
                proof {
                    assert((self.bias_mods@, self.weight_mods@, self.sensitivities@)
                        == backward_x_state(state_b.0, state_b.1, state_b.2, w, inp, outs, isens,
                        act, lr, out_offset as int, in_offset as int, sens_offset as int,
                        input_len as nat, (x + 1) as nat));
                }
                x = x + 1;
            }
            proof {
                assert((self.bias_mods@, self.weight_mods@, self.sensitivities@)
                    == backward_batches(bm0, wm0, sn0, w, inp, outs, isens, act, lr, ids,
                    size as nat, input_len as nat, (batch + 1) as nat));
            }
            batch = batch + 1;
        }
    }

    /// Applies the accumulated gradients, averaged over the batch: every
    /// weight and bias gains its accumulator entry scaled by `1 /
    /// batch_size`, and both accumulators are zeroed.
    pub fn apply_gradients(&mut self, optimizer: &Optimizer, batch_size: usize)
        requires
            old(self).wf(),
        ensures
            final(self).wf(),
            ({
                let inv = div_bits(ONE_BITS, single_of_usize(batch_size));
                &&& final(self).spec_weights() == Seq::new(
                    old(self).spec_weights().len(),
                    |i: int| add_bits(old(self).spec_weights()[i], mul_bits(old(self).spec_wmods()[i], inv)),
                )
                &&& final(self).spec_biases() == Seq::new(
                    old(self).spec_biases().len(),
                    |i: int| add_bits(old(self).spec_biases()[i], mul_bits(old(self).spec_bmods()[i], inv)),
                )
            }),
            final(self).spec_wmods() == Seq::new(old(self).spec_wmods().len(), |i: int| 0u32),
            final(self).spec_bmods() == Seq::new(old(self).spec_bmods().len(), |i: int| 0u32),
            final(self).spec_outputs() == old(self).spec_outputs(),
            final(self).spec_activated() == old(self).spec_activated(),
            final(self).spec_sensitivities() == old(self).spec_sensitivities(),
            final(self).spec_input_len() == old(self).spec_input_len(),
            final(self).spec_size() == old(self).spec_size(),
            final(self).spec_activation() == old(self).spec_activation(),
            final(self).spec_exec() == old(self).spec_exec(),
    {
        let i_batch_size = match optimizer {
            Optimizer::GradientDecent(_) => div_val(ONE_BITS, single_of(batch_size)),
        };
        self.weights.cpu();
        self.biases.cpu();
        self.weight_mods.cpu();
        self.bias_mods.cpu();
        let ghost w0 = self.weights@;
        let ghost b0 = self.biases@;
        let ghost wm = self.weight_mods@;
        let ghost bm = self.bias_mods@;
        let ghost inv = div_bits(ONE_BITS, single_of_usize(batch_size));
        let wlen = self.weights.len();
        let mut i: usize = 0;
        while i < wlen
            invariant
                self.wf(),
                self.weights.host_fresh(),
                self.biases.host_fresh(),
                self.weight_mods.host_fresh(),
                self.bias_mods.host_fresh(),
                i <= wlen,
                i_batch_size == inv,
                wlen == w0.len(),
                wlen == self.weights@.len(),
                w0.len() == wm.len(),
                wm == self.weight_mods@,
                bm == self.bias_mods@,
                b0 == self.biases@,
                forall|k: int| 0 <= k < i ==> #[trigger] self.weights@[k] == add_bits(w0[k],
                    mul_bits(wm[k], inv)),
                forall|k: int| i <= k < wlen ==> #[trigger] self.weights@[k] == w0[k],
                self.spec_outputs() == old(self).spec_outputs(),
                self.spec_activated() == old(self).spec_activated(),
                self.spec_sensitivities() == old(self).spec_sensitivities(),
                self.input_len == old(self).spec_input_len(),
                self.size == old(self).spec_size(),
                self.activation == old(self).spec_activation(),
                self.executor == old(self).spec_exec(),
            decreases wlen - i,
        {
            let updated = add_val(self.weights.get(i), mul_val(self.weight_mods.get(i),
                i_batch_size));
            self.weights.set(i, updated);
            proof {
                assert(self.weights@[i as int] == add_bits(w0[i as int], mul_bits(wm[i as int],
                    inv)));
            }
            i = i + 1;
        }
        let blen = self.biases.len();
        let mut j: usize = 0;
        while j < blen
            invariant
                self.wf(),
                self.weights.host_fresh(),
                self.biases.host_fresh(),
                self.weight_mods.host_fresh(),
                self.bias_mods.host_fresh(),
                j <= blen,
                i_batch_size == inv,
                blen == b0.len(),
                blen == self.biases@.len(),
                b0.len() == bm.len(),
                wm == self.weight_mods@,
                bm == self.bias_mods@,
                forall|k: int| 0 <= k < self.weights@.len() ==> #[trigger] self.weights@[k]
                    == add_bits(w0[k], mul_bits(wm[k], inv)),
                self.weights@.len() == w0.len(),
                forall|k: int| 0 <= k < j ==> #[trigger] self.biases@[k] == add_bits(b0[k],
                    mul_bits(bm[k], inv)),
                forall|k: int| j <= k < blen ==> #[trigger] self.biases@[k] == b0[k],
                self.spec_outputs() == old(self).spec_outputs(),
                self.spec_activated() == old(self).spec_activated(),
                self.spec_sensitivities() == old(self).spec_sensitivities(),
                self.input_len == old(self).spec_input_len(),
                self.size == old(self).spec_size(),
                self.activation == old(self).spec_activation(),
                self.executor == old(self).spec_exec(),
            decreases blen - j,
        {
            let updated = add_val(self.biases.get(j), mul_val(self.bias_mods.get(j),
                i_batch_size));
            self.biases.set(j, updated);
            proof {
                assert(self.biases@[j as int] == add_bits(b0[j as int], mul_bits(bm[j as int],
                    inv)));
            }
            j = j + 1;
        }
        self.weight_mods.clear();
        self.bias_mods.clear();
        proof {
            assert(self.weights@ =~= Seq::new(w0.len(), |i: int| add_bits(w0[i], mul_bits(wm[i],
                inv))));
            assert(self.biases@ =~= Seq::new(b0.len(), |i: int| add_bits(b0[i], mul_bits(bm[i],
                inv))));
        }
    }

    /// Appends the layer's payload: its widths, its activation identity, and
    /// its parameters, exactly as `dense_payload` lays them out.
    pub fn as_bytes(&mut self, bytes: &mut VecWriter)
        requires
            old(self).wf(),
        ensures
            final(self).wf(),
            final(bytes)@ == old(bytes)@ + dense_payload(
                old(self).spec_input_len(),
                old(self).spec_size(),
                old(self).spec_activation(),
                old(self).spec_weights(),
                old(self).spec_biases(),
            ),
            final(self).spec_weights() == old(self).spec_weights(),
            final(self).spec_biases() == old(self).spec_biases(),
            final(self).spec_wmods() == old(self).spec_wmods(),
            final(self).spec_bmods() == old(self).spec_bmods(),
            final(self).spec_outputs() == old(self).spec_outputs(),
            final(self).spec_activated() == old(self).spec_activated(),
            final(self).spec_sensitivities() == old(self).spec_sensitivities(),
            final(self).spec_input_len() == old(self).spec_input_len(),
            final(self).spec_size() == old(self).spec_size(),
            final(self).spec_activation() == old(self).spec_activation(),
            final(self).spec_exec() == old(self).spec_exec(),
    {
        self.weights.cpu();
        self.biases.cpu();
        let wlen = self.weights.len();
        let blen = self.biases.len();
        if wlen < usize::MAX / 16 && blen < usize::MAX / 16 {
            bytes.reserve(24 + (wlen + blen) * 4);
        }
        bytes.usize(self.input_len);
        bytes.usize(self.size);
        bytes.usize(self.activation.id());
        let ghost w = self.weights@;
        let ghost bs = self.biases@;
        let ghost header = old(bytes)@ + be8_of(self.input_len as u64) + be8_of(self.size as u64)
            + be8_of(self.activation.id_spec() as u64);
        let mut i: usize = 0;
        proof {
            assert(bytes@ =~= header + singles_of(w.subrange(0, 0)));
        }
        while i < wlen
            invariant
                self.wf(),
                self.weights.host_fresh(),
                self.biases.host_fresh(),
                i <= wlen,
                wlen == w.len(),
                w == self.weights@,
                bs == self.biases@,
                bytes@ == header + singles_of(w.subrange(0, i as int)),
            decreases wlen - i,
        {
            bytes.single(self.weights.get(i));
            i = i + 1;
            proof {
                assert(w.subrange(0, i as int).drop_last() =~= w.subrange(0, i - 1));
                assert(bytes@ =~= header + singles_of(w.subrange(0, i as int)));
            }
        }
        let ghost header2 = header + singles_of(w);
        proof {
            assert(w.subrange(0, w.len() as int) =~= w);
            assert(bytes@ =~= header2 + singles_of(bs.subrange(0, 0)));
        }
        let mut j: usize = 0;
        while j < blen
            invariant
                self.wf(),
                self.weights.host_fresh(),
                self.biases.host_fresh(),
                j <= blen,
                blen == bs.len(),
                w == self.weights@,
                bs == self.biases@,
                bytes@ == header2 + singles_of(bs.subrange(0, j as int)),
            decreases blen - j,
        {
            bytes.single(self.biases.get(j));
            j = j + 1;
            proof {
                assert(bs.subrange(0, j as int).drop_last() =~= bs.subrange(0, j - 1));
                assert(bytes@ =~= header2 + singles_of(bs.subrange(0, j as int)));
            }
        }
        proof {
            assert(bs.subrange(0, bs.len() as int) =~= bs);
            assert(bytes@ =~= old(bytes)@ + dense_payload(old(self).spec_input_len(),
                old(self).spec_size(), old(self).spec_activation(), w, bs));
        }
    }

    /// Rebuilds a layer from the payload at the cursor: the values are read
    /// at the running offset, with zeros once the buffer is exhausted, and
    /// the cursor never moves past the end.
    pub fn from_bytes(exec: (&Executor, &Executor, &Executor), bytes: &mut CursorReader) -> (r:
        Dense)
        requires
            (be8_at(old(bytes).data(), old(bytes).position() as int) as usize) * (be8_at(
                old(bytes).data(),
                old(bytes).position() as int + 8,
            ) as usize) <= usize::MAX,
        ensures
            r.wf(),
            final(bytes).data() == old(bytes).data(),
            ({
                let data = old(bytes).data();
                let p0 = old(bytes).position() as int;
                let il = be8_at(data, p0) as usize;
                let size = be8_at(data, p0 + 8) as usize;
                &&& r.spec_input_len() == il
                &&& r.spec_size() == size
                &&& r.spec_activation() == crate::activation::activation_from_id(
                    be8_at(data, p0 + 16) as usize,
                )
                &&& r.spec_exec() == *exec.1
                &&& r.spec_weights() == singles_at(data, p0 + 24, (il * size) as nat)
                &&& r.spec_biases() == singles_at(data, p0 + 24 + 4 * (il * size), size as nat)
                &&& r.spec_wmods() == Seq::new((il * size) as nat, |k: int| 0u32)
                &&& r.spec_bmods() == Seq::new(size as nat, |k: int| 0u32)
                &&& cursor_sync(
                    final(bytes).position() as int,
                    p0 + dense_payload_len(il, size),
                    data.len() as int,
                )
            }),
    {
        let ghost data = old(bytes).data();
        let ghost n = data.len() as int;
        let ghost p0 = old(bytes).position() as int;
        let il = bytes.usize();
        proof {
            lemma_read_sync(data, p0, p0, 8);
        }
        let ghost q1 = bytes.position() as int;
        let size = bytes.usize();
        proof {
            lemma_read_sync(data, q1, p0 + 8, 8);
        }
        let ghost q2 = bytes.position() as int;
        let act_id = bytes.usize();
        proof {
            lemma_read_sync(data, q2, p0 + 16, 8);
        }
        let activation: Activation = Activation::from(act_id);
        let mut l = Dense::new(exec, il, size, activation);
        l.weights.cpu();
        l.biases.cpu();
        let wlen = l.weights.len();
        let ghost wspec = singles_at(data, p0 + 24, (il * size) as nat);
        let mut i: usize = 0;
        while i < wlen
            invariant
                l.wf(),
                l.weights.host_fresh(),
                l.biases.host_fresh(),
                bytes.data() == data,
                i <= wlen,
                wlen == il * size,
                wlen == l.weights@.len(),
                wspec == singles_at(data, p0 + 24, (il * size) as nat),
                cursor_sync(bytes.position() as int, p0 + 24 + 4 * i, n),
                n == data.len(),
                forall|k: int| 0 <= k < i ==> #[trigger] l.weights@[k] == wspec[k],
                l.spec_biases().len() == size,
                l.spec_input_len() == il,
                l.spec_size() == size,
                l.spec_activation() == activation,
                l.spec_exec() == *exec.1,
                l.spec_wmods() == Seq::new((il * size) as nat, |k: int| 0u32),
                l.spec_bmods() == Seq::new(size as nat, |k: int| 0u32),
                l.spec_outputs().len() == l.spec_activated().len(),
                l.spec_sensitivities().len() == il,
            decreases wlen - i,
        {
            proof {
                lemma_read_sync(data, bytes.position() as int, p0 + 24 + 4 * i, 4);
            }
            let v = bytes.single();
            l.weights.set(i, v);
            i = i + 1;
        }
        let blen = l.biases.len();
        let ghost bspec = singles_at(data, p0 + 24 + 4 * (il * size), size as nat);
        let mut j: usize = 0;
        while j < blen
            invariant
                l.wf(),
                l.weights.host_fresh(),
                l.biases.host_fresh(),
                bytes.data() == data,
                j <= blen,
                blen == size,
                blen == l.biases@.len(),
                wspec == singles_at(data, p0 + 24, (il * size) as nat),
                bspec == singles_at(data, p0 + 24 + 4 * (il * size), size as nat),
                cursor_sync(bytes.position() as int, p0 + 24 + 4 * (il * size) + 4 * j, n),
                n == data.len(),
                l.weights@ == wspec,
                forall|k: int| 0 <= k < j ==> #[trigger] l.biases@[k] == bspec[k],
                l.spec_input_len() == il,
                l.spec_size() == size,
                l.spec_activation() == activation,
                l.spec_exec() == *exec.1,
                l.spec_wmods() == Seq::new((il * size) as nat, |k: int| 0u32),
                l.spec_bmods() == Seq::new(size as nat, |k: int| 0u32),
                l.spec_outputs().len() == l.spec_activated().len(),
                l.spec_sensitivities().len() == il,
            decreases blen - j,
        {
            proof {
                lemma_read_sync(data, bytes.position() as int, p0 + 24 + 4 * (il * size) + 4 * j,
                    4);
            }
            let v = bytes.single();
            l.biases.set(j, v);
            j = j + 1;
        }
        proof {
            assert(l.weights@ =~= wspec);
            assert(l.biases@ =~= bspec);
        }
        l
    }

    pub fn id(&self) -> (r: usize)
        ensures
            r == 0,
    {
        0
    }

    pub fn exec(&self) -> (r: &Executor)
        ensures
            *r == self.spec_exec(),
    {
        &self.executor
    }

    pub fn input_size(&self) -> (r: usize)
        ensures
            r == self.spec_input_len(),
    {
        self.input_len
    }

    pub fn output_size(&self) -> (r: usize)
        ensures
            r == self.spec_size(),
    {
        self.size
    }

    /// A copy of the parameter buffers, weights first.
    pub fn values(&self) -> (r: Vec<DualVec>)
        ensures
            r@.len() == 2,
            r@[0]@ == self.spec_weights(),
            r@[1]@ == self.spec_biases(),
    {
        let mut v: Vec<DualVec> = Vec::new();
        v.push(self.weights.clone());
        v.push(self.biases.clone());
        v
    }

    /// A copy of the most recent activated outputs.
    pub fn activated_output(&self) -> (r: DualVec)
        requires
            self.wf(),
        ensures
            r.wf(),
            r@ == self.spec_activated(),
    {
        self.activated_outputs.clone()
    }

    /// A copy of the most recent upstream sensitivities.
    pub fn sensitivities(&self) -> (r: DualVec)
        requires
            self.wf(),
        ensures
            r.wf(),
            r@ == self.spec_sensitivities(),
    {
        self.sensitivities.clone()
    }
}

} // verus!

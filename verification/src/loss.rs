//! Per-sample loss and its gradient with respect to the activated outputs,
//! at arbitrary per-batch offsets into the target buffer. Mean-squared error
//! is the implemented kind; the categorical kind is declared only.

use vstd::arithmetic::mul::lemma_mul_inequality;
use vstd::prelude::*;

use crate::dual_vec::DualVec;
use crate::error::Error;
use crate::ieee::{add_bits, add_val, div_bits, div_val, mul_bits, mul_val, pow_bits, pow_val,
    single_of, single_of_usize, sub_bits, sub_val, TWO_BITS, ZERO_BITS};
use crate::Executor;

verus! {

pub enum Loss {
    Categorical,
    MeanSquared,
}

/// The squared-error sum of one sample over its first `i` output units,
/// accumulated in loop order starting from zero.
pub open spec fn mse_err_acc(
    actual: Seq<u32>,
    target: Seq<u32>,
    a_off: int,
    t_off: int,
    i: nat,
) -> u32
    decreases i,
{
    if i == 0 {
        ZERO_BITS
    } else {
        add_bits(
            mse_err_acc(actual, target, a_off, t_off, (i - 1) as nat),
            pow_bits(sub_bits(actual[a_off + i - 1], target[t_off + i - 1]), TWO_BITS),
        )
    }
}

/// One mean-squared loss per batch entry: the squared-error sum of the
/// sample, divided by the output width.
pub open spec fn mse_losses(
    actual: Seq<u32>,
    target: Seq<u32>,
    indices: Seq<usize>,
    output_size: nat,
    batch: nat,
) -> Seq<u32> {
    Seq::new(
        batch,
        |b: int|
            div_bits(
                mse_err_acc(actual, target, b * output_size, indices[b] as int, output_size),
                single_of_usize(output_size as usize),
            ),
    )
}

/// The loss gradient with respect to each activated output: twice the
/// difference to the addressed target value, divided by the output width.
pub open spec fn mse_gradients(
    actual: Seq<u32>,
    target: Seq<u32>,
    indices: Seq<usize>,
    output_size: nat,
) -> Seq<u32> {
    Seq::new(
        actual.len(),
        |i: int|
            div_bits(
                mul_bits(
                    TWO_BITS,
                    sub_bits(
                        actual[i],
                        target[indices[i / output_size as int] as int + (i % output_size as int)],
                    ),
                ),
                single_of_usize(output_size as usize),
            ),
    )
}

impl Loss {
    /// One loss value per batch entry, against the targets addressed by the
    /// per-batch element offsets. Only the mean-squared kind is implemented.
    pub fn calculate(&self, exec: &Executor, actual: &mut DualVec, output_size: usize,
        target: &mut DualVec, target_indices: &Vec<usize>, batch_size: usize) -> (r: Result<
        DualVec,
        Error,
    >)
        requires
            self is MeanSquared,
            old(actual).wf(),
            old(target).wf(),
            batch_size * output_size <= old(actual)@.len(),
            target_indices@.len() >= batch_size,
            forall|b: int|
                0 <= b < batch_size ==> (#[trigger] target_indices@[b]) + output_size <= old(
                    target,
                )@.len(),
        ensures
            final(actual).wf(),
            final(target).wf(),
            final(actual)@ == old(actual)@,
            final(target)@ == old(target)@,
            r is Ok,
            r matches Ok(losses) ==> losses.wf() && losses@ == mse_losses(
                old(actual)@,
                old(target)@,
                target_indices@,
                output_size as nat,
                batch_size as nat,
            ),
    {
        actual.cpu();
        target.cpu();
        let divisor = single_of(output_size);
        let ghost av = actual@;
        let ghost tv = target@;
        let mut losses: Vec<u32> = Vec::new();
        let mut batch: usize = 0;
        proof {
            actual.lemma_len_fits();
            target.lemma_len_fits();
        }
        while batch < batch_size
            invariant
                actual.wf(),
                target.wf(),
                actual.host_fresh(),
                target.host_fresh(),
                actual@ == av,
                target@ == tv,
                batch <= batch_size,
                batch_size * output_size <= av.len(),
                av.len() <= usize::MAX,
                tv.len() <= usize::MAX,
                divisor == single_of_usize(output_size),
                target_indices@.len() >= batch_size,
                forall|b: int|
                    0 <= b < batch_size ==> (#[trigger] target_indices@[b]) + output_size
                        <= tv.len(),
                losses@ == mse_losses(av, tv, target_indices@, output_size as nat, batch as nat),
            decreases batch_size - batch,
        {
            proof {
                lemma_mul_inequality(batch as int + 1, batch_size as int, output_size as int);
                assert((batch + 1) * output_size == batch * output_size + output_size)
                    by (nonlinear_arith);
            }
            let a_off = batch * output_size;
            let t_off = target_indices[batch];
            let mut error: u32 = ZERO_BITS;
            let mut i: usize = 0;
            while i < output_size
                invariant
                    actual.wf(),
                    target.wf(),
                    actual.host_fresh(),
                    target.host_fresh(),
                    actual@ == av,
                    target@ == tv,
                    i <= output_size,
                    a_off + output_size <= av.len(),
                    t_off + output_size <= tv.len(),
                    av.len() <= usize::MAX,
                    tv.len() <= usize::MAX,
                    error == mse_err_acc(av, tv, a_off as int, t_off as int, i as nat),
                decreases output_size - i,
            {
                let diff = sub_val(actual.get(i + a_off), target.get(i + t_off));
                error = add_val(error, pow_val(diff, TWO_BITS));
                i = i + 1;
            }
            losses.push(div_val(error, divisor));
            proof {
                assert(losses@ =~= mse_losses(av, tv, target_indices@, output_size as nat, (batch
                    + 1) as nat));
            }
            batch = batch + 1;
        }
        Ok(DualVec::from_vec((&Executor::CPU, exec), losses))
    }

    /// The loss gradient for every activated output, written into `out`. Only
    /// the mean-squared kind is implemented.
    pub fn dynamic_derivative(&self, exec: &Executor, actual: &mut DualVec, output_size: usize,
        target: &mut DualVec, target_indices: &Vec<usize>, out: &mut DualVec)
        requires
            self is MeanSquared,
            old(actual).wf(),
            old(target).wf(),
            old(out).wf(),
            output_size >= 1,
            old(out)@.len() == old(actual)@.len(),
            target_indices@.len() * output_size >= old(actual)@.len(),
            forall|b: int|
                0 <= b < target_indices@.len() ==> (#[trigger] target_indices@[b]) + output_size
                    <= old(target)@.len(),
        ensures
            final(actual).wf(),
            final(target).wf(),
            final(out).wf(),
            final(actual)@ == old(actual)@,
            final(target)@ == old(target)@,
            final(out)@ == mse_gradients(
                old(actual)@,
                old(target)@,
                target_indices@,
                output_size as nat,
            ),
            final(out).spec_capacity() == old(out).spec_capacity(),
            final(out).has_gpu() == old(out).has_gpu(),
        {
        let _ = exec;
        actual.cpu();
        target.cpu();
        out.cpu();
        let divisor = single_of(output_size);
        let ghost av = actual@;
        let ghost tv = target@;
        let ghost spec_g = mse_gradients(av, tv, target_indices@, output_size as nat);
        proof {
            target.lemma_len_fits();
        }
        let n = actual.len();
        let mut i: usize = 0;
        while i < n
            invariant
                actual.wf(),
                target.wf(),
                out.wf(),
                actual.host_fresh(),
                target.host_fresh(),
                out.host_fresh(),
                actual@ == av,
                target@ == tv,
                i <= n,
                n == av.len(),
                tv.len() <= usize::MAX,
                output_size >= 1,
                out@.len() == av.len(),
                out.spec_capacity() == old(out).spec_capacity(),
                out.has_gpu() == old(out).has_gpu(),
                divisor == single_of_usize(output_size),
                spec_g == mse_gradients(av, tv, target_indices@, output_size as nat),
                target_indices@.len() * output_size >= av.len(),
                forall|b: int|
                    0 <= b < target_indices@.len() ==> (#[trigger] target_indices@[b])
                        + output_size <= tv.len(),
                forall|k: int| 0 <= k < i ==> #[trigger] out@[k] == spec_g[k],
                forall|k: int| i <= k < n ==> #[trigger] out@[k] == old(out)@[k],
            decreases n - i,
        {
            let b = i / output_size;
            let r = i % output_size;
            proof {
                vstd::arithmetic::div_mod::lemma_fundamental_div_mod(i as int, output_size as int);
                vstd::arithmetic::div_mod::lemma_mod_bound(i as int, output_size as int);
                assert(b < target_indices@.len()) by {
                    if b >= target_indices@.len() {
                        lemma_mul_inequality(target_indices@.len() as int, b as int,
                            output_size as int);
                        assert(b * output_size <= i) by (nonlinear_arith)
                            requires i as int == b * output_size + r, r >= 0;
                    }
                }
            }
            let t_index = target_indices[b] + r;
            let g = div_val(mul_val(TWO_BITS, sub_val(actual.get(i), target.get(t_index))),
                divisor);
            out.set(i, g);
            i = i + 1;
        }
        proof {
            assert(out@ =~= spec_g);
        }
    }
}

} // verus!

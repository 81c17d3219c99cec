//! The dual-memory array every layer computes through: a fixed logical length
//! of IEEE single bit patterns that may be materialized on the host side, the
//! device side, or both, kept coherent by one dirty marker per side. At most
//! one side is ever dirty; obtaining a side first synchronizes it from a dirty
//! sibling.

use vstd::prelude::*;
use vstd::seq_lib::group_to_multiset_ensures;

use crate::ieee::{div_val, mul_val, single_of, sub_val, FOUR_BITS, ONE_BITS, TWO_BITS};
use crate::error::Error;
use crate::random::{random_below, random_unit};
use crate::Executor;

verus! {

/// The stored values of one optional side, and nothing where it is absent.
pub open spec fn side_seq(s: Option<Vec<u32>>) -> Seq<u32> {
    match s {
        Some(v) => v@,
        None => Seq::empty(),
    }
}

/// One freshly drawn value as `randomize` scales it: the unit draw doubled,
/// shifted down by one, divided by the buffer's length and scaled by four.
pub open spec fn scaled_draw(f: u32, len: usize) -> u32 {
    crate::ieee::mul_bits(
        crate::ieee::div_bits(
            crate::ieee::sub_bits(
                crate::ieee::mul_bits(crate::random::unit_bits(f), TWO_BITS),
                ONE_BITS,
            ),
            crate::ieee::single_of_usize(len),
        ),
        FOUR_BITS,
    )
}

/// Every value of the sequence is the corresponding drawn value of `fs` under
/// the scaling that `randomize` applies for a buffer of width `len`.
pub open spec fn randomized_with(vals: Seq<u32>, fs: Seq<u32>, len: usize) -> bool {
    &&& fs.len() == vals.len()
    &&& forall|k: int| 0 <= k < vals.len() ==> (#[trigger] vals[k]) == scaled_draw(fs[k], len)
}

/// The element pairs two sequences hold at matching positions.
pub open spec fn zip_pairs(a: Seq<u32>, b: Seq<u32>) -> Seq<(u32, u32)> {
    Seq::new(a.len(), |i: int| (a[i], b[i]))
}

/// Swapping two positions of a sequence leaves its multiset of values as it
/// was.
pub proof fn lemma_swap_multiset<A>(s: Seq<A>, a: int, b: int)
    requires
        0 <= a < s.len(),
        0 <= b < s.len(),
    ensures
        s.update(a, s[b]).update(b, s[a]).to_multiset() == s.to_multiset(),
{
    broadcast use group_to_multiset_ensures;
    broadcast use vstd::seq_lib::to_multiset_update;

    if a == b {
        assert(s.update(a, s[b]).update(b, s[a]) =~= s);
    } else {
        let s1 = s.update(a, s[b]);
        let s2 = s1.update(b, s[a]);
        assert(s.contains(s[a]));
        assert(s1.contains(s1[b]));
        assert(s1[b] == s[b]);
        assert(s2.to_multiset() =~= s.to_multiset()) by {
            assert(s1.to_multiset() == s.to_multiset().insert(s[b]).remove(s[a]));
            assert(s2.to_multiset() == s1.to_multiset().insert(s[a]).remove(s[b]));
            assert(forall|x: A|
                #[trigger] s2.to_multiset().count(x) == s.to_multiset().count(x)) by {
                assert(s.to_multiset().count(s[a]) > 0);
                assert(s.to_multiset().count(s[b]) > 0);
            }
        }
    }
}

pub struct DualVec {
    len: usize,
    capacity: usize,
    cpu: Option<Vec<u32>>,
    cpu_dirty: bool,
    gpu: Option<Vec<u32>>,
    gpu_dirty: bool,
}

impl View for DualVec {
    type V = Seq<u32>;

    /// The authoritative values: the dirty side's prefix where a side is
    /// dirty, else any present side (they agree when both are clean).
    closed spec fn view(&self) -> Seq<u32> {
        if self.gpu_dirty {
            side_seq(self.gpu).subrange(0, self.len as int)
        } else if self.cpu is Some {
            side_seq(self.cpu).subrange(0, self.len as int)
        } else {
            side_seq(self.gpu).subrange(0, self.len as int)
        }
    }
}

impl DualVec {
    /// The coherency invariant: each present side is allocated to the full
    /// capacity and zero past the logical length, at most one side is dirty,
    /// a dirty side is present, at least one side exists, and two clean
    /// sides agree.
    pub closed spec fn wf(self) -> bool {
        &&& self.len <= self.capacity
        &&& (self.cpu is Some ==> side_seq(self.cpu).len() == self.capacity)
        &&& (self.gpu is Some ==> side_seq(self.gpu).len() == self.capacity)
        &&& (self.cpu is Some ==> forall|i: int|
            self.len <= i < self.capacity ==> side_seq(self.cpu)[i] == 0)
        &&& (self.gpu is Some ==> forall|i: int|
            self.len <= i < self.capacity ==> side_seq(self.gpu)[i] == 0)
        &&& (self.cpu_dirty ==> self.cpu is Some)
        &&& (self.gpu_dirty ==> self.gpu is Some)
        &&& !(self.cpu_dirty && self.gpu_dirty)
        &&& (self.cpu is Some || self.gpu is Some)
        &&& (self.cpu is Some && self.gpu is Some && !self.cpu_dirty && !self.gpu_dirty
            ==> side_seq(self.cpu) == side_seq(self.gpu))
    }

    pub closed spec fn spec_capacity(self) -> usize {
        self.capacity
    }

    pub closed spec fn has_cpu(self) -> bool {
        self.cpu is Some
    }

    pub closed spec fn has_gpu(self) -> bool {
        self.gpu is Some
    }

    /// The host side may be read and written: it exists and the device side
    /// is not ahead of it.
    pub closed spec fn host_fresh(self) -> bool {
        self.cpu is Some && !self.gpu_dirty
    }

    /// The device side is present and not behind the host side.
    pub closed spec fn device_fresh(self) -> bool {
        self.gpu is Some && !self.cpu_dirty
    }

    /// What a reader of the host side sees.
    pub closed spec fn host_view(self) -> Seq<u32> {
        side_seq(self.cpu).subrange(0, self.len as int)
    }

    /// What a reader of the device side sees.
    pub closed spec fn device_view(self) -> Seq<u32> {
        side_seq(self.gpu).subrange(0, self.len as int)
    }

    /// A coherent buffer's logical length fits the machine word it is stored
    /// in.
    pub proof fn lemma_len_fits(&self)
        requires
            self.wf(),
        ensures
            self@.len() <= usize::MAX,
    {
    }

    /// While the host side is fresh, reading through it sees the buffer's
    /// values.
    pub proof fn lemma_host_view(&self)
        requires
            self.wf(),
            self.host_fresh(),
        ensures
            self.host_view() == self@,
    {
    }

    pub fn from_vec(exec: (&Executor, &Executor), vec: Vec<u32>) -> (r: DualVec)
        ensures
            r.wf(),
            r@ == vec@,
            r@.len() == vec@.len(),
            r.spec_capacity() == vec@.len(),
            r.has_gpu() <==> (*exec.0 == Executor::GPU || *exec.1 == Executor::GPU),
            r.has_cpu() <==> (*exec.0 == Executor::CPU || *exec.1 == Executor::CPU),
            r.has_cpu() ==> r.host_fresh() && r.host_view() == vec@,
            r.has_gpu() ==> r.device_fresh() && r.device_view() == vec@,
    {
        let len = vec.len();
        let wants_gpu = matches!(exec.0, Executor::GPU) || matches!(exec.1, Executor::GPU);
        let wants_cpu = matches!(exec.0, Executor::CPU) || matches!(exec.1, Executor::CPU);
        let gpu: Option<Vec<u32>> = if wants_gpu {
            Some(copy_values(&vec))
        } else {
            None
        };
        let cpu: Option<Vec<u32>> = if wants_cpu {
            Some(vec)
        } else {
            None
        };
        let r = DualVec { len, capacity: len, cpu, cpu_dirty: false, gpu, gpu_dirty: false };
        assert(r@ =~= side_seq(if wants_cpu {
            r.cpu
        } else {
            r.gpu
        }));
        r
    }

    pub fn from_exec(exec: &Executor, len: usize) -> (r: DualVec)
        ensures
            r.wf(),
            r@ == Seq::new(len as nat, |i: int| 0u32),
            r.spec_capacity() == len,
            r.has_gpu() <==> *exec == Executor::GPU,
            r.has_cpu() <==> *exec == Executor::CPU,
            r.has_cpu() ==> r.host_fresh() && r.host_view() == r@,
            r.has_gpu() ==> r.device_fresh() && r.device_view() == r@,
    {
        Self::from_execs((exec, exec), len)
    }

    pub fn from_execs(exec: (&Executor, &Executor), len: usize) -> (r: DualVec)
        ensures
            r.wf(),
            r@ == Seq::new(len as nat, |i: int| 0u32),
            r.spec_capacity() == len,
            r.has_gpu() <==> (*exec.0 == Executor::GPU || *exec.1 == Executor::GPU),
            r.has_cpu() <==> (*exec.0 == Executor::CPU || *exec.1 == Executor::CPU),
            r.has_cpu() ==> r.host_fresh() && r.host_view() == r@,
            r.has_gpu() ==> r.device_fresh() && r.device_view() == r@,
    {
        Self::from_vec(exec, zero_values(len))
    }

    pub fn len(&self) -> (r: usize)
        requires
            self.wf(),
        ensures
            r == self@.len(),
    {
        self.len
    }

    pub fn capacity(&self) -> (r: usize)
        ensures
            r == self.spec_capacity(),
    {
        self.capacity
    }

    /// One value through the host side.
    pub fn get(&self, i: usize) -> (r: u32)
        requires
            self.wf(),
            self.host_fresh(),
            i < self@.len(),
        ensures
            r == self@[i as int],
    {
        match &self.cpu {
            Some(v) => v[i],
            None => 0,
        }
    }

    /// One write through the host side; the device side becomes stale.
    pub fn set(&mut self, i: usize, v: u32)
        requires
            old(self).wf(),
            old(self).host_fresh(),
            i < old(self)@.len(),
        ensures
            final(self).wf(),
            final(self)@ == old(self)@.update(i as int, v),
            final(self).host_fresh(),
            final(self).has_gpu() ==> !final(self).device_fresh(),
            final(self)@.len() == old(self)@.len(),
            final(self).spec_capacity() == old(self).spec_capacity(),
            final(self).has_cpu() == old(self).has_cpu(),
            final(self).has_gpu() == old(self).has_gpu(),
    {
        match &mut self.cpu {
            Some(vec) => {
                vec[i] = v;
            },
            None => {},
        }
        self.cpu_dirty = true;
        assert(final(self)@ =~= old(self)@.update(i as int, v));
    }

    /// Obtains the host side: creates it when absent and brings it up to date
    /// with the device side, after which reading through the host returns the
    /// buffer's values. The host side can always be produced.
    pub fn cpu(&mut self)
        ensures
            old(self).wf() ==> {
                &&& final(self).wf()
                &&& final(self)@ == old(self)@
                &&& final(self).host_fresh()
                &&& final(self).host_view() == old(self)@
                &&& final(self)@.len() == old(self)@.len()
                &&& final(self).spec_capacity() == old(self).spec_capacity()
                &&& final(self).has_gpu() == old(self).has_gpu()
                &&& final(self).has_cpu()
                &&& final(self).device_fresh() == old(self).device_fresh()
            },
    {
        if self.cpu.is_none() || self.gpu_dirty {
            let side = match &self.gpu {
                Some(dev) => copy_values(dev),
                None => zero_values(self.capacity),
            };
            self.cpu = Some(side);
            self.gpu_dirty = false;
        }
        assert(old(self).wf() ==> final(self)@ =~= old(self)@);
        assert(old(self).wf() ==> final(self).host_view() =~= old(self)@);
    }

    /// Obtains the device side, first writing back a dirty host side. Unlike
    /// the host side it cannot be produced on demand: a buffer whose layers
    /// never named an accelerator has no device storage.
    pub fn gpu(&mut self) -> (r: Result<(), Error>)
        requires
            old(self).wf(),
        ensures
            final(self).wf(),
            final(self)@ == old(self)@,
            final(self)@.len() == old(self)@.len(),
            final(self).spec_capacity() == old(self).spec_capacity(),
            final(self).has_gpu() == old(self).has_gpu(),
            final(self).has_cpu() == old(self).has_cpu(),
            r is Ok <==> old(self).has_gpu(),
            r is Ok ==> final(self).device_fresh() && final(self).device_view() == old(self)@,
            r is Err ==> *final(self) == *old(self) && r matches Err(Error::UnavailableBuffer(_)),
    {
        if self.gpu.is_none() {
            return Err(
                Error::UnavailableBuffer("no device storage was created for this buffer".to_owned()),
            );
        }
        if self.cpu_dirty {
            let side = match &self.cpu {
                Some(host) => copy_values(host),
                None => zero_values(self.capacity),
            };
            self.gpu = Some(side);
            self.cpu_dirty = false;
            self.gpu_dirty = false;
        }
        assert(final(self)@ =~= old(self)@);
        assert(final(self).device_view() =~= old(self)@);
        Ok(())
    }

    /// Marks the host side as the one written most recently.
    pub fn updated_cpu(&mut self)
        requires
            old(self).wf(),
            !old(self).device_fresh() || !old(self).has_cpu() || old(self).host_fresh(),
        ensures
            final(self).wf(),
            final(self)@ == old(self)@,
            final(self)@.len() == old(self)@.len(),
            final(self).spec_capacity() == old(self).spec_capacity(),
            final(self).has_cpu() == old(self).has_cpu(),
            final(self).has_gpu() == old(self).has_gpu(),
            old(self).has_cpu() ==> final(self).host_fresh(),
    {
        if self.cpu.is_some() && !self.gpu_dirty {
            self.cpu_dirty = true;
        }
        assert(final(self)@ =~= old(self)@);
    }

    /// Marks the device side as the one written most recently.
    pub fn updated_gpu(&mut self)
        requires
            old(self).wf(),
            !old(self).host_fresh() || !old(self).has_gpu() || old(self).device_fresh(),
        ensures
            final(self).wf(),
            final(self)@ == old(self)@,
            final(self)@.len() == old(self)@.len(),
            final(self).spec_capacity() == old(self).spec_capacity(),
            final(self).has_cpu() == old(self).has_cpu(),
            final(self).has_gpu() == old(self).has_gpu(),
            old(self).has_gpu() ==> final(self).device_fresh(),
    {
        if self.gpu.is_some() && !self.cpu_dirty {
            self.gpu_dirty = true;
        }
        assert(final(self)@ =~= old(self)@);
    }

    /// Resets every value on both sides to zero and clears both dirty marks.
    pub fn clear(&mut self)
        requires
            old(self).wf(),
        ensures
            final(self).wf(),
            final(self)@ == Seq::new(old(self)@.len(), |i: int| 0u32),
            final(self)@.len() == old(self)@.len(),
            final(self).spec_capacity() == old(self).spec_capacity(),
            final(self).has_cpu() == old(self).has_cpu(),
            final(self).has_gpu() == old(self).has_gpu(),
            final(self).host_fresh() == old(self).has_cpu(),
            final(self).device_fresh() == old(self).has_gpu(),
    {
        match &mut self.cpu {
            Some(v) => zero_fill(v),
            None => {},
        }
        match &mut self.gpu {
            Some(v) => zero_fill(v),
            None => {},
        }
        self.cpu_dirty = false;
        self.gpu_dirty = false;
        assert(final(self)@ =~= Seq::new(old(self)@.len(), |i: int| 0u32));
    }

    /// Shrinks the logical length to at most `size`; the capacity stays.
    pub fn truncate_to(&mut self, size: usize)
        requires
            old(self).wf(),
        ensures
            final(self).wf(),
            final(self)@ == old(self)@.subrange(0, vstd::math::min(old(self)@.len() as int, size as int)),
            final(self).spec_capacity() == old(self).spec_capacity(),
            final(self).has_cpu() == old(self).has_cpu(),
            final(self).has_gpu() == old(self).has_gpu(),
            final(self).host_fresh() == old(self).host_fresh(),
            final(self).device_fresh() == old(self).device_fresh(),
    {
        if size < self.len {
            match &mut self.cpu {
                Some(v) => zero_range(v, size, self.len),
                None => {},
            }
            match &mut self.gpu {
                Some(v) => zero_range(v, size, self.len),
                None => {},
            }
            self.len = size;
        }
        proof {
            if self.cpu is Some && self.gpu is Some && !self.cpu_dirty && !self.gpu_dirty {
                assert(side_seq(self.cpu) =~= side_seq(self.gpu));
            }
        }
        assert(final(self)@ =~= old(self)@.subrange(
            0,
            vstd::math::min(old(self)@.len() as int, size as int),
        ));
    }

    /// Grows the capacity to at least `size`, keeping every stored value, and
    /// sets the logical length to the full capacity; the newly exposed tail is
    /// zero. The capacity never shrinks.
    pub fn expand_to(&mut self, size: usize)
        requires
            old(self).wf(),
        ensures
            final(self).wf(),
            final(self).spec_capacity() == vstd::math::max(
                old(self).spec_capacity() as int,
                size as int,
            ),
            final(self)@.len() == final(self).spec_capacity(),
            final(self)@ == old(self)@ + Seq::new(
                (final(self).spec_capacity() - old(self)@.len()) as nat,
                |i: int| 0u32,
            ),
            final(self).has_cpu() == old(self).has_cpu(),
            final(self).has_gpu() == old(self).has_gpu(),
            final(self).host_fresh() == old(self).host_fresh(),
            final(self).device_fresh() == old(self).device_fresh(),
    {
        let target = if size > self.capacity {
            size
        } else {
            self.capacity
        };
        match &mut self.cpu {
            Some(v) => pad_to(v, target),
            None => {},
        }
        match &mut self.gpu {
            Some(v) => pad_to(v, target),
            None => {},
        }
        self.capacity = target;
        self.len = target;
        assert(final(self)@ =~= old(self)@ + Seq::new(
            (final(self).spec_capacity() - old(self)@.len()) as nat,
            |i: int| 0u32,
        ));
    }

    /// Fills every logical position with a fresh random value scaled down by
    /// the buffer's length, through the host side.
    pub fn randomize(&mut self, exec: &Executor)
        requires
            old(self).wf(),
        ensures
            final(self).wf(),
            final(self)@.len() == old(self)@.len(),
            final(self).spec_capacity() == old(self).spec_capacity(),
            final(self).has_gpu() == old(self).has_gpu(),
            final(self).has_cpu(),
            final(self).host_fresh(),
            exists|fs: Seq<u32>|
                #[trigger] randomized_with(final(self)@, fs, old(self)@.len() as usize),
            old(self)@.len() >= 1 && final(self).has_gpu() ==> !final(self).device_fresh(),
    {
        let _ = exec;
        self.cpu();
        let n = self.len();
        let divisor = single_of(n);
        let ghost mut fs: Seq<u32> = Seq::empty();
        let mut i: usize = 0;
        while i < n
            invariant
                self.wf(),
                self.host_fresh(),
                self@.len() == n,
                n == old(self)@.len(),
                self.spec_capacity() == old(self).spec_capacity(),
                self.has_gpu() == old(self).has_gpu(),
                self.has_cpu(),
                divisor == crate::ieee::single_of_usize(n),
                i <= n,
                fs.len() == i,
                forall|k: int|
                    0 <= k < i ==> (#[trigger] self@[k]) == scaled_draw(fs[k], n),
                i >= 1 && self.has_gpu() ==> !self.device_fresh(),
            decreases n - i,
        {
            let unit = random_unit();
            let centered = sub_val(mul_val(unit, TWO_BITS), ONE_BITS);
            self.set(i, mul_val(div_val(centered, divisor), FOUR_BITS));
            proof {
                let f = choose|f: u32| unit == crate::random::unit_bits(f);
                fs = fs.push(f);
                assert(self@[i as int] == scaled_draw(fs[i as int], n));
            }
            i = i + 1;
        }
        proof {
            assert(n == old(self)@.len() as usize);
            assert(randomized_with(self@, fs, old(self)@.len() as usize));
        }
    }

    /// Co-shuffles two equal-length buffers with the same sequence of swaps,
    /// so each keeps its multiset of values and matching positions stay
    /// paired; buffers of differing lengths are left untouched.
    pub fn shuffle_with(&mut self, other: &mut DualVec)
        requires
            old(self).wf(),
            old(other).wf(),
        ensures
            final(self).wf(),
            final(other).wf(),
            old(self)@.len() != old(other)@.len() ==> *final(self) == *old(self) && *final(other)
                == *old(other),
            final(self)@.len() == old(self)@.len(),
            final(other)@.len() == old(other)@.len(),
            final(self).spec_capacity() == old(self).spec_capacity(),
            final(other).spec_capacity() == old(other).spec_capacity(),
            final(self).has_gpu() == old(self).has_gpu(),
            final(other).has_gpu() == old(other).has_gpu(),
            old(self)@.len() == old(other)@.len() ==> {
                &&& final(self).has_cpu() && final(self).host_fresh()
                &&& final(other).has_cpu() && final(other).host_fresh()
                &&& final(self).host_view() == final(self)@
                &&& final(other).host_view() == final(other)@
                &&& (final(self).has_gpu() ==> !final(self).device_fresh())
                &&& (final(other).has_gpu() ==> !final(other).device_fresh())
            },
            zip_pairs(final(self)@, final(other)@).to_multiset() == zip_pairs(
                old(self)@,
                old(other)@,
            ).to_multiset(),
            final(self)@.to_multiset() == old(self)@.to_multiset(),
            final(other)@.to_multiset() == old(other)@.to_multiset(),
    {
        let n = self.len();
        if n != other.len() {
            return ;
        }
        self.cpu();
        other.cpu();
        // the host sides are about to be written; the device sides are stale
        // from here on
        self.cpu_dirty = true;
        other.cpu_dirty = true;
        proof {
            assert(zip_pairs(self@, other@) == zip_pairs(old(self)@, old(other)@));
        }
        let ghost start_self = self@;
        let ghost start_other = other@;
        let mut i: usize = n;
        while i > 1
            invariant
                self.wf(),
                other.wf(),
                self.host_fresh(),
                other.host_fresh(),
                self@.len() == n,
                other@.len() == n,
                i <= n,
                self.spec_capacity() == old(self).spec_capacity(),
                other.spec_capacity() == old(other).spec_capacity(),
                self.has_cpu(),
                other.has_cpu(),
                self.has_gpu() == old(self).has_gpu(),
                other.has_gpu() == old(other).has_gpu(),
                self.has_gpu() ==> !self.device_fresh(),
                other.has_gpu() ==> !other.device_fresh(),
                self.host_view() == self@,
                other.host_view() == other@,
                zip_pairs(self@, other@).to_multiset() == zip_pairs(
                    start_self,
                    start_other,
                ).to_multiset(),
                self@.to_multiset() == start_self.to_multiset(),
                other@.to_multiset() == start_other.to_multiset(),
            decreases i,
        {
            let pos = i - 1;
            let j = random_below(pos + 1);
            let ghost before_self = self@;
            let ghost before_other = other@;
            let a = self.get(pos);
            let b = self.get(j);
            self.set(pos, b);
            self.set(j, a);
            let c = other.get(pos);
            let d = other.get(j);
            other.set(pos, d);
            other.set(j, c);
            proof {
                self.lemma_host_view();
                other.lemma_host_view();
                lemma_swap_multiset(before_self, pos as int, j as int);
                lemma_swap_multiset(before_other, pos as int, j as int);
                lemma_swap_multiset(zip_pairs(before_self, before_other), pos as int, j as int);
                assert(self@ =~= before_self.update(pos as int, before_self[j as int]).update(
                    j as int,
                    before_self[pos as int],
                ));
                assert(other@ =~= before_other.update(pos as int, before_other[j as int]).update(
                    j as int,
                    before_other[pos as int],
                ));
                assert(zip_pairs(self@, other@) =~= zip_pairs(before_self, before_other).update(
                    pos as int,
                    zip_pairs(before_self, before_other)[j as int],
                ).update(j as int, zip_pairs(before_self, before_other)[pos as int]));
            }
            i = pos;
        }
    }
}

impl Clone for DualVec {
    /// A clone carries the same values, geometry, sides and freshness.
    fn clone(&self) -> (r: Self)
        ensures
            r@ == self@,
            r.wf() == self.wf(),
            r@.len() == self@.len(),
            r.spec_capacity() == self.spec_capacity(),
            r.has_cpu() == self.has_cpu(),
            r.has_gpu() == self.has_gpu(),
            r.host_fresh() == self.host_fresh(),
            r.device_fresh() == self.device_fresh(),
            r.host_view() == self.host_view(),
            r.device_view() == self.device_view(),
    {
        let cpu: Option<Vec<u32>> = match &self.cpu {
            Some(v) => Some(copy_values(v)),
            None => None,
        };
        let gpu: Option<Vec<u32>> = match &self.gpu {
            Some(v) => Some(copy_values(v)),
            None => None,
        };
        let r = DualVec {
            len: self.len,
            capacity: self.capacity,
            cpu,
            cpu_dirty: self.cpu_dirty,
            gpu,
            gpu_dirty: self.gpu_dirty,
        };
        assert(side_seq(r.cpu) == side_seq(self.cpu));
        assert(side_seq(r.gpu) == side_seq(self.gpu));
        r
    }
}

/// A vector of `n` zero values.
fn zero_values(n: usize) -> (r: Vec<u32>)
    ensures
        r@ == Seq::new(n as nat, |i: int| 0u32),
{
    let mut v: Vec<u32> = Vec::new();
    while v.len() < n
        invariant
            v@.len() <= n,
            forall|i: int| 0 <= i < v@.len() ==> v@[i] == 0u32,
        decreases n - v@.len(),
    {
        v.push(0);
    }
    assert(v@ =~= Seq::new(n as nat, |i: int| 0u32));
    v
}

/// An element-for-element copy.
fn copy_values(v: &Vec<u32>) -> (r: Vec<u32>)
    ensures
        r@ == v@,
{
    let mut r: Vec<u32> = Vec::new();
    let mut i: usize = 0;
    while i < v.len()
        invariant
            i <= v@.len(),
            r@ == v@.subrange(0, i as int),
        decreases v@.len() - i,
    {
        r.push(v[i]);
        i = i + 1;
        assert(r@ =~= v@.subrange(0, i as int));
    }
    assert(v@.subrange(0, v@.len() as int) =~= v@);
    r
}

/// Overwrites every element with zero.
fn zero_fill(v: &mut Vec<u32>)
    ensures
        final(v)@ == Seq::new(old(v)@.len(), |i: int| 0u32),
{
    let n = v.len();
    let mut i: usize = 0;
    while i < n
        invariant
            i <= n,
            v@.len() == n,
            forall|k: int| 0 <= k < i ==> v@[k] == 0u32,
            forall|k: int| i <= k < n ==> v@[k] == old(v)@[k],
        decreases n - i,
    {
        v[i] = 0;
        i = i + 1;
    }
    assert(final(v)@ =~= Seq::new(old(v)@.len(), |i: int| 0u32));
}

/// Overwrites the elements of `[from, to)` with zero.
fn zero_range(v: &mut Vec<u32>, from: usize, to: usize)
    requires
        to <= old(v)@.len(),
    ensures
        final(v)@.len() == old(v)@.len(),
        forall|k: int| from <= k < to ==> final(v)@[k] == 0u32,
        forall|k: int| 0 <= k < old(v)@.len() && !(from <= k < to) ==> final(v)@[k] == old(v)@[k],
{
    let mut i: usize = from;
    while i < to
        invariant
            from <= i,
            i <= to || i == from,
            to <= v@.len(),
            v@.len() == old(v)@.len(),
            forall|k: int| from <= k < i ==> v@[k] == 0u32,
            forall|k: int| 0 <= k < v@.len() && !(from <= k < i) ==> v@[k] == old(v)@[k],
        decreases to - i,
    {
        v[i] = 0;
        i = i + 1;
    }
}

/// Extends with zeros up to length `n`; shorter targets leave the vector as
/// it is.
fn pad_to(v: &mut Vec<u32>, n: usize)
    ensures
        final(v)@.len() == vstd::math::max(old(v)@.len() as int, n as int),
        final(v)@ == old(v)@ + Seq::new((final(v)@.len() - old(v)@.len()) as nat, |i: int| 0u32),
{
    while v.len() < n
        invariant
            v@.len() >= old(v)@.len(),
            v@.len() <= vstd::math::max(old(v)@.len() as int, n as int),
            v@ == old(v)@ + Seq::new((v@.len() - old(v)@.len()) as nat, |i: int| 0u32),
        decreases n - v@.len(),
    {
        v.push(0);
        assert(v@ =~= old(v)@ + Seq::new((v@.len() - old(v)@.len()) as nat, |i: int| 0u32));
    }
}

} // verus!

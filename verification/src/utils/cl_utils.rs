//! Work-group sizing for kernel launches. The dispatch itself lives outside
//! this crate; the sizing rule is plain integer logic and is proved here.

use vstd::prelude::*;

verus! {

/// The largest work-group size no bigger than `max` that tiles `size` evenly,
/// and 1 when no bound is given.
pub fn calc_ws(max: usize, size: usize) -> (r: usize)
    ensures
        1 <= r,
        max >= 1 ==> r <= max,
        max >= 1 ==> size as int % r as int == 0,
        forall|j: int| r < j <= max ==> #[trigger] (size as int % j) != 0,
{
    let mut i: usize = max;
    while i >= 1 && size % i != 0
        invariant
            i <= max,
            forall|j: int| i < j <= max ==> #[trigger] (size as int % j) != 0,
        decreases i,
    {
        i = i - 1;
    }
    if i >= 1 {
        i
    } else {
        1
    }
}

} // verus!

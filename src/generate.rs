use vstd::prelude::*;

use crate::array::Array;
use crate::buffer::{Elements, NumericalArray};
use crate::number::Number;

verus! {

/// `s` is every `step`-th integer of `[lo, hi)`, ascending from `lo`: each
/// element is below `hi` and the next one would not be.
pub open spec fn is_range(s: Seq<i64>, lo: int, hi: int, step: int) -> bool {
    &&& forall|i: int| 0 <= i < s.len() ==> #[trigger] s[i] == lo + i * step && s[i] < hi
    &&& lo + s.len() * step >= hi
}

/// The bounds that `arange` covers: `[lim1, lim2)`, or `[0, lim1)` without
/// `lim2`, each bound truncated to an integer.
pub open spec fn arange_bounds(lim1: Number, lim2: Option<Number>) -> (int, int) {
    match lim2 {
        Some(end) => (lim1.spec_to_i64() as int, end.spec_to_i64() as int),
        None => (0, lim1.spec_to_i64() as int),
    }
}

/// Every `step`-th integer of the half-open range, as a one-axis integer
/// array; an empty or descending range gives an empty array.
pub fn arange(lim1: Number, lim2: Option<Number>, step: usize) -> (r: Array)
    requires
        step > 0,
    ensures
        r.arr@ is Int,
        is_range(r.arr@->Int_0, arange_bounds(lim1, lim2).0, arange_bounds(lim1, lim2).1, step as int),
        r.shape@ == seq![r.arr@.len() as usize],
{
    let lim1: i64 = i64::from(lim1);
    let (lo, hi) = match lim2 {
        Some(end) => (lim1, i64::from(end)),
        None => (0i64, lim1),
    };
    let mut vals: Vec<i64> = Vec::new();
    let mut cur: i128 = lo as i128;
    while cur < hi as i128
        invariant
            step > 0,
            cur == lo + vals@.len() * step,
            vals@.len() > 0 ==> cur < hi + step,
            forall|i: int| 0 <= i < vals@.len() ==> #[trigger] vals@[i] == lo + i * step && vals@[i] < hi,
        decreases hi + step - cur,
    {
        proof {
            assert(lo + (vals@.len() + 1) * step == cur + step) by (nonlinear_arith)
                requires
                    cur == lo + vals@.len() * step,
            ;
        }
        vals.push(cur as i64);
        cur = cur + step as i128;
    }
    let n = vals.len();
    Array { shape: vec![n], arr: NumericalArray::Int(vals) }
}

} // verus!

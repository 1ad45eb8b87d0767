use vstd::prelude::*;

use crate::array::{Array, ArrayError};
use crate::buffer::NumericalArray;
use crate::number::Number;
use crate::shape::{copy_from, product};

verus! {

/// An index: one position, or one position per leading axis.
#[derive(Clone, Debug)]
pub enum ArrayIndexInput {
    Array(Vec<isize>),
    Number(isize),
}

/// What indexing yields: a sub-array for a partial index, a scalar for a full
/// one.
#[derive(Clone, Debug)]
pub enum ArrayIndexOutput {
    Array(Array),
    Number(Number),
}

impl ArrayIndexInput {
    pub open spec fn indices(&self) -> Seq<isize> {
        match self {
            ArrayIndexInput::Array(v) => v@,
            ArrayIndexInput::Number(i) => seq![*i],
        }
    }
}

/// A position as used for addressing: non-positive positions count as zero.
pub open spec fn clamped(i: isize) -> nat {
    if i > 0 {
        i as nat
    } else {
        0
    }
}

/// The elements spanned by one step along axis `i - 1`: the product of the
/// axes from `i` on.
pub open spec fn suffix_product(shape: Seq<usize>, i: int) -> nat {
    product(shape.subrange(i, shape.len() as int))
}

/// The row-major contribution of the indices from position `i` on.
pub open spec fn offset_from(shape: Seq<usize>, idx: Seq<isize>, i: int) -> nat
    decreases idx.len() - i,
{
    if i < 0 || i >= idx.len() {
        0
    } else {
        clamped(idx[i]) * suffix_product(shape, i + 1) + offset_from(shape, idx, i + 1)
    }
}

/// The row-major flat offset that `idx` addresses in an array of `shape`.
pub open spec fn flat_offset(shape: Seq<usize>, idx: Seq<isize>) -> nat {
    offset_from(shape, idx, 0)
}

proof fn lemma_offset_from_monotone(shape: Seq<usize>, idx: Seq<isize>, a: int, b: int)
    requires
        0 <= a <= b,
    ensures
        offset_from(shape, idx, a) >= offset_from(shape, idx, b),
    decreases b - a,
{
    if a < b && a < idx.len() {
        lemma_offset_from_monotone(shape, idx, a + 1, b);
    }
}

proof fn lemma_suffix_step(shape: Seq<usize>, i: int)
    requires
        0 <= i < shape.len(),
    ensures
        suffix_product(shape, i) == shape[i] as nat * suffix_product(shape, i + 1),
{
    let s = shape.subrange(i, shape.len() as int);
    assert(s.drop_first() =~= shape.subrange(i + 1, shape.len() as int));
}

impl Array {
    /// Indexes the array.
    ///
    /// With one index per axis the result is the element at the row-major flat
    /// offset; with fewer it is the sub-array over the remaining axes, copied
    /// out of the buffer. Non-positive indices address position zero. More
    /// indices than axes, and a position that falls outside the buffer, give
    /// `IndexError`.
    pub fn get(&self, idx: ArrayIndexInput) -> (r: Result<ArrayIndexOutput, ArrayError>)
        ensures
            idx.indices().len() > self.shape@.len() ==> r is Err,
            idx.indices().len() == self.shape@.len() ==> (r is Ok <==> flat_offset(
                self.shape@,
                idx.indices(),
            ) < self.arr@.len()),
            idx.indices().len() == self.shape@.len() && r is Ok ==> r->Ok_0
                == ArrayIndexOutput::Number(self.arr@.at(flat_offset(self.shape@, idx.indices()) as int)),
            idx.indices().len() < self.shape@.len() ==> (r is Ok <==> flat_offset(
                self.shape@,
                idx.indices(),
            ) + suffix_product(self.shape@, idx.indices().len() as int) <= self.arr@.len()),
            idx.indices().len() < self.shape@.len() && r is Ok ==> ({
                let off = flat_offset(self.shape@, idx.indices());
                let t = suffix_product(self.shape@, idx.indices().len() as int);
                &&& r->Ok_0 is Array
                &&& r->Ok_0->Array_0.shape@ == self.shape@.subrange(
                    idx.indices().len() as int,
                    self.shape@.len() as int,
                )
                &&& r->Ok_0->Array_0.arr@ == self.arr@.slice(off as int, (off + t) as int)
            }),
            r is Err ==> r matches Err(ArrayError::IndexError),
    {
        let indices: Vec<isize> = match idx {
            ArrayIndexInput::Number(i) => vec![i],
            ArrayIndexInput::Array(arr) => arr,
        };
        let ghost ix = idx.indices();
        assert(indices@ =~= ix);
        let n = self.shape.len();
        let k = indices.len();
        if k > n {
            return Err(ArrayError::IndexError);
        }
        let len = self.arr.len();
        let ghost shape = self.shape@;
        // The product of the axes from `i` on, and whether it exceeds usize.
        let mut suffix: usize = 1;
        let mut big: bool = false;
        let mut i: usize = n;
        proof {
            assert(shape.subrange(n as int, n as int) =~= Seq::<usize>::empty());
        }
        while i > k
            invariant
                k <= i <= n,
                n == shape.len(),
                shape == self.shape@,
                big ==> suffix_product(shape, i as int) > usize::MAX,
                !big ==> suffix == suffix_product(shape, i as int),
            decreases i,
        {
            let d = self.shape[i - 1];
            proof {
                lemma_suffix_step(shape, i - 1);
            }
            if d == 0 {
                suffix = 0;
                big = false;
            } else if !big {
                match suffix.checked_mul(d) {
                    Some(v) => suffix = v,
                    None => big = true,
                }
            } else {
                assert(d as nat * suffix_product(shape, i as int) >= suffix_product(shape, i as int))
                    by (nonlinear_arith)
                    requires
                        d > 0,
                ;
            }
            i -= 1;
        }
        let trailing = suffix;
        let trailing_big = big;
        // Accumulate the offset from the innermost indexed axis outwards.
        let mut acc: usize = 0;
        while i > 0
            invariant
                i <= k <= n,
                n == shape.len(),
                shape == self.shape@,
                k == ix.len(),
                indices@ == ix,
                ix == idx.indices(),
                big ==> suffix_product(shape, i as int) > usize::MAX,
                !big ==> suffix == suffix_product(shape, i as int),
                acc == offset_from(shape, ix, i as int),
                len == self.arr@.len(),
            decreases i,
        {
            let p = indices[i - 1];
            let c: usize = if p > 0 { p as usize } else { 0 };
            proof {
                lemma_suffix_step(shape, i - 1);
                lemma_offset_from_monotone(shape, ix, 0, i - 1);
                assert(offset_from(shape, ix, i - 1) == c * suffix_product(shape, i as int) + acc);
            }
            if c != 0 {
                if big {
                    assert(c * suffix_product(shape, i as int) >= suffix_product(shape, i as int))
                        by (nonlinear_arith)
                        requires
                            c > 0,
                    ;
                    assert(offset_from(shape, ix, 0) > usize::MAX);
                    return Err(ArrayError::IndexError);
                }
                let term = match c.checked_mul(suffix) {
                    Some(v) => v,
                    None => {
                        assert(offset_from(shape, ix, 0) > usize::MAX);
                        return Err(ArrayError::IndexError);
                    },
                };
                acc = match acc.checked_add(term) {
                    Some(v) => v,
                    None => {
                        assert(offset_from(shape, ix, 0) > usize::MAX);
                        return Err(ArrayError::IndexError);
                    },
                };
            }
            let d = self.shape[i - 1];
            assert(suffix_product(shape, i - 1) == d as nat * suffix_product(shape, i as int));
            if d == 0 {
                assert(d as nat * suffix_product(shape, i as int) == 0) by (nonlinear_arith)
                    requires
                        d == 0,
                ;
                suffix = 0;
                big = false;
            } else if !big {
                match suffix.checked_mul(d) {
                    Some(v) => {
                        assert(v == d as nat * suffix_product(shape, i as int));
                        suffix = v;
                        assert(suffix == suffix_product(shape, i - 1));
                    },
                    None => big = true,
                }
            } else {
                assert(d as nat * suffix_product(shape, i as int) >= suffix_product(shape, i as int))
                    by (nonlinear_arith)
                    requires
                        d > 0,
                ;
            }
            i -= 1;
        }
        if k == n {
            if acc < len {
                Ok(ArrayIndexOutput::Number(self.arr.get(acc)))
            } else {
                Err(ArrayError::IndexError)
            }
        } else {
            if trailing_big {
                return Err(ArrayError::IndexError);
            }
            let end = match acc.checked_add(trailing) {
                Some(v) => v,
                None => {
                    return Err(ArrayError::IndexError);
                },
            };
            if end <= len {
                let sub = self.arr.get_range(acc..end);
                let shape_rest = copy_from(&self.shape, k);
                Ok(ArrayIndexOutput::Array(Array { shape: shape_rest, arr: sub }))
            } else {
                Err(ArrayError::IndexError)
            }
        }
    }
}

} // verus!

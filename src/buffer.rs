use vstd::prelude::*;

use crate::number::{FloatBits, Number};

verus! {

/// The contents of a buffer: its variant and its elements in order.
pub ghost enum Elements {
    Int(Seq<i64>),
    Float(Seq<FloatBits>),
}

impl Elements {
    pub open spec fn len(self) -> nat {
        match self {
            Elements::Int(s) => s.len(),
            Elements::Float(s) => s.len(),
        }
    }

    /// The element at `i`, tagged with the buffer's variant.
    pub open spec fn at(self, i: int) -> Number {
        match self {
            Elements::Int(s) => Number::Int(s[i]),
            Elements::Float(s) => Number::Float(s[i]),
        }
    }

    /// The elements in `[start, end)`, same variant.
    pub open spec fn slice(self, start: int, end: int) -> Elements {
        match self {
            Elements::Int(s) => Elements::Int(s.subrange(start, end)),
            Elements::Float(s) => Elements::Float(s.subrange(start, end)),
        }
    }

    pub open spec fn same_variant(self, other: Elements) -> bool {
        (self is Int && other is Int) || (self is Float && other is Float)
    }
}

/// A flat, homogeneous element buffer: all integers or all floats.
#[derive(Clone, Debug)]
pub enum NumericalArray {
    Int(Vec<i64>),
    Float(Vec<FloatBits>),
}

impl View for NumericalArray {
    type V = Elements;

    open spec fn view(&self) -> Elements {
        match self {
            NumericalArray::Int(v) => Elements::Int(v@),
            NumericalArray::Float(v) => Elements::Float(v@),
        }
    }
}

impl NumericalArray {
    /// The number of elements.
    pub fn len(&self) -> (r: usize)
        ensures
            r == self@.len(),
    {
        match self {
            NumericalArray::Float(arr) => arr.len(),
            NumericalArray::Int(arr) => arr.len(),
        }
    }

    /// A copy of the whole buffer.
    pub fn duplicate(&self) -> (out: NumericalArray)
        ensures
            out@ == self@,
    {
        let n = self.len();
        let out = self.get_range(0..n);
        proof {
            match self@ {
                Elements::Int(s) => assert(s.subrange(0, n as int) =~= s),
                Elements::Float(s) => assert(s.subrange(0, n as int) =~= s),
            }
        }
        out
    }

    /// The element at `index`, tagged with the buffer's variant.
    pub fn get(&self, index: usize) -> (r: Number)
        requires
            index < self@.len(),
        ensures
            r == self@.at(index as int),
    {
        match self {
            NumericalArray::Float(f) => Number::Float(f[index]),
            NumericalArray::Int(i) => Number::Int(i[index]),
        }
    }

    /// A copy of the elements in `r.start .. r.end`.
    pub fn get_range(&self, r: std::ops::Range<usize>) -> (out: NumericalArray)
        requires
            r.start <= r.end <= self@.len(),
        ensures
            out@ == self@.slice(r.start as int, r.end as int),
    {
        match self {
            NumericalArray::Float(f) => NumericalArray::Float(copy_range(f, r.start, r.end)),
            NumericalArray::Int(i) => NumericalArray::Int(copy_range(i, r.start, r.end)),
        }
    }
}

fn copy_range<T: Copy>(v: &Vec<T>, start: usize, end: usize) -> (out: Vec<T>)
    requires
        start <= end <= v@.len(),
    ensures
        out@ == v@.subrange(start as int, end as int),
{
    let mut out: Vec<T> = Vec::new();
    let mut i: usize = start;
    while i < end
        invariant
            start <= i <= end <= v@.len(),
            out@ == v@.subrange(start as int, i as int),
        decreases end - i,
    {
        out.push(v[i]);
        i += 1;
        proof {
            assert(out@ =~= v@.subrange(start as int, i as int));
        }
    }
    out
}

} // verus!

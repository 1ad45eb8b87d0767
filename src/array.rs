use vstd::prelude::*;

use crate::buffer::{Elements, NumericalArray};
use crate::number::FloatBits;
use crate::shape::{chain_divides, same_shape};
use crate::literal::{
    children, derefs, leaf_elements, leaves, level, next_level, profile, same_kind, well_formed,
    Literal,
};

verus! {

broadcast use vstd::seq_lib::group_seq_properties;

/// The failures of the engine's operations.
#[derive(Clone, Debug)]
pub enum ArrayError {
    /// A literal that is not a list of uniform depth and length holding scalars
    /// of one kind, or operands of different variants.
    TypeMismatch,
    /// Operands of different shapes.
    ShapeMismatch { lhs: Vec<usize>, rhs: Vec<usize> },
    /// A shape that fails the chain-divisibility check against `len` elements.
    ReshapeError { shape: Vec<usize>, len: usize },
    /// More indices than axes, or a position outside the buffer.
    IndexError,
    /// An integer division by a zero element.
    DivisionByZero,
}

impl ArrayError {
    /// A shape mismatch that reports these two shapes.
    pub open spec fn is_shape_mismatch(self, lhs: Seq<usize>, rhs: Seq<usize>) -> bool {
        match self {
            ArrayError::ShapeMismatch { lhs: a, rhs: b } => a@ == lhs && b@ == rhs,
            _ => false,
        }
    }

    /// A reshape failure that reports this shape and element count.
    pub open spec fn is_reshape_error(self, shape: Seq<usize>, len: nat) -> bool {
        match self {
            ArrayError::ReshapeError { shape: s, len: n } => s@ == shape && n == len,
            _ => false,
        }
    }
}

/// Same variant, same length, and pairwise equal elements; floats compare as
/// IEEE-754 values.
pub open spec fn elements_equal(a: Elements, b: Elements) -> bool {
    match (a, b) {
        (Elements::Int(x), Elements::Int(y)) => x == y,
        (Elements::Float(x), Elements::Float(y)) => x.len() == y.len() && forall|i: int|
            0 <= i < x.len() ==> (#[trigger] x[i]).spec_float_eq(y[i]),
        _ => false,
    }
}

/// An N-dimensional array: a shape, outermost axis first, over a flat
/// row-major buffer.
#[derive(Clone, Debug)]
pub struct Array {
    pub shape: Vec<usize>,
    pub arr: NumericalArray,
}

impl Array {
    /// Builds an array from a nested literal, as `extract` does.
    pub fn py_new(lit: &Literal) -> (r: Result<Array, ArrayError>)
        ensures
            well_formed(*lit) ==> r is Ok,
            !well_formed(*lit) ==> r matches Err(ArrayError::TypeMismatch),
            r is Ok ==> r->Ok_0.shape@ == profile(*lit),
            r is Ok ==> r->Ok_0.arr@ == leaf_elements(leaves(*lit)),
    {
        Self::extract(lit)
    }

    /// The same elements under `shape`, when `shape` passes the
    /// chain-divisibility check against the element count. The check does not
    /// ask that the shape's product equal the count: `[6]` elements take shape
    /// `[3]`.
    pub fn reshape(&self, shape: Vec<usize>) -> (r: Result<Array, ArrayError>)
        ensures
            chain_divides(self.arr@.len(), shape@) ==> r is Ok && r->Ok_0.shape@ == shape@
                && r->Ok_0.arr@ == self.arr@,
            !chain_divides(self.arr@.len(), shape@) ==> r is Err && r->Err_0.is_reshape_error(
                shape@,
                self.arr@.len(),
            ),
    {
        let len = self.arr.len();
        let mut remaining: usize = len;
        let mut ok: bool = true;
        let mut i: usize = 0;
        while i < shape.len()
            invariant
                i <= shape@.len(),
                chain_divides(len as nat, shape@) == (ok && chain_divides(
                    remaining as nat,
                    shape@.subrange(i as int, shape@.len() as int),
                )),
            decreases shape@.len() - i,
        {
            let d = shape[i];
            proof {
                let rest = shape@.subrange(i as int, shape@.len() as int);
                assert(rest.drop_first() =~= shape@.subrange(i + 1, shape@.len() as int));
            }
            if d == 0 {
                if remaining != 0 {
                    ok = false;
                }
                remaining = 0;
            } else if remaining % d == 0 {
                remaining = remaining / d;
            } else {
                ok = false;
            }
            i += 1;
        }
        proof {
            assert(shape@.subrange(i as int, shape@.len() as int) =~= Seq::<usize>::empty());
        }
        if ok {
            Ok(Array { shape, arr: self.arr.duplicate() })
        } else {
            Err(ArrayError::ReshapeError { shape, len })
        }
    }

    /// Equal shapes, equal variants and pairwise equal elements. Arrays of
    /// different variants are unequal, whatever their values.
    pub fn equals(&self, other: &Array) -> (r: bool)
        ensures
            r == (self.shape@ == other.shape@ && elements_equal(self.arr@, other.arr@)),
    {
        let arrays_match = match (&self.arr, &other.arr) {
            (NumericalArray::Int(a1), NumericalArray::Int(a2)) => {
                if a1.len() != a2.len() {
                    false
                } else {
                    let mut i: usize = 0;
                    let mut same = true;
                    while i < a1.len()
                        invariant
                            i <= a1@.len() == a2@.len(),
                            same == forall|j: int| 0 <= j < i ==> a1@[j] == a2@[j],
                        decreases a1@.len() - i,
                    {
                        if a1[i] != a2[i] {
                            same = false;
                        }
                        i += 1;
                    }
                    proof {
                        if same {
                            assert(a1@ =~= a2@);
                        }
                    }
                    same
                }
            },
            (NumericalArray::Float(a1), NumericalArray::Float(a2)) => {
                if a1.len() != a2.len() {
                    false
                } else {
                    let mut i: usize = 0;
                    let mut same = true;
                    while i < a1.len()
                        invariant
                            i <= a1@.len() == a2@.len(),
                            same == forall|j: int|
                                0 <= j < i ==> (#[trigger] a1@[j]).spec_float_eq(a2@[j]),
                        decreases a1@.len() - i,
                    {
                        if !a1[i].float_eq(a2[i]) {
                            same = false;
                        }
                        i += 1;
                    }
                    same
                }
            },
            _ => false,
        };
        let shapes_match = same_shape(&self.shape, &other.shape);
        arrays_match && shapes_match
    }

    /// The size of the outermost axis.
    pub fn len(&self) -> (r: usize)
        requires
            self.shape@.len() > 0,
        ensures
            r == self.shape@[0],
    {
        self.shape[0]
    }

    /// Builds an array from a nested literal.
    ///
    /// The shape is the literal's per-depth length profile and the buffer
    /// holds its scalars in row-major order. Siblings of different lengths,
    /// a list where a scalar is expected or the reverse, and scalars of both
    /// kinds are refused.
    pub fn extract(lit: &Literal) -> (r: Result<Array, ArrayError>)
        ensures
            well_formed(*lit) ==> r is Ok,
            !well_formed(*lit) ==> r matches Err(ArrayError::TypeMismatch),
            r is Ok ==> r->Ok_0.shape@ == profile(*lit),
            r is Ok ==> r->Ok_0.arr@ == leaf_elements(leaves(*lit)),
    {
        if !matches!(lit, Literal::List(_)) {
            return Err(ArrayError::TypeMismatch);
        }
        let shape = first_path_lengths(lit);
        let ghost p = profile(*lit);
        // Walk the literal depth by depth, checking each list's length.
        let mut cur: Vec<&Literal> = vec![lit];
        let mut k: usize = 0;
        proof {
            assert(derefs(cur@) =~= level(*lit, 0));
        }
        while k < shape.len()
            invariant
                shape@ == p,
                p == profile(*lit),
                k <= shape.len(),
                derefs(cur@) == level(*lit, k as nat),
                forall|k2: nat, j: int|
                    k2 < k && 0 <= j < level(*lit, k2).len() ==> {
                        let node = #[trigger] level(*lit, k2)[j];
                        node is List && children(node).len() == p[k2 as int]
                    },
            decreases shape.len() - k,
        {
            let w = shape[k];
            let mut next: Vec<&Literal> = Vec::new();
            let mut j: usize = 0;
            while j < cur.len()
                invariant
                    j <= cur.len(),
                    k < p.len(),
                    p == profile(*lit),
                    w == p[k as int],
                    derefs(cur@) == level(*lit, k as nat),
                    derefs(next@) == next_level(derefs(cur@).take(j as int)),
                    forall|j2: int|
                        0 <= j2 < j ==> {
                            let node = #[trigger] level(*lit, k as nat)[j2];
                            node is List && children(node).len() == w
                        },
                decreases cur.len() - j,
            {
                let node: &Literal = cur[j];
                assert(derefs(cur@)[j as int] == *node);
                match node {
                    Literal::List(items) => {
                        if items.len() != w {
                            assert(children(level(*lit, k as nat)[j as int]).len() != p[k as int]);
                            return Err(ArrayError::TypeMismatch);
                        }
                        let ghost before = derefs(next@);
                        let mut i: usize = 0;
                        while i < items.len()
                            invariant
                                i <= items.len(),
                                derefs(next@) == before + items@.take(i as int),
                            decreases items.len() - i,
                        {
                            let ghost prev = next@;
                            next.push(&items[i]);
                            proof {
                                assert(next@ == prev.push(&items[i as int]));
                                assert(derefs(next@) =~= derefs(prev).push(items@[i as int]));
                                assert(items@.take(i + 1) =~= items@.take(i as int).push(items@[i as int]));
                            }
                            i += 1;
                            proof {
                                assert(derefs(next@) =~= before + items@.take(i as int));
                            }
                        }
                        proof {
                            let f = |n: Literal| children(n);
                            let c = derefs(cur@);
                            assert(items@.take(i as int) =~= items@);
                            assert(c.take(j + 1).map_values(f) =~= c.take(j as int).map_values(f).push(
                                children(*node),
                            ));
                            c.take(j as int).map_values(f).lemma_flatten_push(children(*node));
                        }
                    },
                    _ => {
                        assert(!(level(*lit, k as nat)[j as int] is List));
                        return Err(ArrayError::TypeMismatch);
                    },
                }
                j += 1;
            }
            proof {
                assert(derefs(cur@).take(j as int) =~= derefs(cur@));
            }
            cur = next;
            k += 1;
        }
        // `cur` now holds the scalars at the element depth.
        let ghost lv = leaves(*lit);
        assert(derefs(cur@) == lv);
        if cur.len() == 0 {
            proof {
                assert(Seq::<FloatBits>::empty() =~= lv.map_values(|l: Literal| l->Float_0));
            }
            return Ok(Array { shape, arr: NumericalArray::Float(Vec::new()) });
        }
        assert(derefs(cur@)[0] == *cur[0]);
        let arr = match cur[0] {
            Literal::Int(_) => {
                let mut vals: Vec<i64> = Vec::new();
                let mut j: usize = 0;
                while j < cur.len()
                    invariant
                        j <= cur.len(),
                        derefs(cur@) == lv,
                        lv == leaves(*lit),
                        lv[0] is Int,
                        vals@ == lv.take(j as int).map_values(|l: Literal| l->Int_0),
                        forall|j2: int| 0 <= j2 < j ==> (#[trigger] lv[j2]) is Int,
                    decreases cur.len() - j,
                {
                    assert(derefs(cur@)[j as int] == *cur[j as int]);
                    match cur[j] {
                        Literal::Int(v) => vals.push(*v),
                        _ => {
                            proof {
                                assert(!same_kind(leaves(*lit)[j as int], leaves(*lit)[0]));
                            }
                            return Err(ArrayError::TypeMismatch);
                        },
                    }
                    j += 1;
                    proof {
                        assert(vals@ =~= lv.take(j as int).map_values(|l: Literal| l->Int_0));
                    }
                }
                proof {
                    assert(lv.take(j as int) =~= lv);
                }
                NumericalArray::Int(vals)
            },
            Literal::Float(_) => {
                let mut vals: Vec<FloatBits> = Vec::new();
                let mut j: usize = 0;
                while j < cur.len()
                    invariant
                        j <= cur.len(),
                        derefs(cur@) == lv,
                        lv == leaves(*lit),
                        lv[0] is Float,
                        vals@ == lv.take(j as int).map_values(|l: Literal| l->Float_0),
                        forall|j2: int| 0 <= j2 < j ==> (#[trigger] lv[j2]) is Float,
                    decreases cur.len() - j,
                {
                    assert(derefs(cur@)[j as int] == *cur[j as int]);
                    match cur[j] {
                        Literal::Float(v) => vals.push(*v),
                        _ => {
                            proof {
                                assert(!same_kind(leaves(*lit)[j as int], leaves(*lit)[0]));
                            }
                            return Err(ArrayError::TypeMismatch);
                        },
                    }
                    j += 1;
                    proof {
                        assert(vals@ =~= lv.take(j as int).map_values(|l: Literal| l->Float_0));
                    }
                }
                proof {
                    assert(lv.take(j as int) =~= lv);
                }
                NumericalArray::Float(vals)
            },
            Literal::List(_) => {
                proof {
                    assert(!same_kind(leaves(*lit)[0], leaves(*lit)[0]));
                }
                return Err(ArrayError::TypeMismatch);
            },
        };
        Ok(Array { shape, arr })
    }
}

/// The lengths along the first item of each depth.
fn first_path_lengths(lit: &Literal) -> (shape: Vec<usize>)
    requires
        lit is List,
    ensures
        shape@ == profile(*lit),
{
    let mut shape: Vec<usize> = Vec::new();
    let mut node: &Literal = lit;
    loop
        invariant_except_break
            node is List,
            shape@ + profile(*node) == profile(*lit),
        ensures
            shape@ == profile(*lit),
        decreases profile(*node).len(),
    {
        match node {
            Literal::List(items) => {
                shape.push(items.len());
                if items.len() > 0 && matches!(items[0], Literal::List(_)) {
                    proof {
                        assert(shape@ + profile(items[0]) =~= profile(*lit));
                    }
                    node = &items[0];
                } else {
                    proof {
                        assert(shape@ =~= profile(*lit));
                    }
                    break;
                }
            },
            _ => {
                break;
            },
        }
    }
    shape
}

} // verus!

use vstd::prelude::*;
use vstd::wrapping::i64_specs;

use crate::array::{Array, ArrayError};
use crate::buffer::{Elements, NumericalArray};
use crate::number::FloatBits;
use crate::shape::{copy_from, same_shape};

verus! {

/// An elementwise arithmetic operation.
#[derive(Clone, Copy, Debug, PartialEq, Eq, Structural)]
pub enum ArithOp {
    Add,
    Sub,
    Mul,
    Div,
}

/// Division rounding toward zero, on the magnitudes.
pub open spec fn trunc_quotient(x: int, d: int) -> int {
    if x == 0 {
        0
    } else if x > 0 && d > 0 {
        x / d
    } else if x < 0 && d < 0 {
        (-x) / (-d)
    } else if x < 0 {
        -((-x) / d)
    } else {
        -(x / (-d))
    }
}

/// The integer result of `op`, wrapped to 64 bits in two's complement. A
/// quotient rounds toward zero; the one quotient out of range, `MIN / -1`,
/// wraps to `MIN`.
pub open spec fn int_apply(op: ArithOp, x: i64, y: i64) -> i64 {
    match op {
        ArithOp::Add => i64_specs::wrapping_add(x, y),
        ArithOp::Sub => i64_specs::wrapping_sub(x, y),
        ArithOp::Mul => i64_specs::wrapping_mul(x, y),
        ArithOp::Div => if x == i64::MIN && y == -1 {
            i64::MIN
        } else {
            trunc_quotient(x as int, y as int) as i64
        },
    }
}

pub open spec fn min_len(a: nat, b: nat) -> nat {
    if a <= b {
        a
    } else {
        b
    }
}

/// `op` applied pairwise over the positions that both operands have.
pub open spec fn int_zip(op: ArithOp, l: Seq<i64>, r: Seq<i64>) -> Seq<i64> {
    Seq::new(min_len(l.len(), r.len()), |i: int| int_apply(op, l[i], r[i]))
}

/// A zero among the divisors paired with a dividend.
pub open spec fn has_zero_divisor(l: Seq<i64>, r: Seq<i64>) -> bool {
    exists|i: int| 0 <= i < min_len(l.len(), r.len()) && r[i] == 0
}

proof fn lemma_quotient_in_range(x: i64, y: i64)
    requires
        y != 0,
        !(x == i64::MIN && y == -1),
    ensures
        i64::MIN <= trunc_quotient(x as int, y as int) <= i64::MAX,
{
    let a: int = if x >= 0 { x as int } else { -(x as int) };
    let b: int = if y >= 0 { y as int } else { -(y as int) };
    assert(a / b <= a) by (nonlinear_arith)
        requires
            a >= 0,
            b >= 1,
    ;
    assert(0 <= a / b) by (nonlinear_arith)
        requires
            a >= 0,
            b >= 1,
    ;
    if b >= 2 {
        assert(a / b <= a / 2) by (nonlinear_arith)
            requires
                a >= 0,
                b >= 2,
        ;
    }
}

fn int_step(op: ArithOp, x: i64, y: i64) -> (r: i64)
    requires
        op == ArithOp::Div ==> y != 0,
    ensures
        r == int_apply(op, x, y),
{
    match op {
        ArithOp::Add => x.wrapping_add(y),
        ArithOp::Sub => x.wrapping_sub(y),
        ArithOp::Mul => x.wrapping_mul(y),
        ArithOp::Div => {
            if x == i64::MIN && y == -1 {
                i64::MIN
            } else {
                proof {
                    lemma_quotient_in_range(x, y);
                }
                match x.checked_div(y) {
                    Some(q) => q,
                    None => i64::MIN,
                }
            }
        },
    }
}

fn int_zip_exec(op: ArithOp, l: &Vec<i64>, r: &Vec<i64>) -> (out: Result<Vec<i64>, ArrayError>)
    ensures
        op == ArithOp::Div && has_zero_divisor(l@, r@) ==> out matches Err(ArrayError::DivisionByZero),
        !(op == ArithOp::Div && has_zero_divisor(l@, r@)) ==> out is Ok && out->Ok_0@ == int_zip(
            op,
            l@,
            r@,
        ),
{
    let n: usize = if l.len() <= r.len() {
        l.len()
    } else {
        r.len()
    };
    let mut out: Vec<i64> = Vec::new();
    let mut i: usize = 0;
    while i < n
        invariant
            i <= n == min_len(l@.len(), r@.len()),
            out@ == int_zip(op, l@, r@).take(i as int),
            op == ArithOp::Div ==> forall|j: int| 0 <= j < i ==> r@[j] != 0,
        decreases n - i,
    {
        if op == ArithOp::Div && r[i] == 0 {
            return Err(ArrayError::DivisionByZero);
        }
        out.push(int_step(op, l[i], r[i]));
        i += 1;
        proof {
            assert(out@ =~= int_zip(op, l@, r@).take(i as int));
        }
    }
    assert(out@ =~= int_zip(op, l@, r@));
    Ok(out)
}

fn float_zip_exec<F: Fn(FloatBits, FloatBits) -> FloatBits>(
    l: &Vec<FloatBits>,
    r: &Vec<FloatBits>,
    float_op: &F,
) -> (out: Vec<FloatBits>)
    requires
        forall|x: FloatBits, y: FloatBits| float_op.requires((x, y)),
    ensures
        out@.len() == min_len(l@.len(), r@.len()),
        forall|i: int| 0 <= i < out@.len() ==> float_op.ensures((l@[i], r@[i]), #[trigger] out@[i]),
{
    let n: usize = if l.len() <= r.len() {
        l.len()
    } else {
        r.len()
    };
    let mut out: Vec<FloatBits> = Vec::new();
    let mut i: usize = 0;
    while i < n
        invariant
            i <= n == min_len(l@.len(), r@.len()),
            out@.len() == i,
            forall|x: FloatBits, y: FloatBits| float_op.requires((x, y)),
            forall|j: int| 0 <= j < i ==> float_op.ensures((l@[j], r@[j]), #[trigger] out@[j]),
        decreases n - i,
    {
        let v = float_op(l[i], r[i]);
        out.push(v);
        i += 1;
    }
    out
}

/// What `op` on `lhs` and `rhs` is owed, whatever the float operation: the
/// shape check comes first, then the variant check, then for integers the
/// zero-divisor check; integer results are exact, float results are lengths
/// and shapes here (their elements are stated where the float operation is
/// known).
pub open spec fn elementwise_outcome(
    op: ArithOp,
    lhs: Array,
    rhs: Array,
    r: Result<Array, ArrayError>,
) -> bool {
    &&& lhs.shape@ != rhs.shape@ ==> r is Err && r->Err_0.is_shape_mismatch(lhs.shape@, rhs.shape@)
    &&& lhs.shape@ == rhs.shape@ && !lhs.arr@.same_variant(rhs.arr@) ==> r is Err && r->Err_0
        is TypeMismatch
    &&& lhs.shape@ == rhs.shape@ && lhs.arr@ is Int && rhs.arr@ is Int ==> {
        let l = lhs.arr@->Int_0;
        let rr = rhs.arr@->Int_0;
        if op == ArithOp::Div && has_zero_divisor(l, rr) {
            r is Err && r->Err_0 is DivisionByZero
        } else {
            r is Ok && r->Ok_0.shape@ == lhs.shape@ && r->Ok_0.arr@ == Elements::Int(
                int_zip(op, l, rr),
            )
        }
    }
    &&& lhs.shape@ == rhs.shape@ && lhs.arr@ is Float && rhs.arr@ is Float ==> {
        &&& r is Ok
        &&& r->Ok_0.shape@ == lhs.shape@
        &&& r->Ok_0.arr@ is Float
        &&& r->Ok_0.arr@.len() == min_len(lhs.arr@.len(), rhs.arr@.len())
    }
}

/// The float elements of `out` are `float_op` applied pairwise to those of
/// `lhs` and `rhs`.
pub open spec fn float_results<F: Fn(FloatBits, FloatBits) -> FloatBits>(
    float_op: F,
    lhs: Elements,
    rhs: Elements,
    out: Elements,
) -> bool {
    lhs is Float && rhs is Float && out is Float ==> forall|i: int|
        0 <= i < out.len() ==> float_op.ensures(
            (lhs->Float_0[i], rhs->Float_0[i]),
            #[trigger] out->Float_0[i],
        )
}

impl Array {
    /// Applies `op` pairwise. Integer buffers are computed here; float buffers
    /// use `float_op` on each pair of elements.
    pub fn elementwise<F: Fn(FloatBits, FloatBits) -> FloatBits>(
        &self,
        other: &Array,
        op: ArithOp,
        float_op: F,
    ) -> (r: Result<Array, ArrayError>)
        requires
            forall|x: FloatBits, y: FloatBits| float_op.requires((x, y)),
        ensures
            elementwise_outcome(op, *self, *other, r),
            r is Ok ==> float_results(float_op, self.arr@, other.arr@, r->Ok_0.arr@),
    {
        if !same_shape(&self.shape, &other.shape) {
            let a = copy_from(&self.shape, 0);
            let b = copy_from(&other.shape, 0);
            proof {
                assert(a@ =~= self.shape@);
                assert(b@ =~= other.shape@);
            }
            return Err(ArrayError::ShapeMismatch { lhs: a, rhs: b });
        }
        let arr = match (&self.arr, &other.arr) {
            (NumericalArray::Int(l), NumericalArray::Int(r)) => {
                match int_zip_exec(op, l, r) {
                    Ok(v) => NumericalArray::Int(v),
                    Err(e) => {
                        return Err(e);
                    },
                }
            },
            (NumericalArray::Float(l), NumericalArray::Float(r)) => {
                NumericalArray::Float(float_zip_exec(l, r, &float_op))
            },
            _ => {
                return Err(ArrayError::TypeMismatch);
            },
        };
        let shape = copy_from(&self.shape, 0);
        proof {
            assert(self.shape@.subrange(0, self.shape@.len() as int) =~= self.shape@);
        }
        Ok(Array { shape, arr })
    }

    /// Elementwise sum.
    pub fn add<F: Fn(FloatBits, FloatBits) -> FloatBits>(&self, other: &Array, float_add: F) -> (r:
        Result<Array, ArrayError>)
        requires
            forall|x: FloatBits, y: FloatBits| float_add.requires((x, y)),
        ensures
            elementwise_outcome(ArithOp::Add, *self, *other, r),
            r is Ok ==> float_results(float_add, self.arr@, other.arr@, r->Ok_0.arr@),
    {
        self.elementwise(other, ArithOp::Add, float_add)
    }

    /// Elementwise difference.
    pub fn sub<F: Fn(FloatBits, FloatBits) -> FloatBits>(&self, other: &Array, float_sub: F) -> (r:
        Result<Array, ArrayError>)
        requires
            forall|x: FloatBits, y: FloatBits| float_sub.requires((x, y)),
        ensures
            elementwise_outcome(ArithOp::Sub, *self, *other, r),
            r is Ok ==> float_results(float_sub, self.arr@, other.arr@, r->Ok_0.arr@),
    {
        self.elementwise(other, ArithOp::Sub, float_sub)
    }

    /// Elementwise product.
    pub fn mul<F: Fn(FloatBits, FloatBits) -> FloatBits>(&self, other: &Array, float_mul: F) -> (r:
        Result<Array, ArrayError>)
        requires
            forall|x: FloatBits, y: FloatBits| float_mul.requires((x, y)),
        ensures
            elementwise_outcome(ArithOp::Mul, *self, *other, r),
            r is Ok ==> float_results(float_mul, self.arr@, other.arr@, r->Ok_0.arr@),
    {
        self.elementwise(other, ArithOp::Mul, float_mul)
    }

    /// Elementwise quotient; integer quotients round toward zero.
    pub fn div<F: Fn(FloatBits, FloatBits) -> FloatBits>(&self, other: &Array, float_div: F) -> (r:
        Result<Array, ArrayError>)
        requires
            forall|x: FloatBits, y: FloatBits| float_div.requires((x, y)),
        ensures
            elementwise_outcome(ArithOp::Div, *self, *other, r),
            r is Ok ==> float_results(float_div, self.arr@, other.arr@, r->Ok_0.arr@),
    {
        self.elementwise(other, ArithOp::Div, float_div)
    }
}

/// Adding `b` to `a` and then subtracting `b` from the sum gives back `a`,
/// element by element, for integer arrays of equal shape and length.
pub proof fn lemma_add_then_sub(a: Array, b: Array)
    requires
        a.shape@ == b.shape@,
        a.arr@ is Int,
        b.arr@ is Int,
        a.arr@.len() == b.arr@.len(),
    ensures
        forall|sum: Result<Array, ArrayError>, back: Result<Array, ArrayError>|
            #![trigger elementwise_outcome(ArithOp::Add, a, b, sum), elementwise_outcome(ArithOp::Sub, sum->Ok_0, b, back)]
            elementwise_outcome(ArithOp::Add, a, b, sum) && elementwise_outcome(
                ArithOp::Sub,
                sum->Ok_0,
                b,
                back,
            ) ==> sum is Ok && back is Ok && back->Ok_0.shape@ == a.shape@ && back->Ok_0.arr@
                == a.arr@,
{
    let x = a.arr@->Int_0;
    let y = b.arr@->Int_0;
    let s = int_zip(ArithOp::Add, x, y);
    assert forall|i: int| 0 <= i < x.len() implies #[trigger] int_apply(ArithOp::Sub, s[i], y[i])
        == x[i] by {
        assert(s[i] == i64_specs::wrapping_add(x[i], y[i]));
    }
    assert(int_zip(ArithOp::Sub, s, y) =~= x);
}

} // verus!

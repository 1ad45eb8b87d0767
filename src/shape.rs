use vstd::prelude::*;

verus! {

/// The number of elements that a shape describes.
pub open spec fn product(s: Seq<usize>) -> nat
    decreases s.len(),
{
    if s.len() == 0 {
        1
    } else {
        s[0] as nat * product(s.drop_first())
    }
}

pub proof fn lemma_product_push(s: Seq<usize>, d: usize)
    ensures
        product(s.push(d)) == product(s) * d,
    decreases s.len(),
{
    if s.len() == 0 {
        assert(s.push(d).drop_first() =~= Seq::<usize>::empty());
        assert(product(s.push(d)) == d as nat * product(Seq::<usize>::empty()));
        assert(product(s) == 1);
    } else {
        assert(s.push(d).drop_first() =~= s.drop_first().push(d));
        assert(s.push(d)[0] == s[0]);
        lemma_product_push(s.drop_first(), d);
        let a = s[0] as nat;
        let b = product(s.drop_first());
        assert(a * (b * d) == (a * b) * d) by (nonlinear_arith);
        assert(product(s.push(d)) == a * product(s.drop_first().push(d)));
        assert(product(s) == a * b);
    }
}

/// The chain-divisibility check: dividing `remaining` by each entry of `dims`
/// in turn leaves no remainder at any step. A zero entry divides only zero.
/// Whether anything is left at the end is not checked.
pub open spec fn chain_divides(remaining: nat, dims: Seq<usize>) -> bool
    decreases dims.len(),
{
    if dims.len() == 0 {
        true
    } else if dims[0] == 0 {
        remaining == 0 && chain_divides(0, dims.drop_first())
    } else {
        remaining % (dims[0] as nat) == 0 && chain_divides(remaining / (dims[0] as nat), dims.drop_first())
    }
}

/// A copy of `v` from position `from` on.
pub(crate) fn copy_from(v: &Vec<usize>, from: usize) -> (out: Vec<usize>)
    requires
        from <= v@.len(),
    ensures
        out@ == v@.subrange(from as int, v@.len() as int),
{
    let mut out: Vec<usize> = Vec::new();
    let mut i: usize = from;
    while i < v.len()
        invariant
            from <= i <= v@.len(),
            out@ == v@.subrange(from as int, i as int),
        decreases v@.len() - i,
    {
        out.push(v[i]);
        i += 1;
        proof {
            assert(out@ =~= v@.subrange(from as int, i as int));
        }
    }
    out
}

/// Whether two shapes are equal, axis by axis.
pub(crate) fn same_shape(a: &Vec<usize>, b: &Vec<usize>) -> (r: bool)
    ensures
        r == (a@ == b@),
{
    if a.len() != b.len() {
        return false;
    }
    let mut i: usize = 0;
    while i < a.len()
        invariant
            i <= a@.len() == b@.len(),
            forall|j: int| 0 <= j < i ==> a@[j] == b@[j],
        decreases a@.len() - i,
    {
        if a[i] != b[i] {
            return false;
        }
        i += 1;
    }
    assert(a@ =~= b@);
    true
}

} // verus!

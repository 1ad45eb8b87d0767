use vstd::prelude::*;

use crate::buffer::Elements;
use crate::number::FloatBits;
use crate::shape::{lemma_product_push, product};

verus! {

/// A nested sequence literal: lists inside, integer or float scalars at the
/// leaves.
#[derive(Debug)]
pub enum Literal {
    Int(i64),
    Float(FloatBits),
    List(Vec<Literal>),
}

/// The items of a list; nothing for a scalar.
pub open spec fn children(node: Literal) -> Seq<Literal> {
    match node {
        Literal::List(items) => items@,
        _ => Seq::empty(),
    }
}

/// The nodes one depth below `nodes`, in order.
pub open spec fn next_level(nodes: Seq<Literal>) -> Seq<Literal> {
    nodes.map_values(|n: Literal| children(n)).flatten()
}

/// The nodes at nesting depth `k`, in row-major order.
pub open spec fn level(lit: Literal, k: nat) -> Seq<Literal>
    decreases k,
{
    if k == 0 {
        seq![lit]
    } else {
        next_level(level(lit, (k - 1) as nat))
    }
}

/// The per-depth lengths read along the first item of each depth: the length
/// of the outer list, then of its first item while that is a non-empty list.
pub open spec fn profile(lit: Literal) -> Seq<usize>
    decreases lit,
{
    match lit {
        Literal::List(items) => {
            if items.len() > 0 && items[0] is List {
                seq![items.len()] + profile(items[0])
            } else {
                seq![items.len()]
            }
        },
        _ => Seq::empty(),
    }
}

/// The nodes at the element depth, that is just below the profile.
pub open spec fn leaves(lit: Literal) -> Seq<Literal> {
    level(lit, profile(lit).len())
}

pub open spec fn same_kind(a: Literal, b: Literal) -> bool {
    (a is Int && b is Int) || (a is Float && b is Float)
}

/// The literal is a list; every node above the element depth is a list whose
/// length is its depth's profile entry; the nodes at the element depth are
/// scalars, all integers or all floats.
pub open spec fn well_formed(lit: Literal) -> bool {
    let p = profile(lit);
    &&& lit is List
    &&& forall|k: nat, j: int|
        k < p.len() && 0 <= j < level(lit, k).len() ==> {
            let node = #[trigger] level(lit, k)[j];
            node is List && children(node).len() == p[k as int]
        }
    &&& forall|j: int|
        0 <= j < leaves(lit).len() ==> same_kind(#[trigger] leaves(lit)[j], leaves(lit)[0])
}

/// The buffer contents of a sequence of scalars: integers when the first one
/// is an integer, else floats (also when there are none).
pub open spec fn leaf_elements(leaves: Seq<Literal>) -> Elements {
    if leaves.len() > 0 && leaves[0] is Int {
        Elements::Int(leaves.map_values(|l: Literal| l->Int_0))
    } else {
        Elements::Float(leaves.map_values(|l: Literal| l->Float_0))
    }
}

pub open spec fn derefs(s: Seq<&Literal>) -> Seq<Literal> {
    s.map_values(|r: &Literal| *r)
}

} // verus!

verus! {

/// Flattening `n` sequences of length `m` each gives `n * m` items.
proof fn lemma_flatten_uniform_len(ss: Seq<Seq<Literal>>, m: nat)
    requires
        forall|i: int| 0 <= i < ss.len() ==> (#[trigger] ss[i]).len() == m,
    ensures
        ss.flatten().len() == ss.len() * m,
    decreases ss.len(),
{
    if ss.len() > 0 {
        assert forall|i: int| 0 <= i < ss.drop_first().len() implies (#[trigger] ss.drop_first()[i]).len()
            == m by {
            assert(ss.drop_first()[i] == ss[i + 1]);
        }
        lemma_flatten_uniform_len(ss.drop_first(), m);
        assert(ss.len() * m == m + (ss.len() - 1) * m) by (nonlinear_arith);
    }
}

/// Above the element depth of a well-formed literal, depth `k` holds the
/// product of the first `k` profile entries many nodes.
proof fn lemma_level_len(lit: Literal, k: nat)
    requires
        well_formed(lit),
        k <= profile(lit).len(),
    ensures
        level(lit, k).len() == product(profile(lit).take(k as int)),
    decreases k,
{
    let p = profile(lit);
    if k == 0 {
        assert(p.take(0) =~= Seq::<usize>::empty());
    } else {
        let k1 = (k - 1) as nat;
        lemma_level_len(lit, k1);
        let prev = level(lit, k1);
        let ss = prev.map_values(|n: Literal| children(n));
        assert forall|i: int| 0 <= i < ss.len() implies (#[trigger] ss[i]).len() == p[k1 as int] by {
            assert(ss[i] == children(level(lit, k1)[i]));
        }
        lemma_flatten_uniform_len(ss, p[k1 as int] as nat);
        assert(p.take(k as int) =~= p.take(k1 as int).push(p[k1 as int]));
        lemma_product_push(p.take(k1 as int), p[k1 as int]);
    }
}

/// A well-formed literal holds as many scalars as the product of its profile.
pub proof fn lemma_extract_counts(lit: Literal)
    requires
        well_formed(lit),
    ensures
        leaves(lit).len() == product(profile(lit)),
        leaf_elements(leaves(lit)).len() == product(profile(lit)),
{
    let p = profile(lit);
    lemma_level_len(lit, p.len());
    assert(p.take(p.len() as int) =~= p);
}

} // verus!

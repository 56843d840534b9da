//! Mixed-radix index arithmetic shared by the brick geometry and the slice
//! assembly code.
//!
//! A point in an N-dimensional box is mapped to a linear index in row-major
//! order with the **last dimension varying fastest**; this ordering is part of
//! the on-disk brick layout and must not change.

use vstd::arithmetic::div_mod::{
    lemma_div_is_ordered, lemma_fundamental_div_mod, lemma_fundamental_div_mod_converse,
};
use vstd::prelude::*;

verus! {

/// The integers of a sequence of machine words.
pub open spec fn ints_of(s: Seq<usize>) -> Seq<int> {
    Seq::new(s.len(), |i: int| s[i] as int)
}

/// Product of all extents of a box.
pub open spec fn seq_product(dims: Seq<int>) -> int
    decreases dims.len(),
{
    if dims.len() == 0 {
        1
    } else {
        seq_product(dims.drop_last()) * dims.last()
    }
}

/// Every extent is at least one.
pub open spec fn all_positive(dims: Seq<int>) -> bool {
    forall|i: int| 0 <= i < dims.len() ==> dims[i] >= 1
}

/// The point `c` lies in the box with extents `dims`.
pub open spec fn in_box(c: Seq<int>, dims: Seq<int>) -> bool {
    c.len() == dims.len() && forall|i: int| 0 <= i < c.len() ==> 0 <= #[trigger] c[i] < dims[i]
}

/// Row-major linear index of `c` in the box `dims`, last dimension fastest.
pub open spec fn linearize(c: Seq<int>, dims: Seq<int>) -> int
    decreases c.len(),
{
    if c.len() == 0 {
        0
    } else {
        linearize(c.drop_last(), dims.drop_last()) * dims.last() + c.last()
    }
}

/// Inverse of [`linearize`]: the point of the box `dims` with linear index
/// `idx`.
pub open spec fn delinearize(idx: int, dims: Seq<int>) -> Seq<int>
    decreases dims.len(),
{
    if dims.len() == 0 {
        Seq::empty()
    } else {
        delinearize(idx / dims.last(), dims.drop_last()).push(idx % dims.last())
    }
}

pub proof fn lemma_product_positive(dims: Seq<int>)
    requires
        all_positive(dims),
    ensures
        seq_product(dims) >= 1,
    decreases dims.len(),
{
    if dims.len() > 0 {
        assert(all_positive(dims.drop_last()));
        lemma_product_positive(dims.drop_last());
        assert(seq_product(dims.drop_last()) * dims.last() >= 1) by (nonlinear_arith)
            requires
                seq_product(dims.drop_last()) >= 1,
                dims.last() >= 1,
        ;
    }
}

/// The product over a prefix never exceeds the product over the whole box.
pub proof fn lemma_product_prefix_le(dims: Seq<int>, n: int)
    requires
        all_positive(dims),
        0 <= n <= dims.len(),
    ensures
        seq_product(dims.subrange(0, n)) <= seq_product(dims),
    decreases dims.len(),
{
    if n == dims.len() {
        assert(dims.subrange(0, n) =~= dims);
    } else {
        assert(all_positive(dims.drop_last()));
        assert(dims.drop_last().subrange(0, n) =~= dims.subrange(0, n));
        lemma_product_prefix_le(dims.drop_last(), n);
        lemma_product_positive(dims.drop_last());
        assert(seq_product(dims.drop_last()) * dims.last() >= seq_product(dims.drop_last()))
            by (nonlinear_arith)
            requires
                seq_product(dims.drop_last()) >= 1,
                dims.last() >= 1,
        ;
    }
}

/// If each extent of `a` is at most the matching extent of `b`, the products
/// are ordered the same way.
pub proof fn lemma_product_pointwise_le(a: Seq<int>, b: Seq<int>)
    requires
        all_positive(a),
        all_positive(b),
        a.len() == b.len(),
        forall|i: int| 0 <= i < a.len() ==> a[i] <= b[i],
    ensures
        seq_product(a) <= seq_product(b),
    decreases a.len(),
{
    if a.len() > 0 {
        assert(all_positive(a.drop_last()));
        assert(all_positive(b.drop_last()));
        assert(forall|i: int|
            0 <= i < a.drop_last().len() ==> a.drop_last()[i] <= b.drop_last()[i]);
        lemma_product_pointwise_le(a.drop_last(), b.drop_last());
        lemma_product_positive(a.drop_last());
        assert(seq_product(a.drop_last()) * a.last() <= seq_product(b.drop_last()) * b.last())
            by (nonlinear_arith)
            requires
                1 <= seq_product(a.drop_last()) <= seq_product(b.drop_last()),
                1 <= a.last() <= b.last(),
        ;
    }
}

/// Trailing extents of one do not change the product.
pub proof fn lemma_product_trailing_ones(dims: Seq<int>, n: int)
    requires
        0 <= n <= dims.len(),
        forall|i: int| n <= i < dims.len() ==> #[trigger] dims[i] == 1,
    ensures
        seq_product(dims) == seq_product(dims.subrange(0, n)),
    decreases dims.len(),
{
    if n == dims.len() {
        assert(dims.subrange(0, n) =~= dims);
    } else {
        assert(dims.last() == 1);
        assert(forall|i: int|
            n <= i < dims.drop_last().len() ==> #[trigger] dims.drop_last()[i] == 1);
        lemma_product_trailing_ones(dims.drop_last(), n);
        assert(dims.drop_last().subrange(0, n) =~= dims.subrange(0, n));
    }
}

/// A linear index is non-negative and below the box's volume.
pub proof fn lemma_linearize_bounds(c: Seq<int>, dims: Seq<int>)
    requires
        all_positive(dims),
        in_box(c, dims),
    ensures
        0 <= linearize(c, dims) < seq_product(dims),
    decreases c.len(),
{
    if c.len() > 0 {
        assert(all_positive(dims.drop_last()));
        assert(in_box(c.drop_last(), dims.drop_last()));
        lemma_linearize_bounds(c.drop_last(), dims.drop_last());
        let l = linearize(c.drop_last(), dims.drop_last());
        let p = seq_product(dims.drop_last());
        assert(0 <= l * dims.last() + c.last() < p * dims.last()) by (nonlinear_arith)
            requires
                0 <= l < p,
                0 <= c.last() < dims.last(),
        ;
    }
}

/// Delinearizing a point's linear index recovers the point.
pub proof fn lemma_delinearize_linearize(c: Seq<int>, dims: Seq<int>)
    requires
        all_positive(dims),
        in_box(c, dims),
    ensures
        delinearize(linearize(c, dims), dims) == c,
    decreases c.len(),
{
    if c.len() == 0 {
        assert(delinearize(0, dims) =~= c);
    } else {
        assert(all_positive(dims.drop_last()));
        assert(in_box(c.drop_last(), dims.drop_last()));
        lemma_delinearize_linearize(c.drop_last(), dims.drop_last());
        let l = linearize(c.drop_last(), dims.drop_last());
        let d = dims.last();
        lemma_fundamental_div_mod_converse(l * d + c.last(), d, l, c.last());
        assert((l * d + c.last()) / d == l);
        assert((l * d + c.last()) % d == c.last());
        assert(delinearize(linearize(c, dims), dims) =~= c);
    }
}

/// Every linear index below the box's volume delinearizes to a point of the
/// box, and linearizing it gives the index back.
pub proof fn lemma_linearize_delinearize(idx: int, dims: Seq<int>)
    requires
        all_positive(dims),
        0 <= idx < seq_product(dims),
    ensures
        in_box(delinearize(idx, dims), dims),
        linearize(delinearize(idx, dims), dims) == idx,
    decreases dims.len(),
{
    if dims.len() == 0 {
        assert(delinearize(idx, dims) =~= Seq::<int>::empty());
    } else {
        let d = dims.last();
        let p = seq_product(dims.drop_last());
        let q = idx / d;
        let r = idx % d;
        lemma_fundamental_div_mod(idx, d);
        vstd::arithmetic::div_mod::lemma_mod_bound(idx, d);
        // q < p, because idx <= p * d - 1
        lemma_div_is_ordered(idx, p * d - 1, d);
        assert((p - 1) * d + (d - 1) == p * d - 1) by (nonlinear_arith);
        lemma_fundamental_div_mod_converse(p * d - 1, d, p - 1, d - 1);
        assert((p * d - 1) / d == p - 1);
        assert(all_positive(dims.drop_last()));
        lemma_linearize_delinearize(q, dims.drop_last());
        let head = delinearize(q, dims.drop_last());
        assert(delinearize(idx, dims) == head.push(r));
        assert(head.push(r).drop_last() =~= head);
        assert(in_box(head.push(r), dims)) by {
            assert(forall|i: int| 0 <= i < head.len() ==> head.push(r)[i] == head[i]);
        }
        assert(linearize(head.push(r), dims) == linearize(head, dims.drop_last()) * d + r);
    }
}

/// Computes the product of the extents.
pub fn product_of(dims: &Vec<usize>) -> (r: usize)
    requires
        all_positive(ints_of(dims@)),
        seq_product(ints_of(dims@)) <= usize::MAX,
    ensures
        r == seq_product(ints_of(dims@)),
{
    let ghost gdims = ints_of(dims@);
    let mut acc: usize = 1;
    let mut i: usize = 0;
    proof {
        assert(gdims.subrange(0, 0) =~= Seq::<int>::empty());
    }
    while i < dims.len()
        invariant
            0 <= i <= dims.len(),
            gdims == ints_of(dims@),
            all_positive(gdims),
            seq_product(gdims) <= usize::MAX,
            acc == seq_product(gdims.subrange(0, i as int)),
        decreases dims.len() - i,
    {
        proof {
            let pre = gdims.subrange(0, i as int);
            let cur = gdims.subrange(0, i + 1);
            assert(cur.drop_last() =~= pre);
            assert(all_positive(cur));
            lemma_product_prefix_le(gdims, i + 1);
            lemma_product_positive(pre);
            assert(acc * gdims[i as int] <= usize::MAX) by (nonlinear_arith)
                requires
                    acc == seq_product(pre),
                    seq_product(cur) == seq_product(pre) * gdims[i as int],
                    seq_product(cur) <= usize::MAX,
                    acc >= 1,
                    gdims[i as int] >= 1,
            ;
        }
        acc = acc * dims[i];
        i = i + 1;
    }
    proof {
        assert(gdims.subrange(0, dims@.len() as int) =~= gdims);
    }
    acc
}

/// Computes the row-major linear index of `c` in the box `dims`.
pub fn lin_index(c: &Vec<usize>, dims: &Vec<usize>) -> (r: usize)
    requires
        all_positive(ints_of(dims@)),
        in_box(ints_of(c@), ints_of(dims@)),
        seq_product(ints_of(dims@)) <= usize::MAX,
    ensures
        r == linearize(ints_of(c@), ints_of(dims@)),
{
    let ghost gdims = ints_of(dims@);
    let ghost gc = ints_of(c@);
    let mut acc: usize = 0;
    let mut i: usize = 0;
    proof {
        assert(gc.subrange(0, 0) =~= Seq::<int>::empty());
        assert(gdims.subrange(0, 0) =~= Seq::<int>::empty());
    }
    while i < c.len()
        invariant
            0 <= i <= c.len(),
            gdims == ints_of(dims@),
            gc == ints_of(c@),
            all_positive(gdims),
            in_box(gc, gdims),
            seq_product(gdims) <= usize::MAX,
            acc == linearize(gc.subrange(0, i as int), gdims.subrange(0, i as int)),
        decreases c.len() - i,
    {
        proof {
            let cpre = gc.subrange(0, i as int);
            let dpre = gdims.subrange(0, i as int);
            let ccur = gc.subrange(0, i + 1);
            let dcur = gdims.subrange(0, i + 1);
            assert(ccur.drop_last() =~= cpre);
            assert(dcur.drop_last() =~= dpre);
            assert(all_positive(dcur));
            assert(in_box(ccur, dcur));
            lemma_linearize_bounds(ccur, dcur);
            lemma_product_prefix_le(gdims, i + 1);
            assert(linearize(ccur, dcur) == acc * gdims[i as int] + gc[i as int]);
            assert(acc * gdims[i as int] + gc[i as int] <= usize::MAX);
            assert(acc * gdims[i as int] >= 0) by (nonlinear_arith)
                requires
                    acc >= 0,
                    gdims[i as int] >= 1,
            ;
        }
        acc = acc * dims[i] + c[i];
        i = i + 1;
    }
    proof {
        assert(gc.subrange(0, c@.len() as int) =~= gc);
        assert(gdims.subrange(0, c@.len() as int) =~= gdims);
    }
    acc
}

/// Computes the point of the box `dims` whose row-major linear index is
/// `idx`.
pub fn delin_index(idx: usize, dims: &Vec<usize>) -> (r: Vec<usize>)
    requires
        all_positive(ints_of(dims@)),
        idx < seq_product(ints_of(dims@)),
    ensures
        ints_of(r@) == delinearize(idx as int, ints_of(dims@)),
        r@.len() == dims@.len(),
{
    let ghost gdims = ints_of(dims@);
    let n = dims.len();
    let mut coords: Vec<usize> = Vec::new();
    let mut j: usize = 0;
    while j < n
        invariant
            coords@.len() == j,
            0 <= j <= n,
            forall|t: int| 0 <= t < j ==> coords@[t] == 0,
        decreases n - j,
    {
        coords.push(0);
        j = j + 1;
    }
    let mut rem: usize = idx;
    let mut i: usize = n;
    proof {
        assert(gdims.subrange(0, n as int) =~= gdims);
        assert(ints_of(coords@.subrange(n as int, n as int)) =~= Seq::<int>::empty());
        assert(delinearize(idx as int, gdims) =~= delinearize(
            rem as int,
            gdims.subrange(0, n as int),
        ) + ints_of(coords@.subrange(n as int, n as int)));
    }
    while i > 0
        invariant
            0 <= i <= n,
            n == dims@.len(),
            coords@.len() == n,
            gdims == ints_of(dims@),
            all_positive(gdims),
            delinearize(idx as int, gdims) =~= delinearize(rem as int, gdims.subrange(0, i as int))
                + ints_of(coords@.subrange(i as int, n as int)),
        decreases i,
    {
        let d = dims[i - 1];
        let ghost old_coords = coords@;
        let ghost old_rem = rem as int;
        coords.set(i - 1, rem % d);
        rem = rem / d;
        i = i - 1;
        proof {
            let dpre = gdims.subrange(0, i + 1);
            assert(dpre.drop_last() =~= gdims.subrange(0, i as int));
            assert(dpre.last() == d as int);
            assert(delinearize(old_rem, dpre) == delinearize(old_rem / (d as int), gdims.subrange(0, i as int)).push(old_rem % (d as int)));
            assert(ints_of(coords@.subrange(i as int, n as int)) =~= seq![(old_rem % (d as int))]
                + ints_of(old_coords.subrange(i + 1, n as int)));
            assert(delinearize(old_rem / (d as int), gdims.subrange(0, i as int)).push(old_rem % (d as int))
                + ints_of(old_coords.subrange(i + 1, n as int)) =~= delinearize(
                old_rem / (d as int),
                gdims.subrange(0, i as int),
            ) + ints_of(coords@.subrange(i as int, n as int)));
        }
    }
    proof {
        assert(gdims.subrange(0, 0) =~= Seq::<int>::empty());
        assert(delinearize(rem as int, gdims.subrange(0, 0)) =~= Seq::<int>::empty());
        assert(coords@.subrange(0, n as int) =~= coords@);
        assert(ints_of(coords@) =~= delinearize(idx as int, gdims));
    }
    coords
}

} // verus!

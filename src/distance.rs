use vstd::prelude::*;

verus! {

/// Depth of divergence of two nested-category rows: scanning both rows from
/// their finest (last) level towards their coarsest, the number of positions
/// that differ before the first position where they agree.
pub open spec fn divergence(x: Seq<i32>, y: Seq<i32>) -> nat
    decreases x.len(),
{
    if x.len() == 0 || y.len() == 0 || x.last() == y.last() {
        0
    } else {
        1 + divergence(x.drop_last(), y.drop_last())
    }
}

/// The depth of divergence never exceeds the length of either row.
pub proof fn lemma_divergence_bounded(x: Seq<i32>, y: Seq<i32>)
    ensures
        divergence(x, y) <= x.len(),
        divergence(x, y) <= y.len(),
    decreases x.len(),
{
    if x.len() > 0 && y.len() > 0 && x.last() != y.last() {
        lemma_divergence_bounded(x.drop_last(), y.drop_last());
    }
}

/// The depth of divergence does not depend on which row comes first.
pub proof fn lemma_divergence_symmetric(x: Seq<i32>, y: Seq<i32>)
    ensures
        divergence(x, y) == divergence(y, x),
    decreases x.len(),
{
    if x.len() > 0 && y.len() > 0 && x.last() != y.last() {
        lemma_divergence_symmetric(x.drop_last(), y.drop_last());
    }
}

/// A row is at distance zero from itself.
pub proof fn lemma_divergence_self(x: Seq<i32>)
    ensures
        divergence(x, x) == 0,
{
}

/// Hierarchical distance: how many levels, counted from the finest, two
/// rows differ at before they meet in a common category.
pub fn hierarchical(x: &[i32], y: &[i32]) -> (r: i32)
    requires
        x@.len() <= i32::MAX || y@.len() <= i32::MAX,
    ensures
        r == divergence(x@, y@),
{
    let lx = x.len();
    let ly = y.len();
    let mut k: usize = 0;
    proof {
        assert(x@.subrange(0, lx as int) =~= x@);
        assert(y@.subrange(0, ly as int) =~= y@);
    }
    while k < lx && k < ly && x[lx - 1 - k] != y[ly - 1 - k]
        invariant
            lx == x@.len(),
            ly == y@.len(),
            k <= lx,
            k <= ly,
            divergence(x@, y@) == k + divergence(
                x@.subrange(0, lx - k),
                y@.subrange(0, ly - k),
            ),
        decreases lx - k,
    {
        let ghost xs = x@.subrange(0, lx - k);
        let ghost ys = y@.subrange(0, ly - k);
        proof {
            assert(xs.drop_last() =~= x@.subrange(0, lx - k - 1));
            assert(ys.drop_last() =~= y@.subrange(0, ly - k - 1));
        }
        k += 1;
    }
    proof {
        let xs = x@.subrange(0, lx - k);
        let ys = y@.subrange(0, ly - k);
        assert(divergence(xs, ys) == 0);
        lemma_divergence_bounded(x@, y@);
    }
    k as i32
}

} // verus!

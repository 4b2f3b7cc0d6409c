//! Conversion between a position in a multi-dimensional grid and its
//! row-major linear index.

use ndarray::Array1;
use vstd::arithmetic::div_mod::{
    lemma_fundamental_div_mod,
    lemma_fundamental_div_mod_converse_div,
    lemma_fundamental_div_mod_converse_mod,
};
use vstd::prelude::*;

verus! {

/// The extents of a grid, one per dimension, kept in a one-dimensional
/// `ndarray` array.
#[verifier::external_body]
pub struct Extents {
    items: Array1<usize>,
}

/// The extents that the array holds, first dimension first.
pub uninterp spec fn extents_items(e: Extents) -> Seq<usize>;

/// `ArrayBase::zeros` for one dimension: `n` extents, all zero. The outside
/// function panics where the length overflows `isize`, so such lengths are
/// left out.
#[verifier::external_body]
fn extents_zeros(n: usize) -> (e: Extents)
    requires
        n <= isize::MAX,
    ensures
        extents_items(e) == Seq::new(n as nat, |i: int| 0usize),
{
    Extents { items: Array1::zeros(n) }
}

/// `ArrayBase::from_vec`: an array with the elements of `v` in the same
/// order. The outside function panics only for element types of size zero.
#[verifier::external_body]
fn extents_from_slice(v: &[usize]) -> (e: Extents)
    ensures
        extents_items(e) == v@,
{
    Extents { items: Array1::from_vec(v.to_vec()) }
}

/// `ArrayBase::len`: the number of elements.
#[verifier::external_body]
fn extents_len(e: &Extents) -> (n: usize)
    ensures
        n == extents_items(*e).len(),
{
    e.items.len()
}

/// Indexing a one-dimensional array: the element at position `i`, which has
/// to exist.
#[verifier::external_body]
fn extents_get(e: &Extents, i: usize) -> (x: usize)
    requires
        i < extents_items(*e).len(),
    ensures
        x == extents_items(*e)[i as int],
{
    e.items[i]
}

/// `ArrayBase::to_vec`: a vector with the elements in the same order.
#[verifier::external_body]
fn extents_to_vec(e: &Extents) -> (v: Vec<usize>)
    ensures
        v@ == extents_items(*e),
{
    e.items.to_vec()
}

/// The number of cells of a grid with the given extents.
pub open spec fn spec_product(bounds: Seq<usize>) -> int
    decreases bounds.len(),
{
    if bounds.len() == 0 {
        1
    } else {
        spec_product(bounds.drop_last()) * bounds.last()
    }
}

/// Whether `coords` names a cell of the grid: one coordinate per dimension,
/// each below the extent of its dimension.
pub open spec fn spec_in_bounds(coords: Seq<usize>, bounds: Seq<usize>) -> bool {
    &&& coords.len() == bounds.len()
    &&& forall|k: int| 0 <= k < coords.len() ==> coords[k] < bounds[k]
}

/// The row-major linear index of the cell at `coords`: the last coordinate
/// varies fastest.
pub open spec fn spec_linear(coords: Seq<usize>, bounds: Seq<usize>) -> int
    decreases coords.len(),
{
    if coords.len() == 0 {
        0
    } else {
        spec_linear(coords.drop_last(), bounds.drop_last()) * bounds.last() + coords.last()
    }
}

/// The coordinates of the cell with linear index `idx`: every dimension but
/// the first takes the remainder by its extent, the first takes what is left.
pub open spec fn spec_coords(idx: usize, bounds: Seq<usize>) -> Seq<usize>
    decreases bounds.len(),
{
    if bounds.len() == 0 {
        Seq::empty()
    } else if bounds.len() == 1 {
        seq![idx]
    } else {
        spec_coords((idx / bounds.last()) as usize, bounds.drop_last()).push(
            (idx % bounds.last()) as usize,
        )
    }
}

/// Whether every dimension after the first has at least one cell, so that a
/// linear index can be taken apart.
pub open spec fn spec_divisible(bounds: Seq<usize>) -> bool {
    forall|k: int| 1 <= k < bounds.len() ==> bounds[k] > 0
}

/// `spec_coords` yields one coordinate per dimension.
pub proof fn lemma_coords_len(idx: usize, bounds: Seq<usize>)
    ensures
        spec_coords(idx, bounds).len() == bounds.len(),
    decreases bounds.len(),
{
    if bounds.len() > 1 {
        lemma_coords_len((idx / bounds.last()) as usize, bounds.drop_last());
    }
}

/// The linear index of a cell of the grid is below the number of cells.
pub proof fn lemma_linear_bound(coords: Seq<usize>, bounds: Seq<usize>)
    requires
        spec_in_bounds(coords, bounds),
    ensures
        0 <= spec_linear(coords, bounds),
        coords.len() > 0 ==> spec_linear(coords, bounds) < spec_product(bounds),
        0 < spec_product(bounds),
    decreases coords.len(),
{
    if coords.len() > 0 {
        let c = coords.drop_last();
        let b = bounds.drop_last();
        lemma_linear_bound(c, b);
        let lin = spec_linear(c, b);
        let prod = spec_product(b);
        let last = bounds.last() as int;
        let x = coords.last() as int;
        assert(x < last);
        if c.len() == 0 {
            assert(lin == 0);
        }
        assert(lin * last + x < prod * last && 0 <= lin * last && 0 < prod * last)
            by (nonlinear_arith)
            requires
                0 <= lin,
                lin < prod || (lin == 0 && prod == 1),
                0 <= x < last,
                0 < prod,
        ;
    }
}

/// Taking a cell's linear index apart gives the cell back: for every cell
/// `coords` of a grid with at least one dimension whose linear index fits the
/// machine word, `spec_coords(spec_linear(coords, bounds), bounds)` is
/// `coords`.
pub proof fn lemma_linear_then_coords(coords: Seq<usize>, bounds: Seq<usize>)
    requires
        spec_in_bounds(coords, bounds),
        coords.len() > 0,
        spec_linear(coords, bounds) <= usize::MAX,
    ensures
        spec_coords(spec_linear(coords, bounds) as usize, bounds) == coords,
    decreases coords.len(),
{
    let lin = spec_linear(coords, bounds);
    let c = coords.drop_last();
    let b = bounds.drop_last();
    assert(spec_linear(c, b) * bounds.last() + coords.last() == lin);
    if coords.len() == 1 {
        assert(c.len() == 0);
        assert(spec_linear(c, b) == 0);
        assert(spec_linear(c, b) * bounds.last() == 0) by (nonlinear_arith)
            requires
                spec_linear(c, b) == 0,
        ;
        assert(lin == coords.last());
        assert(spec_coords(lin as usize, bounds) =~= coords);
    } else {
        lemma_linear_bound(c, b);
        let q = spec_linear(c, b);
        let d = bounds.last() as int;
        let r = coords.last() as int;
        assert(q <= lin) by (nonlinear_arith)
            requires
                lin == q * d + r,
                0 <= q,
                0 <= r < d,
        ;
        lemma_linear_then_coords(c, b);
        lemma_fundamental_div_mod_converse_div(lin, d, q, r);
        lemma_fundamental_div_mod_converse_mod(lin, d, q, r);
        assert(spec_coords(lin as usize, bounds) == spec_coords(q as usize, b).push(r as usize));
        assert(c.push(coords.last()) =~= coords);
    }
}

/// Putting the coordinates of a linear index together gives the index back:
/// where every dimension after the first has a cell,
/// `spec_linear(spec_coords(idx, bounds), bounds)` is `idx`. The coordinates
/// after the first are below their extents, and so is the first if `idx` is
/// below the number of cells.
pub proof fn lemma_coords_then_linear(idx: usize, bounds: Seq<usize>)
    requires
        bounds.len() > 0,
        spec_divisible(bounds),
    ensures
        spec_coords(idx, bounds).len() == bounds.len(),
        forall|k: int| 1 <= k < bounds.len() ==> #[trigger] spec_coords(idx, bounds)[k] < bounds[k],
        idx < spec_product(bounds) ==> spec_in_bounds(spec_coords(idx, bounds), bounds),
        spec_linear(spec_coords(idx, bounds), bounds) == idx,
    decreases bounds.len(),
{
    lemma_coords_len(idx, bounds);
    let cs = spec_coords(idx, bounds);
    if bounds.len() == 1 {
        assert(bounds.drop_last().len() == 0);
        assert(spec_product(bounds.drop_last()) == 1);
        assert(spec_product(bounds) == bounds[0] as int) by (nonlinear_arith)
            requires
                spec_product(bounds) == 1 * (bounds[0] as int),
        ;
        assert(cs.drop_last().len() == 0);
        assert(spec_linear(cs.drop_last(), bounds.drop_last()) == 0);
        assert(spec_linear(cs, bounds) == 0 * (bounds[0] as int) + idx);
        assert(0 * (bounds[0] as int) == 0);
    } else {
        let d = bounds.last() as int;
        let b = bounds.drop_last();
        let q = idx as int / d;
        let r = idx as int % d;
        assert(d > 0);
        lemma_fundamental_div_mod(idx as int, d);
        assert(0 <= q <= idx) by (nonlinear_arith)
            requires
                0 <= idx,
                0 < d,
                q == idx as int / d,
        ;
        assert(0 <= r < d) by (nonlinear_arith)
            requires
                0 < d,
                r == idx as int % d,
        ;
        assert(spec_divisible(b));
        lemma_coords_then_linear(q as usize, b);
        assert(cs == spec_coords(q as usize, b).push(r as usize));
        assert(cs.drop_last() =~= spec_coords(q as usize, b));
        assert(cs.last() == r);
        assert(spec_linear(cs, bounds) == q * d + r);
        assert(q * d == d * q) by (nonlinear_arith);
        assert forall|k: int| 1 <= k < bounds.len() implies #[trigger] cs[k] < bounds[k] by {
            if k < b.len() {
                assert(cs[k] == spec_coords(q as usize, b)[k]);
                assert(b[k] == bounds[k]);
            }
        }
        if idx < spec_product(bounds) {
            assert(q < spec_product(b)) by (nonlinear_arith)
                requires
                    idx < spec_product(b) * d,
                    idx == d * q + r,
                    0 <= r,
                    0 < d,
            ;
            assert(cs[0] == spec_coords(q as usize, b)[0]);
            assert(b[0] == bounds[0]);
            assert forall|k: int| 0 <= k < cs.len() implies cs[k] < bounds[k] by {
                if k == 0 {
                } else {
                    assert(cs[k] < bounds[k]);
                }
            }
        }
    }
}

/// A linear index together with the extents of the grid it counts through.
pub struct Index {
    idx: usize,
    bounds: Extents,
}

impl Index {
    pub closed spec fn spec_idx(&self) -> usize {
        self.idx
    }

    pub closed spec fn spec_bounds(&self) -> Seq<usize> {
        extents_items(self.bounds)
    }

    /// Index zero of a grid with `dim` dimensions, all of extent zero.
    pub fn new(dim: usize) -> (r: Self)
        requires
            dim <= isize::MAX,
        ensures
            r.spec_idx() == 0,
            r.spec_bounds() == Seq::new(dim as nat, |i: int| 0usize),
    {
        Index { idx: 0, bounds: extents_zeros(dim) }
    }

    /// The index of the cell at `indices` in a grid with extents `bounds`.
    pub fn from_3d(indices: &[usize], bounds: &[usize]) -> (r: Self)
        requires
            spec_in_bounds(indices@, bounds@),
            spec_product(bounds@) <= usize::MAX,
        ensures
            r.spec_idx() == spec_linear(indices@, bounds@),
            r.spec_bounds() == bounds@,
    {
        let idx: usize = linear_index(indices, bounds);
        Index { idx, bounds: extents_from_slice(bounds) }
    }

    /// The linear index `idx` of a grid with extents `bounds`.
    pub fn from_1d(idx: usize, bounds: &[usize]) -> (r: Self)
        requires
            idx < spec_product(bounds@),
        ensures
            r.spec_idx() == idx,
            r.spec_bounds() == bounds@,
    {
        Index { idx, bounds: extents_from_slice(bounds) }
    }

    /// The coordinates of the cell that the index names.
    pub fn to_3d(&self) -> (r: Vec<usize>)
        requires
            self.spec_bounds().len() > 0,
            spec_divisible(self.spec_bounds()),
        ensures
            r@ == spec_coords(self.spec_idx(), self.spec_bounds()),
    {
        let len: usize = extents_len(&self.bounds);
        let ghost b = self.spec_bounds();
        let mut inds: Vec<usize> = Vec::new();
        inds.resize(len, 0);
        let mut tmp: usize = self.idx;
        let mut p: usize = len;
        proof {
            lemma_coords_len(self.idx, b);
            assert(b.take(len as int) =~= b);
        }
        while p > 1
            invariant
                1 <= p <= len,
                len == b.len(),
                b == extents_items(self.bounds),
                spec_divisible(b),
                inds@.len() == len,
                spec_coords(self.idx, b).len() == len,
                forall|k: int| p <= k < len ==> inds@[k] == spec_coords(self.idx, b)[k],
                spec_coords(tmp, b.take(p as int)).len() == p,
                forall|k: int|
                    0 <= k < p ==> spec_coords(self.idx, b)[k] == spec_coords(
                        tmp,
                        b.take(p as int),
                    )[k],
            decreases p,
        {
            let n: usize = p - 1;
            let d: usize = extents_get(&self.bounds, n);
            proof {
                let bp = b.take(p as int);
                assert(bp.last() == d);
                assert(bp.drop_last() =~= b.take(n as int));
                lemma_coords_len((tmp / d) as usize, b.take(n as int));
            }
            inds.set(n, tmp % d);
            tmp = tmp / d;
            p = n;
        }
        proof {
            assert(b.take(1).len() == 1);
            assert(spec_coords(tmp, b.take(1)) =~= seq![tmp]);
        }
        inds.set(0, tmp);
        assert(inds@ =~= spec_coords(self.idx, b));
        inds
    }

    pub fn idx(&self) -> (r: usize)
        ensures
            r == self.spec_idx(),
    {
        self.idx
    }

    /// The extents of the grid, first dimension first.
    pub fn bounds(&self) -> (r: Vec<usize>)
        ensures
            r@ == self.spec_bounds(),
    {
        extents_to_vec(&self.bounds)
    }

    /// Replaces the extents by `bounds`, under which the index has to name a
    /// cell.
    pub fn set_bounds(&mut self, bounds: &[usize])
        requires
            old(self).spec_idx() < spec_product(bounds@),
        ensures
            final(self).spec_idx() == old(self).spec_idx(),
            final(self).spec_bounds() == bounds@,
    {
        self.bounds = extents_from_slice(bounds);
    }

    /// Replaces the linear index by `idx`, which has to name a cell.
    pub fn set_idx(&mut self, idx: usize)
        requires
            idx < spec_product(old(self).spec_bounds()),
        ensures
            final(self).spec_idx() == idx,
            final(self).spec_bounds() == old(self).spec_bounds(),
    {
        self.idx = idx;
    }

    /// A cell's coordinates survive the trip through its linear index: for
    /// every cell `coords` of a non-empty grid `bounds` that fits the machine
    /// word, an index with the linear index and the extents that `from_3d`
    /// gives has the coordinates `coords`, which is what `to_3d` returns.
    pub proof fn lemma_round_trip(self, coords: Seq<usize>, bounds: Seq<usize>)
        requires
            spec_in_bounds(coords, bounds),
            coords.len() > 0,
            spec_product(bounds) <= usize::MAX,
            self.spec_idx() == spec_linear(coords, bounds),
            self.spec_bounds() == bounds,
        ensures
            spec_divisible(self.spec_bounds()),
            spec_coords(self.spec_idx(), self.spec_bounds()) == coords,
    {
        lemma_linear_bound(coords, bounds);
        lemma_linear_then_coords(coords, bounds);
    }
}

/// The row-major linear index of the cell at `coords` in a grid with extents
/// `bounds`.
pub fn linear_index(coords: &[usize], bounds: &[usize]) -> (idx: usize)
    requires
        spec_in_bounds(coords@, bounds@),
        spec_product(bounds@) <= usize::MAX,
    ensures
        idx == spec_linear(coords@, bounds@),
{
    let len: usize = coords.len();
    let mut acc: usize = 0;
    let mut i: usize = 0;
    while i < len
        invariant
            i <= len,
            len == coords@.len(),
            spec_in_bounds(coords@, bounds@),
            spec_product(bounds@) <= usize::MAX,
            acc == spec_linear(coords@.take(i as int), bounds@.take(i as int)),
        decreases len - i,
    {
        proof {
            let c = coords@.take(i + 1);
            let b = bounds@.take(i + 1);
            assert(c.drop_last() =~= coords@.take(i as int));
            assert(b.drop_last() =~= bounds@.take(i as int));
            assert(spec_in_bounds(c, b));
            lemma_linear_bound(c, b);
            lemma_product_prefix(bounds@, i + 1);
            assert(0 <= acc * bounds@[i as int]) by (nonlinear_arith)
                requires
                    0 <= acc,
                    0 <= bounds@[i as int],
            ;
        }
        acc = acc * bounds[i] + coords[i];
        i += 1;
    }
    proof {
        assert(coords@.take(len as int) =~= coords@);
        assert(bounds@.take(len as int) =~= bounds@);
    }
    acc
}

/// In a grid where every dimension has a cell, the first `n` dimensions span
/// no more cells than all of them.
pub proof fn lemma_product_prefix(bounds: Seq<usize>, n: int)
    requires
        0 <= n <= bounds.len(),
        forall|k: int| 0 <= k < bounds.len() ==> bounds[k] > 0,
    ensures
        0 < spec_product(bounds.take(n)) <= spec_product(bounds),
    decreases bounds.len() - n,
{
    if n == bounds.len() {
        assert(bounds.take(n) =~= bounds);
        lemma_product_positive(bounds);
    } else {
        lemma_product_prefix(bounds, n + 1);
        let longer = bounds.take(n + 1);
        assert(longer.drop_last() =~= bounds.take(n));
        assert(longer.last() == bounds[n]);
        lemma_product_positive(bounds.take(n));
        assert(spec_product(bounds.take(n)) <= spec_product(bounds.take(n)) * bounds[n])
            by (nonlinear_arith)
            requires
                0 < spec_product(bounds.take(n)),
                0 < bounds[n],
        ;
    }
}

/// A grid where every dimension has a cell has a cell.
pub proof fn lemma_product_positive(bounds: Seq<usize>)
    requires
        forall|k: int| 0 <= k < bounds.len() ==> bounds[k] > 0,
    ensures
        0 < spec_product(bounds),
    decreases bounds.len(),
{
    if bounds.len() > 0 {
        lemma_product_positive(bounds.drop_last());
        assert(0 < spec_product(bounds.drop_last()) * bounds.last()) by (nonlinear_arith)
            requires
                0 < spec_product(bounds.drop_last()),
                0 < bounds.last(),
        ;
    }
}

} // verus!

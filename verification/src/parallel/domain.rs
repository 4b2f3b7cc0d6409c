//! The place of a worker in the grid of workers: which grids are possible,
//! who the neighbour across a face is, and who takes the atoms that do not
//! divide evenly.

use crate::utils::direction::{Axis, Direction};
use crate::utils::indices::{
    lemma_coords_then_linear,
    spec_coords,
    spec_in_bounds,
    spec_linear,
    spec_product,
    Index,
};
use vstd::arithmetic::div_mod::{
    lemma_fundamental_div_mod,
    lemma_fundamental_div_mod_converse_div,
    lemma_fundamental_div_mod_converse_mod,
};
use vstd::prelude::*;

verus! {

/// Whether the worker at `me` sits at the face `direction` of the whole grid
/// of workers, so that its neighbour there is across the box.
pub open spec fn spec_at_face(me: Seq<usize>, bounds: Seq<usize>, direction: Direction) -> bool {
    let a = direction.spec_axis().spec_index();
    if direction.spec_is_hi() {
        me[a] == bounds[a] - 1
    } else {
        me[a] == 0
    }
}

/// The grid position of the worker across the face `direction`: one step
/// along the axis, wrapping around at the ends.
pub open spec fn spec_neighbor(me: Seq<usize>, bounds: Seq<usize>, direction: Direction) -> Seq<
    usize,
> {
    let a = direction.spec_axis().spec_index();
    let there = if spec_at_face(me, bounds, direction) {
        if direction.spec_is_hi() {
            0
        } else {
            bounds[a] - 1
        }
    } else {
        if direction.spec_is_hi() {
            me[a] + 1
        } else {
            me[a] - 1
        }
    };
    me.update(a, there as usize)
}

/// Stepping across a face and back across the opposite face leads home, and
/// the worker across a face is a worker of the grid.
pub proof fn lemma_neighbor_and_back(me: Seq<usize>, bounds: Seq<usize>, direction: Direction)
    requires
        me.len() == 3,
        spec_in_bounds(me, bounds),
    ensures
        spec_in_bounds(spec_neighbor(me, bounds, direction), bounds),
        spec_neighbor(spec_neighbor(me, bounds, direction), bounds, direction.spec_opposite())
            == me,
{
    let there = spec_neighbor(me, bounds, direction);
    let back = spec_neighbor(there, bounds, direction.spec_opposite());
    assert(back =~= me);
}

/// The worker across the face `direction` of the worker `proc_index`, in a
/// grid of workers with three dimensions. Where the face is a face of the
/// whole grid, the neighbour is the worker at the far end if the axis is
/// periodic, and there is none if it is not.
pub fn get_neighbor(proc_index: &Index, direction: Direction, periodic: bool) -> (r: Option<Index>)
    requires
        proc_index.spec_bounds().len() == 3,
        forall|k: int| 0 <= k < 3 ==> proc_index.spec_bounds()[k] > 0,
        proc_index.spec_idx() < spec_product(proc_index.spec_bounds()) <= usize::MAX,
    ensures
        ({
            let bounds = proc_index.spec_bounds();
            let me = spec_coords(proc_index.spec_idx(), bounds);
            &&& r is None <==> (spec_at_face(me, bounds, direction) && !periodic)
            &&& r matches Some(ix) ==> ix.spec_bounds() == bounds && ix.spec_idx() == spec_linear(
                spec_neighbor(me, bounds, direction),
                bounds,
            )
        }),
{
    let axis_index: usize = direction.axis().index();
    let mut idx: Vec<usize> = proc_index.to_3d();
    let bounds: Vec<usize> = proc_index.bounds();
    let ghost me = idx@;
    proof {
        lemma_coords_then_linear(proc_index.spec_idx(), bounds@);
        lemma_neighbor_and_back(me, bounds@, direction);
    }
    let i: usize = idx[axis_index];
    let n: usize = bounds[axis_index];
    let across_box: bool = if direction.is_lo() {
        i == 0
    } else {
        i == n - 1
    };
    if across_box && !periodic {
        return None;
    }
    let there: usize = if across_box {
        if direction.is_lo() {
            n - 1
        } else {
            0
        }
    } else {
        if direction.is_lo() {
            i - 1
        } else {
            i + 1
        }
    };
    idx.set(axis_index, there);
    assert(idx@ =~= spec_neighbor(me, bounds@, direction));
    Some(Index::from_3d(idx.as_slice(), bounds.as_slice()))
}

/// Whether `[nx, ny, nz]` is a grid for `nprocs` workers: every extent is at
/// least one and the extents multiply to `nprocs`.
pub open spec fn spec_is_grid(nprocs: int, nx: int, ny: int, nz: int) -> bool {
    nx >= 1 && ny >= 1 && nz >= 1 && nx * ny * nz == nprocs
}

/// Whether the list holds the grid `[nx, ny, nz]`.
pub open spec fn spec_lists_grid(list: Seq<[usize; 3]>, nx: int, ny: int, nz: int) -> bool {
    exists|k: int| 0 <= k < list.len() && #[trigger] spec_grid_at(list, k, nx, ny, nz)
}

/// Whether entry `k` of the list is the grid `[nx, ny, nz]`.
pub open spec fn spec_grid_at(list: Seq<[usize; 3]>, k: int, nx: int, ny: int, nz: int) -> bool {
    list[k][0] == nx && list[k][1] == ny && list[k][2] == nz
}

/// Whether grid `x` is listed before grid `y`: by the first extent, then by
/// the second.
pub open spec fn spec_grid_before(x: [usize; 3], y: [usize; 3]) -> bool {
    x[0] < y[0] || (x[0] == y[0] && x[1] < y[1])
}

/// Whether the list holds the grids for `nprocs` workers whose first two
/// extents come before `(cx, cy)`: all of them, nothing else, in order.
pub open spec fn spec_grids_up_to(list: Seq<[usize; 3]>, nprocs: int, cx: int, cy: int) -> bool {
    &&& forall|k: int|
        0 <= k < list.len() ==> {
            let g = #[trigger] list[k];
            spec_is_grid(nprocs, g[0] as int, g[1] as int, g[2] as int) && (g[0] < cx || (g[0]
                == cx && g[1] < cy))
        }
    &&& forall|nx: int, ny: int, nz: int|
        spec_is_grid(nprocs, nx, ny, nz) && (nx < cx || (nx == cx && ny < cy))
            ==> #[trigger] spec_lists_grid(list, nx, ny, nz)
    &&& forall|k: int, m: int|
        0 <= k < m < list.len() ==> spec_grid_before(#[trigger] list[k], #[trigger] list[m])
}

/// Whether the list holds every grid for `nprocs` workers once, ordered by
/// the first extent and then by the second.
pub open spec fn spec_all_grids(list: Seq<[usize; 3]>, nprocs: int) -> bool {
    &&& forall|k: int|
        0 <= k < list.len() ==> {
            let g = #[trigger] list[k];
            spec_is_grid(nprocs, g[0] as int, g[1] as int, g[2] as int)
        }
    &&& forall|nx: int, ny: int, nz: int|
        spec_is_grid(nprocs, nx, ny, nz) ==> #[trigger] spec_lists_grid(list, nx, ny, nz)
    &&& forall|k: int, m: int|
        0 <= k < m < list.len() ==> spec_grid_before(#[trigger] list[k], #[trigger] list[m])
}

/// A product of two positive numbers is divisible by the first, and the
/// quotient is the second.
proof fn lemma_divides(a: int, b: int)
    requires
        a >= 1,
        b >= 0,
    ensures
        (a * b) % a == 0,
        (a * b) / a == b,
        a * b >= b,
{
    assert(a * b == b * a) by (nonlinear_arith);
    lemma_fundamental_div_mod_converse_div(a * b, a, b, 0);
    lemma_fundamental_div_mod_converse_mod(a * b, a, b, 0);
    assert(a * b >= b) by (nonlinear_arith)
        requires
            a >= 1,
            b >= 0,
    ;
}

/// The extents of a grid are fixed by the number of workers and the first
/// two of them.
proof fn lemma_grid_extents(nprocs: int, nx: int, ny: int, nz: int)
    requires
        spec_is_grid(nprocs, nx, ny, nz),
    ensures
        nx <= nprocs,
        nprocs % nx == 0,
        ny <= nprocs / nx,
        (nprocs / nx) % ny == 0,
        nz == (nprocs / nx) / ny,
{
    assert(nx * ny * nz == nx * (ny * nz)) by (nonlinear_arith);
    assert(ny * nz >= 1) by (nonlinear_arith)
        requires
            ny >= 1,
            nz >= 1,
    ;
    lemma_divides(nx, ny * nz);
    lemma_divides(ny, nz);
    assert(ny * nz >= ny) by (nonlinear_arith)
        requires
            ny >= 1,
            nz >= 1,
    ;
    assert(nx * (ny * nz) >= nx) by (nonlinear_arith)
        requires
            nx >= 1,
            ny * nz >= 1,
    ;
}

/// Every way to arrange `nprocs` workers in a grid of three dimensions,
/// ordered by the first extent and then by the second.
pub fn proc_grid_candidates(nprocs: usize) -> (grids: Vec<[usize; 3]>)
    requires
        nprocs < usize::MAX,
    ensures
        spec_all_grids(grids@, nprocs as int),
{
    let mut grids: Vec<[usize; 3]> = Vec::new();
    let ghost n = nprocs as int;
    assert(spec_grids_up_to(grids@, n, 1, 1)) by {
        assert forall|nx: int, ny: int, nz: int|
            spec_is_grid(n, nx, ny, nz) && (nx < 1 || (nx == 1 && ny < 1)) implies #[trigger] spec_lists_grid(
            grids@,
            nx,
            ny,
            nz,
        ) by {}
    }
    let mut nx: usize = 1;
    while nx <= nprocs
        invariant
            1 <= nx <= nprocs + 1,
            nprocs < usize::MAX,
            n == nprocs,
            spec_grids_up_to(grids@, n, nx as int, 1),
        decreases nprocs + 1 - nx,
    {
        if nprocs % nx == 0 {
            let rest: usize = nprocs / nx;
            proof {
                lemma_fundamental_div_mod(n, nx as int);
            }
            let mut ny: usize = 1;
            while ny <= rest
                invariant
                    1 <= nx <= nprocs,
                    nprocs < usize::MAX,
                    n == nprocs,
                    rest == nprocs / nx,
                    n == nx * rest,
                    1 <= ny <= rest + 1,
                    spec_grids_up_to(grids@, n, nx as int, ny as int),
                decreases rest + 1 - ny,
            {
                let ghost before = grids@;
                if rest % ny == 0 {
                    let nz: usize = rest / ny;
                    proof {
                        lemma_fundamental_div_mod(rest as int, ny as int);
                        assert(nx * ny * nz == n) by (nonlinear_arith)
                            requires
                                n == nx * rest,
                                rest == ny * nz,
                        ;
                        assert(nz >= 1) by (nonlinear_arith)
                            requires
                                rest == ny * nz,
                                rest >= 1,
                                ny >= 1,
                                nz >= 0,
                        ;
                    }
                    let g: [usize; 3] = [nx, ny, nz];
                    grids.push(g);
                    proof {
                        let after = grids@;
                        let last = before.len() as int;
                        assert(after[last] == g);
                        assert forall|x: int, y: int, z: int|
                            spec_is_grid(n, x, y, z) && (x < nx || (x == nx && y < ny + 1)) implies #[trigger] spec_lists_grid(
                            after,
                            x,
                            y,
                            z,
                        ) by {
                            if x == nx && y == ny {
                                lemma_grid_extents(n, x, y, z);
                                assert(spec_grid_at(after, last, x, y, z));
                            } else {
                                assert(spec_lists_grid(before, x, y, z));
                                let k = choose|k: int|
                                    0 <= k < before.len() && #[trigger] spec_grid_at(
                                        before,
                                        k,
                                        x,
                                        y,
                                        z,
                                    );
                                assert(after[k] == before[k]);
                                assert(spec_grid_at(after, k, x, y, z));
                            }
                        }
                        assert forall|k: int| 0 <= k < after.len() implies {
                            let h = #[trigger] after[k];
                            spec_is_grid(n, h[0] as int, h[1] as int, h[2] as int) && (h[0] < nx
                                || (h[0] == nx && h[1] < ny + 1))
                        } by {
                            if k < last {
                                assert(after[k] == before[k]);
                            }
                        }
                        assert forall|k: int, m: int|
                            0 <= k < m < after.len() implies spec_grid_before(
                            #[trigger] after[k],
                            #[trigger] after[m],
                        ) by {
                            assert(after[k] == before[k]);
                            if m < last {
                                assert(after[m] == before[m]);
                            }
                        }
                    }
                } else {
                    proof {
                        assert forall|x: int, y: int, z: int|
                            spec_is_grid(n, x, y, z) && (x < nx || (x == nx && y < ny + 1)) implies #[trigger] spec_lists_grid(
                            before,
                            x,
                            y,
                            z,
                        ) by {
                            if x == nx && y == ny {
                                lemma_grid_extents(n, x, y, z);
                            }
                        }
                    }
                }
                ny += 1;
            }
        }
        proof {
            assert forall|x: int, y: int, z: int|
                spec_is_grid(n, x, y, z) && (x < nx + 1 || (x == nx + 1 && y < 1)) implies #[trigger] spec_lists_grid(
                grids@,
                x,
                y,
                z,
            ) by {
                if x == nx {
                    lemma_grid_extents(n, x, y, z);
                }
            }
        }
        nx += 1;
    }
    proof {
        assert forall|x: int, y: int, z: int| spec_is_grid(n, x, y, z) implies #[trigger] spec_lists_grid(
            grids@,
            x,
            y,
            z,
        ) by {
            lemma_grid_extents(n, x, y, z);
        }
    }
    grids
}

/// A distance by which a bound of a slab stands off a bound of the
/// subdomain.
#[derive(Clone, Copy, Debug, PartialEq, Eq, Structural)]
pub enum Pad {
    /// No distance: the bound of the slab is the bound of the subdomain.
    Zero,
    /// The force cutoff plus the skin.
    NeighborDistance,
    /// Half the skin.
    HalfSkin,
}

/// Where one bound of a slab lies: at the high or the low bound of the
/// subdomain along the same axis, moved up or down by a pad.
#[derive(Clone, Copy, Debug, PartialEq, Eq, Structural)]
pub struct SlabBound {
    pub from_hi: bool,
    pub plus: bool,
    pub pad: Pad,
}

impl SlabBound {
    /// The coordinate of the bound, for a subdomain from `lo` to `hi` along
    /// the axis, the neighbour distance `nd` and half the skin `hs`.
    pub open spec fn spec_place(self, lo: int, hi: int, nd: int, hs: int) -> int {
        let from = if self.from_hi {
            hi
        } else {
            lo
        };
        let pad = match self.pad {
            Pad::Zero => 0,
            Pad::NeighborDistance => nd,
            Pad::HalfSkin => hs,
        };
        if self.plus {
            from + pad
        } else {
            from - pad
        }
    }
}

/// A bound of a slab along an axis across its face: the slab covers the
/// subdomain and half the skin beyond it on both sides.
pub open spec fn spec_across_bound(hi_side: bool) -> SlabBound {
    SlabBound { from_hi: hi_side, plus: hi_side, pad: Pad::HalfSkin }
}

/// A bound of the inner slab at the face `direction`, the slab whose atoms
/// are published across the face. Along the axis of the face it reaches from
/// the face to the neighbour distance inside; across, it is padded by half
/// the skin.
pub open spec fn spec_inner_bound(direction: Direction, axis: Axis, hi_side: bool) -> SlabBound {
    if axis != direction.spec_axis() {
        spec_across_bound(hi_side)
    } else {
        SlabBound {
            from_hi: direction.spec_is_hi(),
            plus: hi_side,
            pad: if hi_side == direction.spec_is_hi() {
                Pad::Zero
            } else {
                Pad::NeighborDistance
            },
        }
    }
}

/// A bound of the outer slab at the face `direction`, the slab whose ghosts
/// came across the face. Along the axis of the face it reaches from the face
/// to the neighbour distance outside; across, it is padded by half the skin.
pub open spec fn spec_outer_bound(direction: Direction, axis: Axis, hi_side: bool) -> SlabBound {
    if axis != direction.spec_axis() {
        spec_across_bound(hi_side)
    } else {
        SlabBound {
            from_hi: direction.spec_is_hi(),
            plus: hi_side,
            pad: if hi_side == direction.spec_is_hi() {
                Pad::NeighborDistance
            } else {
                Pad::Zero
            },
        }
    }
}

/// Where the slabs lie. Along the axis of its face the inner slab spans
/// from the face to one neighbour distance inside the subdomain and the
/// outer slab from one neighbour distance outside to the face; along the
/// other two axes both span the subdomain and half the skin beyond it.
pub proof fn lemma_slab_spans(direction: Direction, axis: Axis, lo: int, hi: int, nd: int, hs: int)
    ensures
        axis != direction.spec_axis() ==> {
            &&& spec_inner_bound(direction, axis, false).spec_place(lo, hi, nd, hs) == lo - hs
            &&& spec_inner_bound(direction, axis, true).spec_place(lo, hi, nd, hs) == hi + hs
            &&& spec_outer_bound(direction, axis, false).spec_place(lo, hi, nd, hs) == lo - hs
            &&& spec_outer_bound(direction, axis, true).spec_place(lo, hi, nd, hs) == hi + hs
        },
        axis == direction.spec_axis() && !direction.spec_is_hi() ==> {
            &&& spec_inner_bound(direction, axis, false).spec_place(lo, hi, nd, hs) == lo
            &&& spec_inner_bound(direction, axis, true).spec_place(lo, hi, nd, hs) == lo + nd
            &&& spec_outer_bound(direction, axis, false).spec_place(lo, hi, nd, hs) == lo - nd
            &&& spec_outer_bound(direction, axis, true).spec_place(lo, hi, nd, hs) == lo
        },
        axis == direction.spec_axis() && direction.spec_is_hi() ==> {
            &&& spec_inner_bound(direction, axis, false).spec_place(lo, hi, nd, hs) == hi - nd
            &&& spec_inner_bound(direction, axis, true).spec_place(lo, hi, nd, hs) == hi
            &&& spec_outer_bound(direction, axis, false).spec_place(lo, hi, nd, hs) == hi
            &&& spec_outer_bound(direction, axis, true).spec_place(lo, hi, nd, hs) == hi + nd
        },
{
}

/// What a worker publishes across a face is what its neighbour takes for
/// the ghosts of the opposite face. The subdomains of the two share their
/// bounds across the face, and the face is the high bound of one and the low
/// bound of the other; so the inner slab of the one at the face and the
/// outer slab of the other at the opposite face have the same bounds: the
/// same pads in the same directions, from the same bounds across the face
/// and from the shared face along its axis.
pub proof fn lemma_inner_meets_outer(direction: Direction, axis: Axis, hi_side: bool)
    ensures
        spec_outer_bound(direction.spec_opposite(), axis, hi_side).pad == spec_inner_bound(
            direction,
            axis,
            hi_side,
        ).pad,
        spec_outer_bound(direction.spec_opposite(), axis, hi_side).plus == spec_inner_bound(
            direction,
            axis,
            hi_side,
        ).plus,
        spec_outer_bound(direction.spec_opposite(), axis, hi_side).from_hi == if axis
            == direction.spec_axis() {
            !spec_inner_bound(direction, axis, hi_side).from_hi
        } else {
            spec_inner_bound(direction, axis, hi_side).from_hi
        },
{
}

/// A bound of the inner slab at the face `direction`.
pub fn inner_bound(direction: Direction, axis: Axis, hi_side: bool) -> (b: SlabBound)
    ensures
        b == spec_inner_bound(direction, axis, hi_side),
{
    if axis == direction.axis() {
        SlabBound {
            from_hi: direction.is_hi(),
            plus: hi_side,
            pad: if hi_side == direction.is_hi() {
                Pad::Zero
            } else {
                Pad::NeighborDistance
            },
        }
    } else {
        across_bound(hi_side)
    }
}

/// A bound of the outer slab at the face `direction`.
pub fn outer_bound(direction: Direction, axis: Axis, hi_side: bool) -> (b: SlabBound)
    ensures
        b == spec_outer_bound(direction, axis, hi_side),
{
    if axis == direction.axis() {
        SlabBound {
            from_hi: direction.is_hi(),
            plus: hi_side,
            pad: if hi_side == direction.is_hi() {
                Pad::NeighborDistance
            } else {
                Pad::Zero
            },
        }
    } else {
        across_bound(hi_side)
    }
}

fn across_bound(hi_side: bool) -> (b: SlabBound)
    ensures
        b == spec_across_bound(hi_side),
{
    SlabBound { from_hi: hi_side, plus: hi_side, pad: Pad::HalfSkin }
}

/// Whether the worker `proc_index` takes one atom more than its share when
/// `requested` atoms are spread over the workers and the shares add up to
/// `assigned`: the first workers take the atoms left over, one each.
pub fn takes_extra_atom(proc_index: usize, requested: usize, assigned: usize) -> (b: bool)
    requires
        assigned <= requested,
    ensures
        b == (proc_index < requested - assigned),
{
    proc_index < requested - assigned
}

} // verus!

//! The half stencil: the offsets from a bin to the bins that are searched for
//! its atoms' neighbours.
//!
//! Distances are measured in bins. Two bins whose indices differ by `d` along
//! an axis are at least `|d| - 1` bins apart along it, so an offset is worth
//! searching when the squares of these gaps sum to less than the squared
//! neighbour distance. Of every pair of opposite offsets only one is kept,
//! which makes each pair of bins meet once.

use vstd::prelude::*;

verus! {

/// Square of the least distance, in bins, between two bins whose indices
/// differ by `d` along one axis.
pub open spec fn spec_gap_sq(d: int) -> int {
    let a = if d < 0 {
        -d
    } else {
        d
    };
    if a <= 1 {
        0
    } else {
        (a - 1) * (a - 1)
    }
}

/// Whether the nearest corners of two bins offset by `(i, j, k)` are closer
/// than the distance whose square, in bins, is bounded by `limit`.
pub open spec fn spec_near(i: int, j: int, k: int, limit: int) -> bool {
    spec_gap_sq(i) + spec_gap_sq(j) + spec_gap_sq(k) < limit
}

/// The part of the stencil an offset belongs to: 0 for `(i, 0, 0)`, 1 for
/// `(i, j, 0)` with `j > 0`, 2 for `k > 0`.
pub open spec fn spec_block(i: int, j: int, k: int) -> int {
    if k > 0 {
        2
    } else if j > 0 {
        1
    } else {
        0
    }
}

/// Whether `(i, j, k)` is in the half of offset space that is kept: it is
/// not below the origin when read as `(k, j, i)`.
pub open spec fn spec_upper_half(i: int, j: int, k: int) -> bool {
    k > 0 || (k == 0 && (j > 0 || (j == 0 && i >= 0)))
}

/// Whether `(i, j, k)` is an offset of the half stencil that reaches `reach`
/// bins along each axis.
pub open spec fn spec_in_stencil(i: int, j: int, k: int, reach: int, limit: int) -> bool {
    &&& -reach <= i <= reach
    &&& -reach <= j <= reach
    &&& -reach <= k <= reach
    &&& spec_upper_half(i, j, k)
    &&& spec_near(i, j, k, limit)
}

/// Whether `(i, j, k)` comes before the place `(b, ci, cj, ck)` of the
/// enumeration, which goes through the blocks in turn and through each block
/// with the first component slowest.
pub open spec fn spec_seen(i: int, j: int, k: int, b: int, ci: int, cj: int, ck: int) -> bool {
    spec_block(i, j, k) < b || (spec_block(i, j, k) == b && (i < ci || (i == ci && (j < cj || (j
        == cj && k < ck)))))
}

/// Whether offset `x` is listed before offset `y`.
pub open spec fn spec_precedes(x: [i32; 3], y: [i32; 3]) -> bool {
    spec_seen(
        x[0] as int,
        x[1] as int,
        x[2] as int,
        spec_block(y[0] as int, y[1] as int, y[2] as int),
        y[0] as int,
        y[1] as int,
        y[2] as int,
    )
}

/// Whether the list holds the offset `(i, j, k)`.
pub open spec fn spec_holds(list: Seq<[i32; 3]>, i: int, j: int, k: int) -> bool {
    exists|n: int| 0 <= n < list.len() && #[trigger] spec_at(list, n, i, j, k)
}

/// Whether entry `n` of the list is the offset `(i, j, k)`.
pub open spec fn spec_at(list: Seq<[i32; 3]>, n: int, i: int, j: int, k: int) -> bool {
    list[n][0] == i && list[n][1] == j && list[n][2] == k
}

/// Whether the list is the enumeration up to the place `(b, ci, cj, ck)`: it
/// holds the offsets of the stencil that come before that place, all of them
/// and nothing else, in the order of the enumeration.
pub open spec fn spec_partial(
    list: Seq<[i32; 3]>,
    reach: int,
    limit: int,
    b: int,
    ci: int,
    cj: int,
    ck: int,
) -> bool {
    &&& forall|n: int|
        0 <= n < list.len() ==> {
            let e = #[trigger] list[n];
            spec_in_stencil(e[0] as int, e[1] as int, e[2] as int, reach, limit) && spec_seen(
                e[0] as int,
                e[1] as int,
                e[2] as int,
                b,
                ci,
                cj,
                ck,
            )
        }
    &&& forall|i: int, j: int, k: int|
        spec_in_stencil(i, j, k, reach, limit) && spec_seen(i, j, k, b, ci, cj, ck)
            ==> #[trigger] spec_holds(list, i, j, k)
    &&& forall|n: int, m: int|
        0 <= n < m < list.len() ==> spec_precedes(#[trigger] list[n], #[trigger] list[m])
}

/// Whether the list is the half stencil for `reach` and `limit`: exactly the
/// offsets within `reach` bins along each axis that lie in the kept half and
/// are near enough, each once, in the order of the enumeration.
pub open spec fn spec_is_stencil(list: Seq<[i32; 3]>, reach: int, limit: int) -> bool {
    &&& forall|n: int|
        0 <= n < list.len() ==> {
            let e = #[trigger] list[n];
            spec_in_stencil(e[0] as int, e[1] as int, e[2] as int, reach, limit)
        }
    &&& forall|i: int, j: int, k: int|
        spec_in_stencil(i, j, k, reach, limit) ==> #[trigger] spec_holds(list, i, j, k)
    &&& forall|n: int, m: int|
        0 <= n < m < list.len() ==> spec_precedes(#[trigger] list[n], #[trigger] list[m])
}

/// Of two opposite offsets within reach that are near enough, the half
/// stencil holds exactly one; the offset to the bin itself it holds once.
pub proof fn lemma_stencil_half(list: Seq<[i32; 3]>, reach: int, limit: int, i: int, j: int, k: int)
    requires
        spec_is_stencil(list, reach, limit),
        -reach <= i <= reach,
        -reach <= j <= reach,
        -reach <= k <= reach,
        spec_near(i, j, k, limit),
    ensures
        spec_holds(list, i, j, k) || spec_holds(list, -i, -j, -k),
        (i != 0 || j != 0 || k != 0) ==> !(spec_holds(list, i, j, k) && spec_holds(list, -i, -j, -k)),
{
    assert(spec_near(-i, -j, -k, limit));
    if spec_upper_half(i, j, k) {
        assert(spec_in_stencil(i, j, k, reach, limit));
    } else {
        assert(spec_in_stencil(-i, -j, -k, reach, limit));
    }
    if spec_holds(list, i, j, k) && spec_holds(list, -i, -j, -k) {
        let n = choose|n: int| 0 <= n < list.len() && #[trigger] spec_at(list, n, i, j, k);
        let m = choose|m: int| 0 <= m < list.len() && #[trigger] spec_at(list, m, -i, -j, -k);
        let e = list[n];
        let f = list[m];
        assert(spec_upper_half(e[0] as int, e[1] as int, e[2] as int));
        assert(spec_upper_half(f[0] as int, f[1] as int, f[2] as int));
    }
}

/// No offset is listed twice in a half stencil.
pub proof fn lemma_stencil_distinct(list: Seq<[i32; 3]>, reach: int, limit: int, n: int, m: int)
    requires
        spec_is_stencil(list, reach, limit),
        0 <= n < list.len(),
        0 <= m < list.len(),
        list[n][0] == list[m][0],
        list[n][1] == list[m][1],
        list[n][2] == list[m][2],
    ensures
        n == m,
{
    if n < m {
        assert(spec_precedes(list[n], list[m]));
    } else if m < n {
        assert(spec_precedes(list[m], list[n]));
    }
}

fn gap_sq(d: i32) -> (r: u64)
    requires
        d > i32::MIN,
    ensures
        r == spec_gap_sq(d as int),
        r <= 0x4000_0000_0000_0000,
{
    let wide: i64 = d as i64;
    let a: u64 = if wide < 0 {
        (-wide) as u64
    } else {
        wide as u64
    };
    if a <= 1 {
        0
    } else {
        let g: u64 = a - 1;
        assert(g * g <= 0x4000_0000_0000_0000) by (nonlinear_arith)
            requires
                g <= 0x8000_0000,
        ;
        g * g
    }
}

/// Whether bins offset by `(i, j, k)` can hold atoms within the distance
/// whose square, in bins, is bounded by `limit`.
pub fn is_near(i: i32, j: i32, k: i32, limit: u64) -> (b: bool)
    requires
        i > i32::MIN,
        j > i32::MIN,
        k > i32::MIN,
    ensures
        b == spec_near(i as int, j as int, k as int, limit as int),
{
    let gi: u64 = gap_sq(i);
    let gj: u64 = gap_sq(j);
    let gk: u64 = gap_sq(k);
    gi + gj + gk < limit
}

/// Looks at the offset at the current place of the enumeration and lists it
/// if it is near enough; the place moves on by one in the last component.
fn visit(list: &mut Vec<[i32; 3]>, i: i32, j: i32, k: i32, reach: i32, limit: u64)
    requires
        0 <= reach < i32::MAX,
        -reach <= i <= reach,
        -reach <= j <= reach,
        -reach <= k <= reach,
        spec_upper_half(i as int, j as int, k as int),
        spec_partial(
            old(list)@,
            reach as int,
            limit as int,
            spec_block(i as int, j as int, k as int),
            i as int,
            j as int,
            k as int,
        ),
    ensures
        spec_partial(
            final(list)@,
            reach as int,
            limit as int,
            spec_block(i as int, j as int, k as int),
            i as int,
            j as int,
            k + 1,
        ),
{
    let ghost before = list@;
    let ghost b = spec_block(i as int, j as int, k as int);
    if is_near(i, j, k, limit) {
        let e: [i32; 3] = [i, j, k];
        list.push(e);
        proof {
            let after = list@;
            let last = before.len() as int;
            assert(after[last] == e);
            assert(spec_at(after, last, i as int, j as int, k as int));
            assert forall|x: int, y: int, z: int|
                spec_in_stencil(x, y, z, reach as int, limit as int) && spec_seen(
                    x,
                    y,
                    z,
                    b,
                    i as int,
                    j as int,
                    k + 1,
                ) implies #[trigger] spec_holds(after, x, y, z) by {
                if x == i && y == j && z == k {
                    assert(spec_at(after, last, x, y, z));
                } else {
                    assert(spec_holds(before, x, y, z));
                    let n = choose|n: int|
                        0 <= n < before.len() && #[trigger] spec_at(before, n, x, y, z);
                    assert(after[n] == before[n]);
                    assert(spec_at(after, n, x, y, z));
                }
            }
            assert forall|n: int| 0 <= n < after.len() implies {
                let f = #[trigger] after[n];
                spec_in_stencil(f[0] as int, f[1] as int, f[2] as int, reach as int, limit as int)
                    && spec_seen(
                    f[0] as int,
                    f[1] as int,
                    f[2] as int,
                    b,
                    i as int,
                    j as int,
                    k + 1,
                )
            } by {
                if n < last {
                    assert(after[n] == before[n]);
                }
            }
            assert forall|n: int, m: int| 0 <= n < m < after.len() implies spec_precedes(
                #[trigger] after[n],
                #[trigger] after[m],
            ) by {
                assert(after[n] == before[n]);
                if m < last {
                    assert(after[m] == before[m]);
                }
            }
        }
    } else {
        proof {
            assert forall|x: int, y: int, z: int|
                spec_in_stencil(x, y, z, reach as int, limit as int) && spec_seen(
                    x,
                    y,
                    z,
                    b,
                    i as int,
                    j as int,
                    k + 1,
                ) implies #[trigger] spec_holds(before, x, y, z) by {
                assert(!(x == i && y == j && z == k));
            }
        }
    }
}

/// The half stencil that reaches `reach` bins along each axis and keeps the
/// offsets whose squared corner distance, in bins, is below `limit`.
///
/// The offsets `(i, 0, 0)` with `i >= 0` come first, then those `(i, j, 0)`
/// with `j > 0`, then those with `k > 0`; within each part the first
/// component varies slowest.
pub fn compute_stencil(reach: i32, limit: u64) -> (stencil: Vec<[i32; 3]>)
    requires
        0 <= reach < i32::MAX,
    ensures
        spec_is_stencil(stencil@, reach as int, limit as int),
{
    let mut stencil: Vec<[i32; 3]> = Vec::new();
    let ghost r = reach as int;
    let ghost l = limit as int;
    assert(spec_partial(stencil@, r, l, 0, 0, 0, 0)) by {
        assert forall|i: int, j: int, k: int|
            spec_in_stencil(i, j, k, r, l) && spec_seen(i, j, k, 0, 0, 0, 0) implies #[trigger] spec_holds(
            stencil@,
            i,
            j,
            k,
        ) by {}
    }
    let mut i: i32 = 0;
    while i <= reach
        invariant
            0 <= reach < i32::MAX,
            0 <= i <= reach + 1,
            r == reach,
            l == limit,
            spec_partial(stencil@, r, l, 0, i as int, 0, 0),
        decreases reach + 1 - i,
    {
        visit(&mut stencil, i, 0, 0, reach, limit);
        i += 1;
    }
    let mut i: i32 = -reach;
    while i <= reach
        invariant
            0 <= reach < i32::MAX,
            -reach <= i <= reach + 1,
            r == reach,
            l == limit,
            spec_partial(stencil@, r, l, 1, i as int, 1, 0),
        decreases reach + 1 - i,
    {
        let mut j: i32 = 1;
        while j <= reach
            invariant
                0 <= reach < i32::MAX,
                -reach <= i <= reach,
                1 <= j <= reach + 1,
                r == reach,
                l == limit,
                spec_partial(stencil@, r, l, 1, i as int, j as int, 0),
            decreases reach + 1 - j,
        {
            visit(&mut stencil, i, j, 0, reach, limit);
            j += 1;
        }
        i += 1;
    }
    let mut i: i32 = -reach;
    while i <= reach
        invariant
            0 <= reach < i32::MAX,
            -reach <= i <= reach + 1,
            r == reach,
            l == limit,
            spec_partial(stencil@, r, l, 2, i as int, -r, 1),
        decreases reach + 1 - i,
    {
        let mut j: i32 = -reach;
        while j <= reach
            invariant
                0 <= reach < i32::MAX,
                -reach <= i <= reach,
                -reach <= j <= reach + 1,
                r == reach,
                l == limit,
                spec_partial(stencil@, r, l, 2, i as int, j as int, 1),
            decreases reach + 1 - j,
        {
            let mut k: i32 = 1;
            while k <= reach
                invariant
                    0 <= reach < i32::MAX,
                    -reach <= i <= reach,
                    -reach <= j <= reach,
                    1 <= k <= reach + 1,
                    r == reach,
                    l == limit,
                    spec_partial(stencil@, r, l, 2, i as int, j as int, k as int),
                decreases reach + 1 - k,
            {
                visit(&mut stencil, i, j, k, reach, limit);
                k += 1;
            }
            j += 1;
        }
        i += 1;
    }
    stencil
}

} // verus!

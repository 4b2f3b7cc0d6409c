//! The half neighbour list of one worker: for every atom, the atoms of the
//! bins its stencil reaches that are close enough to interact with it.
//!
//! Positions never enter this module. The caller names the bin of every atom
//! and hands over the test that decides whether two atoms are close enough;
//! what is proved holds for any such test.

use super::stencil::{
    compute_stencil,
    lemma_stencil_distinct,
    lemma_stencil_half,
    spec_at,
    spec_holds,
    spec_is_stencil,
    spec_near,
};
use crate::utils::indices::{
    lemma_linear_bound,
    lemma_linear_then_coords,
    lemma_product_prefix,
    linear_index,
    spec_in_bounds,
    spec_linear,
    spec_product,
};
use vstd::prelude::*;

verus! {

/// The bin that lies `offset` away from `bin`, coordinate by coordinate.
pub open spec fn spec_shifted(bin: [usize; 3], offset: [i32; 3]) -> Seq<usize> {
    seq![
        (bin[0] + offset[0]) as usize,
        (bin[1] + offset[1]) as usize,
        (bin[2] + offset[2]) as usize,
    ]
}

/// Whether the bin that lies `offset` away from `bin` is a bin of the grid.
pub open spec fn spec_shift_in_grid(bin: [usize; 3], offset: [i32; 3], num_bins: [usize; 3]) -> bool {
    &&& 0 <= bin[0] + offset[0] < num_bins[0]
    &&& 0 <= bin[1] + offset[1] < num_bins[1]
    &&& 0 <= bin[2] + offset[2] < num_bins[2]
}

/// The atoms among the first `n` whose bin has the linear index `b`, in
/// ascending order.
pub open spec fn spec_members(bins: Seq<[usize; 3]>, num_bins: [usize; 3], b: int, n: int) -> Seq<
    usize,
>
    decreases n,
{
    if n <= 0 {
        Seq::empty()
    } else {
        let rest = spec_members(bins, num_bins, b, n - 1);
        if spec_linear(bins[n - 1]@, num_bins@) == b {
            rest.push((n - 1) as usize)
        } else {
            rest
        }
    }
}

/// Whether the offset leads from a bin to the bin itself.
pub open spec fn spec_own_bin(offset: [i32; 3]) -> bool {
    offset[0] == 0 && offset[1] == 0 && offset[2] == 0
}

/// Whether atom `i` lists atom `j` once `j` is a candidate: the test
/// `within` answers yes for them, and `j` is another atom. In the bin of `i`
/// itself, `own`, only the atoms after `i` count, so that of two atoms in
/// one bin the earlier lists the later and not the other way round.
pub open spec fn spec_keeps<F: Fn(usize, usize) -> bool>(
    within: F,
    i: usize,
    j: usize,
    own: bool,
) -> bool {
    &&& if own {
        i < j
    } else {
        j != i
    }
    &&& call_ensures(within, (i, j), true)
}

/// Those of the first `n` candidates that atom `i` lists, in the order of the
/// candidates.
pub open spec fn spec_kept<F: Fn(usize, usize) -> bool>(
    within: F,
    i: usize,
    own: bool,
    candidates: Seq<usize>,
    n: int,
) -> Seq<usize>
    decreases n,
{
    if n <= 0 {
        Seq::empty()
    } else {
        let rest = spec_kept(within, i, own, candidates, n - 1);
        if spec_keeps(within, i, candidates[n - 1], own) {
            rest.push(candidates[n - 1])
        } else {
            rest
        }
    }
}

/// The atoms in the bin that the stencil's offset `s` reaches from the bin of
/// atom `i`, in ascending order.
pub open spec fn spec_candidates(
    i: usize,
    bins: Seq<[usize; 3]>,
    num_bins: [usize; 3],
    stencil: Seq<[i32; 3]>,
    s: int,
) -> Seq<usize> {
    spec_members(
        bins,
        num_bins,
        spec_linear(spec_shifted(bins[i as int], stencil[s]), num_bins@),
        bins.len() as int,
    )
}

/// What atom `i` lists after the first `s` offsets of the stencil: for each
/// offset in turn, the atoms of the bin it reaches that `i` keeps. A pair of
/// atoms in one bin is met through the offset to the bin itself, and there
/// the earlier atom keeps the later.
pub open spec fn spec_neighbors<F: Fn(usize, usize) -> bool>(
    within: F,
    i: usize,
    bins: Seq<[usize; 3]>,
    num_bins: [usize; 3],
    stencil: Seq<[i32; 3]>,
    s: int,
) -> Seq<usize>
    decreases s,
{
    if s <= 0 {
        Seq::empty()
    } else {
        let candidates = spec_candidates(i, bins, num_bins, stencil, s - 1);
        spec_neighbors(within, i, bins, num_bins, stencil, s - 1) + spec_kept(
            within,
            i,
            spec_own_bin(stencil[s - 1]),
            candidates,
            candidates.len() as int,
        )
    }
}

/// Whether the test gives one answer for every pair of atoms.
pub open spec fn spec_decided<F: Fn(usize, usize) -> bool>(within: F) -> bool {
    forall|a: usize, b: usize|
        !(#[trigger] call_ensures(within, (a, b), true) && call_ensures(within, (a, b), false))
}

/// Whether the bins named for the atoms suit the grid and the stencil: each
/// is a bin of the grid, and so is every bin the stencil reaches from it.
pub open spec fn spec_bins_fit(bins: Seq<[usize; 3]>, num_bins: [usize; 3], stencil: Seq<[i32; 3]>) -> bool {
    &&& forall|a: int| 0 <= a < bins.len() ==> spec_in_bounds(#[trigger] bins[a]@, num_bins@)
    &&& forall|a: int, s: int|
        0 <= a < bins.len() && 0 <= s < stencil.len() ==> spec_shift_in_grid(
            #[trigger] bins[a],
            #[trigger] stencil[s],
            num_bins,
        )
}

/// The members of a bin are the atoms in it.
pub proof fn lemma_members(bins: Seq<[usize; 3]>, num_bins: [usize; 3], b: int, n: int, j: usize)
    requires
        0 <= n <= bins.len() <= usize::MAX,
    ensures
        spec_members(bins, num_bins, b, n).contains(j) <==> (j < n && spec_linear(
            bins[j as int]@,
            num_bins@,
        ) == b),
        spec_members(bins, num_bins, b, n).len() <= n,
    decreases n,
{
    if n > 0 {
        lemma_members(bins, num_bins, b, n - 1, j);
        let rest = spec_members(bins, num_bins, b, n - 1);
        if spec_linear(bins[n - 1]@, num_bins@) == b {
            let all = rest.push((n - 1) as usize);
            if rest.contains(j) {
                let p = choose|p: int| 0 <= p < rest.len() && rest[p] == j;
                assert(all[p] == j);
            }
            if j == n - 1 {
                assert(all[rest.len() as int] == j);
            }
            if all.contains(j) && j != n - 1 {
                let p = choose|p: int| 0 <= p < all.len() && all[p] == j;
                assert(rest[p] == j);
            }
        }
    }
}

/// An atom is kept from the candidates exactly if it is one of them and `i`
/// keeps it.
pub proof fn lemma_kept<F: Fn(usize, usize) -> bool>(
    within: F,
    i: usize,
    own: bool,
    candidates: Seq<usize>,
    n: int,
    j: usize,
)
    requires
        0 <= n <= candidates.len(),
    ensures
        spec_kept(within, i, own, candidates, n).contains(j) <==> (spec_keeps(within, i, j, own)
            && candidates.take(n).contains(j)),
    decreases n,
{
    if n > 0 {
        lemma_kept(within, i, own, candidates, n - 1, j);
        let rest = spec_kept(within, i, own, candidates, n - 1);
        let c = candidates[n - 1];
        let shorter = candidates.take(n - 1);
        let longer = candidates.take(n);
        assert(longer.drop_last() =~= shorter);
        if shorter.contains(j) {
            let p = choose|p: int| 0 <= p < shorter.len() && shorter[p] == j;
            assert(longer[p] == j);
        }
        if longer.contains(j) && c != j {
            let p = choose|p: int| 0 <= p < longer.len() && longer[p] == j;
            assert(shorter[p] == j);
        }
        assert(longer[n - 1] == c);
        if spec_keeps(within, i, c, own) {
            let all = rest.push(c);
            if rest.contains(j) {
                let p = choose|p: int| 0 <= p < rest.len() && rest[p] == j;
                assert(all[p] == j);
            }
            if j == c {
                assert(all[rest.len() as int] == j);
            }
        }
    } else {
        assert(candidates.take(0).len() == 0);
    }
}

/// Whether atom `i` lists atom `j` through the offset `t` of the stencil:
/// the offset leads from the bin of `i` to the bin of `j`, and `i` keeps
/// `j` there.
pub open spec fn spec_lists_through<F: Fn(usize, usize) -> bool>(
    within: F,
    i: usize,
    j: usize,
    bins: Seq<[usize; 3]>,
    num_bins: [usize; 3],
    stencil: Seq<[i32; 3]>,
    t: int,
) -> bool {
    &&& spec_linear(spec_shifted(bins[i as int], stencil[t]), num_bins@) == spec_linear(
        bins[j as int]@,
        num_bins@,
    )
    &&& spec_keeps(within, i, j, spec_own_bin(stencil[t]))
}

/// Atom `i` lists atom `j` after `s` offsets exactly if it lists `j`
/// through one of those offsets.
pub proof fn lemma_neighbors<F: Fn(usize, usize) -> bool>(
    within: F,
    i: usize,
    bins: Seq<[usize; 3]>,
    num_bins: [usize; 3],
    stencil: Seq<[i32; 3]>,
    s: int,
    j: usize,
)
    requires
        0 <= s <= stencil.len(),
        i < bins.len() <= usize::MAX,
    ensures
        spec_neighbors(within, i, bins, num_bins, stencil, s).contains(j) <==> (j < bins.len()
            && exists|t: int|
            0 <= t < s && #[trigger] spec_lists_through(within, i, j, bins, num_bins, stencil, t)),
    decreases s,
{
    if s > 0 {
        lemma_neighbors(within, i, bins, num_bins, stencil, s - 1, j);
        let before = spec_neighbors(within, i, bins, num_bins, stencil, s - 1);
        let candidates = spec_candidates(i, bins, num_bins, stencil, s - 1);
        let b = spec_linear(spec_shifted(bins[i as int], stencil[s - 1]), num_bins@);
        let own = spec_own_bin(stencil[s - 1]);
        let kept = spec_kept(within, i, own, candidates, candidates.len() as int);
        lemma_kept(within, i, own, candidates, candidates.len() as int, j);
        lemma_members(bins, num_bins, b, bins.len() as int, j);
        assert(candidates.take(candidates.len() as int) =~= candidates);
        let all = before + kept;
        if before.contains(j) {
            let p = choose|p: int| 0 <= p < before.len() && before[p] == j;
            assert(all[p] == j);
            let t = choose|t: int|
                0 <= t < s - 1 && #[trigger] spec_lists_through(
                    within,
                    i,
                    j,
                    bins,
                    num_bins,
                    stencil,
                    t,
                );
            assert(spec_lists_through(within, i, j, bins, num_bins, stencil, t));
        }
        if kept.contains(j) {
            let p = choose|p: int| 0 <= p < kept.len() && kept[p] == j;
            assert(all[before.len() + p] == j);
            assert(spec_lists_through(within, i, j, bins, num_bins, stencil, s - 1));
        }
        if all.contains(j) {
            let p = choose|p: int| 0 <= p < all.len() && all[p] == j;
            if p < before.len() {
                assert(before[p] == j);
            } else {
                assert(kept[p - before.len()] == j);
            }
        }
        if j < bins.len() && exists|t: int|
            0 <= t < s && #[trigger] spec_lists_through(within, i, j, bins, num_bins, stencil, t) {
            let t = choose|t: int|
                0 <= t < s && #[trigger] spec_lists_through(
                    within,
                    i,
                    j,
                    bins,
                    num_bins,
                    stencil,
                    t,
                );
            if t < s - 1 {
                assert(before.contains(j));
            } else {
                assert(kept.contains(j));
            }
        }
    }
}

/// An offset of the stencil leads from the bin of atom `i` to the bin of atom
/// `j` exactly if it is the difference of the two bins.
pub proof fn lemma_reaches(
    bins: Seq<[usize; 3]>,
    num_bins: [usize; 3],
    stencil: Seq<[i32; 3]>,
    i: usize,
    j: usize,
    t: int,
)
    requires
        spec_bins_fit(bins, num_bins, stencil),
        spec_product(num_bins@) <= usize::MAX,
        i < bins.len(),
        j < bins.len(),
        0 <= t < stencil.len(),
    ensures
        spec_linear(spec_shifted(bins[i as int], stencil[t]), num_bins@) == spec_linear(
            bins[j as int]@,
            num_bins@,
        ) <==> spec_at(
            stencil,
            t,
            bins[j as int][0] - bins[i as int][0],
            bins[j as int][1] - bins[i as int][1],
            bins[j as int][2] - bins[i as int][2],
        ),
{
    let from = bins[i as int];
    let to = bins[j as int];
    let di = to[0] - from[0];
    let dj = to[1] - from[1];
    let dk = to[2] - from[2];
    let reached = spec_shifted(from, stencil[t]);
    assert(spec_in_bounds(to@, num_bins@));
    assert(spec_shift_in_grid(bins[i as int], stencil[t], num_bins));
    assert(spec_in_bounds(reached, num_bins@));
    lemma_linear_bound(to@, num_bins@);
    lemma_linear_then_coords(to@, num_bins@);
    lemma_linear_bound(reached, num_bins@);
    lemma_linear_then_coords(reached, num_bins@);
    if spec_at(stencil, t, di, dj, dk) {
        assert(reached =~= to@);
    }
    if spec_linear(reached, num_bins@) == spec_linear(to@, num_bins@) {
        assert(reached == to@);
        assert(reached[0] == to@[0] && reached[1] == to@[1] && reached[2] == to@[2]);
    }
}

/// The members of a bin stand in ascending order.
pub proof fn lemma_members_ascend(bins: Seq<[usize; 3]>, num_bins: [usize; 3], b: int, n: int)
    requires
        0 <= n <= bins.len() <= usize::MAX,
    ensures
        forall|p: int|
            0 <= p < spec_members(bins, num_bins, b, n).len() ==> #[trigger] spec_members(
                bins,
                num_bins,
                b,
                n,
            )[p] < n,
        forall|p: int, q: int|
            0 <= p < q < spec_members(bins, num_bins, b, n).len() ==> spec_members(
                bins,
                num_bins,
                b,
                n,
            )[p] < spec_members(bins, num_bins, b, n)[q],
    decreases n,
{
    if n > 0 {
        lemma_members_ascend(bins, num_bins, b, n - 1);
        let rest = spec_members(bins, num_bins, b, n - 1);
        let all = spec_members(bins, num_bins, b, n);
        assert forall|p: int| 0 <= p < all.len() implies #[trigger] all[p] < n by {
            if p < rest.len() {
                assert(all[p] == rest[p]);
            }
        }
        assert forall|p: int, q: int| 0 <= p < q < all.len() implies all[p] < all[q] by {
            assert(all[p] == rest[p]);
            if q < rest.len() {
                assert(all[q] == rest[q]);
            }
        }
    }
}

/// What is kept of ascending candidates stands in ascending order.
pub proof fn lemma_kept_ascend<F: Fn(usize, usize) -> bool>(
    within: F,
    i: usize,
    own: bool,
    candidates: Seq<usize>,
    n: int,
)
    requires
        0 <= n <= candidates.len(),
        forall|p: int, q: int| 0 <= p < q < candidates.len() ==> candidates[p] < candidates[q],
    ensures
        forall|p: int|
            0 <= p < spec_kept(within, i, own, candidates, n).len() ==> n > 0 && #[trigger] spec_kept(
                within,
                i,
                own,
                candidates,
                n,
            )[p] <= candidates[n - 1],
        forall|p: int, q: int|
            0 <= p < q < spec_kept(within, i, own, candidates, n).len() ==> spec_kept(
                within,
                i,
                own,
                candidates,
                n,
            )[p] < spec_kept(within, i, own, candidates, n)[q],
    decreases n,
{
    if n > 0 {
        lemma_kept_ascend(within, i, own, candidates, n - 1);
        let rest = spec_kept(within, i, own, candidates, n - 1);
        let all = spec_kept(within, i, own, candidates, n);
        assert forall|p: int| 0 <= p < rest.len() implies #[trigger] rest[p] < candidates[n - 1] by {
            assert(rest[p] <= candidates[n - 2]);
        }
        assert forall|p: int| 0 <= p < all.len() implies #[trigger] all[p] <= candidates[n - 1] by {
            if p < rest.len() {
                assert(all[p] == rest[p]);
            }
        }
        assert forall|p: int, q: int| 0 <= p < q < all.len() implies all[p] < all[q] by {
            assert(all[p] == rest[p]);
            if q < rest.len() {
                assert(all[q] == rest[q]);
            }
        }
    }
}

/// No atom stands twice in a list: what atom `i` lists after `s` offsets of
/// the stencil holds every atom at most once.
pub proof fn lemma_neighbors_distinct<F: Fn(usize, usize) -> bool>(
    within: F,
    i: usize,
    bins: Seq<[usize; 3]>,
    num_bins: [usize; 3],
    stencil: Seq<[i32; 3]>,
    reach: int,
    limit: int,
    s: int,
)
    requires
        0 <= s <= stencil.len(),
        i < bins.len() <= usize::MAX,
        spec_bins_fit(bins, num_bins, stencil),
        spec_product(num_bins@) <= usize::MAX,
        spec_is_stencil(stencil, reach, limit),
    ensures
        spec_neighbors(within, i, bins, num_bins, stencil, s).no_duplicates(),
    decreases s,
{
    if s > 0 {
        lemma_neighbors_distinct(within, i, bins, num_bins, stencil, reach, limit, s - 1);
        let before = spec_neighbors(within, i, bins, num_bins, stencil, s - 1);
        let candidates = spec_candidates(i, bins, num_bins, stencil, s - 1);
        let b = spec_linear(spec_shifted(bins[i as int], stencil[s - 1]), num_bins@);
        let own = spec_own_bin(stencil[s - 1]);
        let kept = spec_kept(within, i, own, candidates, candidates.len() as int);
        lemma_members_ascend(bins, num_bins, b, bins.len() as int);
        lemma_kept_ascend(within, i, own, candidates, candidates.len() as int);
        assert forall|p: int, q: int| 0 <= p < before.len() && 0 <= q < kept.len() implies before[p]
            != kept[q] by {
            let x = kept[q];
            if before[p] == x {
                assert(before.contains(x));
                assert(kept.contains(x));
                lemma_neighbors(within, i, bins, num_bins, stencil, s - 1, x);
                lemma_kept(within, i, own, candidates, candidates.len() as int, x);
                assert(candidates.take(candidates.len() as int) =~= candidates);
                lemma_members(bins, num_bins, b, bins.len() as int, x);
                let t = choose|t: int|
                    0 <= t < s - 1 && #[trigger] spec_lists_through(
                        within,
                        i,
                        x,
                        bins,
                        num_bins,
                        stencil,
                        t,
                    );
                lemma_reaches(bins, num_bins, stencil, i, x, t);
                lemma_reaches(bins, num_bins, stencil, i, x, s - 1);
                lemma_stencil_distinct(stencil, reach, limit, t, s - 1);
            }
        }
        vstd::seq_lib::lemma_no_dup_in_concat(before, kept);
    }
}

/// The half neighbour list over a grid of bins.
pub struct NeighborList {
    num_bins: [usize; 3],
    reach: i32,
    limit: u64,
    stencil: Vec<[i32; 3]>,
    neighbors: Vec<Vec<usize>>,
    built: bool,
}

impl NeighborList {
    /// The grid has a cell along every axis and no more cells than fit the
    /// machine word, and the stencil is the half stencil for the reach and
    /// the limit.
    pub closed spec fn wf(&self) -> bool {
        &&& 0 <= self.reach < i32::MAX
        &&& self.num_bins[0] > 0
        &&& self.num_bins[1] > 0
        &&& self.num_bins[2] > 0
        &&& spec_product(self.num_bins@) <= usize::MAX
        &&& spec_is_stencil(self.stencil@, self.reach as int, self.limit as int)
    }

    pub closed spec fn spec_num_bins(&self) -> [usize; 3] {
        self.num_bins
    }

    pub closed spec fn spec_reach(&self) -> int {
        self.reach as int
    }

    pub closed spec fn spec_limit(&self) -> int {
        self.limit as int
    }

    pub closed spec fn spec_stencil(&self) -> Seq<[i32; 3]> {
        self.stencil@
    }

    pub closed spec fn spec_built(&self) -> bool {
        self.built
    }

    /// The lists of the atoms, one per atom.
    pub closed spec fn spec_lists(&self) -> Seq<Seq<usize>> {
        Seq::new(self.neighbors@.len(), |i: int| self.neighbors@[i]@)
    }

    /// Whether the list is what a build from `bins` with the test `within`
    /// leaves: one list per atom, each as `spec_neighbors` says.
    pub open spec fn spec_built_from<F: Fn(usize, usize) -> bool>(
        &self,
        bins: Seq<[usize; 3]>,
        within: F,
    ) -> bool {
        &&& self.spec_built()
        &&& self.spec_lists().len() == bins.len()
        &&& forall|i: int|
            0 <= i < bins.len() ==> #[trigger] self.spec_lists()[i] == spec_neighbors(
                within,
                i as usize,
                bins,
                self.spec_num_bins(),
                self.spec_stencil(),
                self.spec_stencil().len() as int,
            )
    }

    /// A well-formed list has the half stencil of its reach and limit.
    pub proof fn lemma_wf(&self)
        requires
            self.wf(),
        ensures
            spec_is_stencil(self.spec_stencil(), self.spec_reach(), self.spec_limit()),
            0 <= self.spec_reach() < i32::MAX,
            self.spec_num_bins()[0] > 0,
            self.spec_num_bins()[1] > 0,
            self.spec_num_bins()[2] > 0,
            spec_product(self.spec_num_bins()@) <= usize::MAX,
    {
    }

    /// What a list holds is within reach: an atom that `i` lists is another
    /// atom, and the test said yes for the two.
    pub proof fn lemma_listed_is_close<F: Fn(usize, usize) -> bool>(
        &self,
        bins: Seq<[usize; 3]>,
        within: F,
        i: usize,
        j: usize,
    )
        requires
            self.wf(),
            self.spec_built_from(bins, within),
            i < bins.len() <= usize::MAX,
            self.spec_lists()[i as int].contains(j),
        ensures
            j < bins.len(),
            j != i,
            call_ensures(within, (i, j), true),
    {
        lemma_neighbors(
            within,
            i,
            bins,
            self.num_bins,
            self.stencil@,
            self.stencil@.len() as int,
            j,
        );
    }

    /// The half list names a pair once. Take two atoms whose bins differ by
    /// no more than the reach along each axis and are near enough, and for
    /// which the test says yes both ways. After a build exactly one of them
    /// lists the other: the one whose stencil reaches the other's bin and,
    /// if the two share a bin, the earlier of the two.
    pub proof fn lemma_pair_listed_once<F: Fn(usize, usize) -> bool>(
        &self,
        bins: Seq<[usize; 3]>,
        within: F,
        i: usize,
        j: usize,
    )
        requires
            self.wf(),
            self.spec_built_from(bins, within),
            spec_bins_fit(bins, self.spec_num_bins(), self.spec_stencil()),
            i < bins.len() <= usize::MAX,
            j < bins.len(),
            i != j,
            call_ensures(within, (i, j), true),
            call_ensures(within, (j, i), true),
            -self.spec_reach() <= bins[j as int][0] - bins[i as int][0] <= self.spec_reach(),
            -self.spec_reach() <= bins[j as int][1] - bins[i as int][1] <= self.spec_reach(),
            -self.spec_reach() <= bins[j as int][2] - bins[i as int][2] <= self.spec_reach(),
            spec_near(
                bins[j as int][0] - bins[i as int][0],
                bins[j as int][1] - bins[i as int][1],
                bins[j as int][2] - bins[i as int][2],
                self.spec_limit(),
            ),
        ensures
            self.spec_lists()[i as int].contains(j) != self.spec_lists()[j as int].contains(i),
    {
        let stencil = self.stencil@;
        let nb = self.num_bins;
        let count = stencil.len() as int;
        let di = bins[j as int][0] - bins[i as int][0];
        let dj = bins[j as int][1] - bins[i as int][1];
        let dk = bins[j as int][2] - bins[i as int][2];
        let own = di == 0 && dj == 0 && dk == 0;
        let forth = self.spec_lists()[i as int].contains(j);
        let back = self.spec_lists()[j as int].contains(i);
        lemma_neighbors(within, i, bins, nb, stencil, count, j);
        lemma_neighbors(within, j, bins, nb, stencil, count, i);
        lemma_stencil_half(stencil, self.reach as int, self.limit as int, di, dj, dk);
        // what listing in either direction comes to
        assert(forth <==> (spec_holds(stencil, di, dj, dk) && (own ==> i < j))) by {
            if forth {
                let t = choose|t: int|
                    0 <= t < count && #[trigger] spec_lists_through(
                        within,
                        i,
                        j,
                        bins,
                        nb,
                        stencil,
                        t,
                    );
                lemma_reaches(bins, nb, stencil, i, j, t);
                assert(spec_at(stencil, t, di, dj, dk));
            }
            if spec_holds(stencil, di, dj, dk) && (own ==> i < j) {
                let t = choose|t: int|
                    0 <= t < stencil.len() && #[trigger] spec_at(stencil, t, di, dj, dk);
                lemma_reaches(bins, nb, stencil, i, j, t);
                assert(spec_lists_through(within, i, j, bins, nb, stencil, t));
            }
        }
        assert(back <==> (spec_holds(stencil, -di, -dj, -dk) && (own ==> j < i))) by {
            if back {
                let t = choose|t: int|
                    0 <= t < count && #[trigger] spec_lists_through(
                        within,
                        j,
                        i,
                        bins,
                        nb,
                        stencil,
                        t,
                    );
                lemma_reaches(bins, nb, stencil, j, i, t);
                assert(spec_at(stencil, t, -di, -dj, -dk));
            }
            if spec_holds(stencil, -di, -dj, -dk) && (own ==> j < i) {
                let t = choose|t: int|
                    0 <= t < stencil.len() && #[trigger] spec_at(stencil, t, -di, -dj, -dk);
                lemma_reaches(bins, nb, stencil, j, i, t);
                assert(spec_lists_through(within, j, i, bins, nb, stencil, t));
            }
        }
    }

    /// After a build no list names an atom twice.
    pub proof fn lemma_listed_once_each<F: Fn(usize, usize) -> bool>(
        &self,
        bins: Seq<[usize; 3]>,
        within: F,
        i: usize,
    )
        requires
            self.wf(),
            self.spec_built_from(bins, within),
            spec_bins_fit(bins, self.spec_num_bins(), self.spec_stencil()),
            i < bins.len() <= usize::MAX,
        ensures
            self.spec_lists()[i as int].no_duplicates(),
    {
        lemma_neighbors_distinct(
            within,
            i,
            bins,
            self.num_bins,
            self.stencil@,
            self.reach as int,
            self.limit as int,
            self.stencil@.len() as int,
        );
    }

    /// A build depends on nothing but the bins, the test and the grid: two
    /// lists over the same grid that were built from the same bins with the
    /// same test hold the same lists.
    pub proof fn lemma_rebuild_same<F: Fn(usize, usize) -> bool>(
        &self,
        other: &Self,
        bins: Seq<[usize; 3]>,
        within: F,
    )
        requires
            self.spec_built_from(bins, within),
            other.spec_built_from(bins, within),
            self.spec_num_bins() == other.spec_num_bins(),
            self.spec_stencil() == other.spec_stencil(),
        ensures
            self.spec_lists() == other.spec_lists(),
    {
        assert(self.spec_lists() =~= other.spec_lists());
    }

    /// An empty list over a grid of `num_bins` bins, with the half stencil
    /// that reaches `reach` bins and keeps the offsets whose squared corner
    /// distance, in bins, is below `limit`.
    pub fn new(num_bins: [usize; 3], reach: i32, limit: u64) -> (nl: Self)
        requires
            0 <= reach < i32::MAX,
            num_bins[0] > 0,
            num_bins[1] > 0,
            num_bins[2] > 0,
            spec_product(num_bins@) <= usize::MAX,
        ensures
            nl.wf(),
            nl.spec_num_bins() == num_bins,
            nl.spec_reach() == reach,
            nl.spec_limit() == limit,
            !nl.spec_built(),
            nl.spec_lists().len() == 0,
    {
        let stencil: Vec<[i32; 3]> = compute_stencil(reach, limit);
        NeighborList { num_bins, reach, limit, stencil, neighbors: Vec::new(), built: false }
    }

    /// Moves the list to another grid, reach or limit. The stencil is
    /// computed anew and the lists are dropped: the list is not built any
    /// more.
    pub fn reset(&mut self, num_bins: [usize; 3], reach: i32, limit: u64)
        requires
            0 <= reach < i32::MAX,
            num_bins[0] > 0,
            num_bins[1] > 0,
            num_bins[2] > 0,
            spec_product(num_bins@) <= usize::MAX,
        ensures
            final(self).wf(),
            final(self).spec_num_bins() == num_bins,
            final(self).spec_reach() == reach,
            final(self).spec_limit() == limit,
            !final(self).spec_built(),
            final(self).spec_lists().len() == 0,
    {
        self.num_bins = num_bins;
        self.reach = reach;
        self.limit = limit;
        self.stencil = compute_stencil(reach, limit);
        self.neighbors = Vec::new();
        self.built = false;
    }

    /// For every atom, the atoms it lists.
    pub fn neighbors(&self) -> (r: &Vec<Vec<usize>>)
        ensures
            r@.len() == self.spec_lists().len(),
            forall|i: int| 0 <= i < r@.len() ==> #[trigger] r@[i]@ == self.spec_lists()[i],
    {
        &self.neighbors
    }

    /// The offsets of the half stencil, in the order in which bins are
    /// searched.
    pub fn stencil(&self) -> (r: &Vec<[i32; 3]>)
        ensures
            r@ == self.spec_stencil(),
    {
        &self.stencil
    }

    pub fn num_bins(&self) -> (r: [usize; 3])
        ensures
            r == self.spec_num_bins(),
    {
        self.num_bins
    }

    pub fn is_built(&self) -> (b: bool)
        ensures
            b == self.spec_built(),
    {
        self.built
    }

    /// The number of bins of the grid.
    pub fn total_num_bins(&self) -> (n: usize)
        requires
            self.wf(),
        ensures
            n == spec_product(self.spec_num_bins()@),
    {
        proof {
            let s = self.num_bins@;
            lemma_product_prefix(s, 2);
            lemma_product_prefix(s, 1);
            assert(s.take(2).drop_last() =~= s.take(1));
            assert(s.take(1).drop_last() =~= s.take(0));
            assert(s.drop_last() =~= s.take(2));
            assert(spec_product(s.take(0)) == 1);
            assert(spec_product(s.take(1)) == 1 * s[0]);
            assert(spec_product(s.take(2)) == spec_product(s.take(1)) * s[1]);
            assert(spec_product(s) == spec_product(s.take(2)) * s[2]);
            assert(1 * s[0] == s[0]);
        }
        self.num_bins[0] * self.num_bins[1] * self.num_bins[2]
    }

    /// For every bin of the grid, the atoms in it, in ascending order.
    pub fn bin_atoms(&self, bins: &Vec<[usize; 3]>) -> (per_bin: Vec<Vec<usize>>)
        requires
            self.wf(),
            forall|a: int|
                0 <= a < bins@.len() ==> spec_in_bounds(#[trigger] bins@[a]@, self.spec_num_bins()@),
        ensures
            per_bin@.len() == spec_product(self.spec_num_bins()@),
            forall|b: int|
                0 <= b < per_bin@.len() ==> #[trigger] per_bin@[b]@ == spec_members(
                    bins@,
                    self.spec_num_bins(),
                    b,
                    bins@.len() as int,
                ),
    {
        let total: usize = self.total_num_bins();
        let mut per_bin: Vec<Vec<usize>> = Vec::new();
        let mut b: usize = 0;
        while b < total
            invariant
                b <= total,
                per_bin@.len() == b,
                forall|k: int| 0 <= k < b ==> (#[trigger] per_bin@[k])@ == Seq::<usize>::empty(),
            decreases total - b,
        {
            per_bin.push(Vec::new());
            b += 1;
        }
        let n: usize = bins.len();
        let mut a: usize = 0;
        while a < n
            invariant
                self.wf(),
                a <= n,
                n == bins@.len(),
                total == spec_product(self.num_bins@),
                per_bin@.len() == total,
                forall|k: int|
                    0 <= k < bins@.len() ==> spec_in_bounds(#[trigger] bins@[k]@, self.num_bins@),
                forall|k: int|
                    0 <= k < total ==> (#[trigger] per_bin@[k])@ == spec_members(
                        bins@,
                        self.num_bins,
                        k,
                        a as int,
                    ),
            decreases n - a,
        {
            let bin: [usize; 3] = bins[a];
            proof {
                lemma_linear_bound(bin@, self.num_bins@);
            }
            let flat: usize = linear_index(bin.as_slice(), self.num_bins.as_slice());
            let ghost before = per_bin@;
            per_bin[flat].push(a);
            proof {
                assert forall|k: int| 0 <= k < total implies (#[trigger] per_bin@[k])@
                    == spec_members(bins@, self.num_bins, k, a + 1) by {
                    if k != flat {
                        assert(per_bin@[k] == before[k]);
                    }
                }
            }
            a += 1;
        }
        per_bin
    }

    /// Builds the lists anew for atoms in the bins `bins`, asking `within(i,
    /// j)` whether atoms `i` and `j` are close enough. Atom `i` goes through
    /// the offsets of the stencil in order and through the atoms of each bin
    /// reached in ascending order, and lists every atom for which the answer
    /// is yes: in other bins every atom, in its own bin the atoms after
    /// itself. The lists that were there before play no part.
    pub fn update<F: Fn(usize, usize) -> bool>(&mut self, bins: &Vec<[usize; 3]>, within: F)
        requires
            old(self).wf(),
            spec_bins_fit(bins@, old(self).spec_num_bins(), old(self).spec_stencil()),
            forall|a: usize, b: usize| call_requires(within, (a, b)),
            spec_decided(within),
        ensures
            final(self).wf(),
            final(self).spec_num_bins() == old(self).spec_num_bins(),
            final(self).spec_reach() == old(self).spec_reach(),
            final(self).spec_limit() == old(self).spec_limit(),
            final(self).spec_stencil() == old(self).spec_stencil(),
            final(self).spec_built_from(bins@, within),
    {
        let n: usize = bins.len();
        let per_bin: Vec<Vec<usize>> = self.bin_atoms(bins);
        let mut neighbors: Vec<Vec<usize>> = Vec::new();
        let num_stencil: usize = self.stencil.len();
        let mut i: usize = 0;
        while i < n
            invariant
                self.wf(),
                *self == *old(self),
                i <= n,
                n == bins@.len(),
                num_stencil == self.stencil@.len(),
                spec_bins_fit(bins@, self.num_bins, self.stencil@),
                forall|a: usize, b: usize| call_requires(within, (a, b)),
                spec_decided(within),
                per_bin@.len() == spec_product(self.num_bins@),
                forall|b: int|
                    0 <= b < per_bin@.len() ==> #[trigger] per_bin@[b]@ == spec_members(
                        bins@,
                        self.num_bins,
                        b,
                        bins@.len() as int,
                    ),
                neighbors@.len() == i,
                forall|k: int|
                    0 <= k < i ==> (#[trigger] neighbors@[k])@ == spec_neighbors(
                        within,
                        k as usize,
                        bins@,
                        self.num_bins,
                        self.stencil@,
                        self.stencil@.len() as int,
                    ),
            decreases n - i,
        {
            let bin: [usize; 3] = bins[i];
            let mut list: Vec<usize> = Vec::new();
            let mut s: usize = 0;
            while s < num_stencil
                invariant
                    self.wf(),
                    i < n,
                    n == bins@.len(),
                    bin == bins@[i as int],
                    s <= num_stencil,
                    num_stencil == self.stencil@.len(),
                    spec_bins_fit(bins@, self.num_bins, self.stencil@),
                    forall|a: usize, b: usize| call_requires(within, (a, b)),
                    spec_decided(within),
                    per_bin@.len() == spec_product(self.num_bins@),
                    forall|b: int|
                        0 <= b < per_bin@.len() ==> #[trigger] per_bin@[b]@ == spec_members(
                            bins@,
                            self.num_bins,
                            b,
                            bins@.len() as int,
                        ),
                    list@ == spec_neighbors(
                        within,
                        i,
                        bins@,
                        self.num_bins,
                        self.stencil@,
                        s as int,
                    ),
                decreases num_stencil - s,
            {
                let offset: [i32; 3] = self.stencil[s];
                assert(spec_shift_in_grid(bins@[i as int], self.stencil@[s as int], self.num_bins));
                let target: [usize; 3] = [
                    shift(bin[0], offset[0]),
                    shift(bin[1], offset[1]),
                    shift(bin[2], offset[2]),
                ];
                proof {
                    assert(target@ =~= spec_shifted(bin, offset));
                    lemma_linear_bound(target@, self.num_bins@);
                }
                let flat: usize = linear_index(target.as_slice(), self.num_bins.as_slice());
                let members: &Vec<usize> = &per_bin[flat];
                let ghost candidates = spec_candidates(i, bins@, self.num_bins, self.stencil@, s as int);
                let ghost start = list@;
                assert(members@ == candidates);
                let count: usize = members.len();
                let own: bool = offset[0] == 0 && offset[1] == 0 && offset[2] == 0;
                let mut m: usize = 0;
                while m < count
                    invariant
                        m <= count,
                        own == spec_own_bin(self.stencil@[s as int]),
                        count == members@.len(),
                        members@ == candidates,
                        forall|a: usize, b: usize| call_requires(within, (a, b)),
                        spec_decided(within),
                        list@ == start + spec_kept(within, i, own, candidates, m as int),
                    decreases count - m,
                {
                    let j: usize = members[m];
                    let counts: bool = if own {
                        i < j
                    } else {
                        j != i
                    };
                    if counts {
                        if within(i, j) {
                            list.push(j);
                        }
                    }
                    assert(list@ =~= start + spec_kept(within, i, own, candidates, m + 1));
                    m += 1;
                }
                s += 1;
            }
            neighbors.push(list);
            i += 1;
        }
        self.neighbors = neighbors;
        self.built = true;
        proof {
            assert forall|k: int| 0 <= k < bins@.len() implies #[trigger] self.spec_lists()[k]
                == spec_neighbors(
                within,
                k as usize,
                bins@,
                self.spec_num_bins(),
                self.spec_stencil(),
                self.spec_stencil().len() as int,
            ) by {}
        }
    }
}

/// The coordinate `offset` away from `coord`.
fn shift(coord: usize, offset: i32) -> (r: usize)
    requires
        0 <= coord + offset <= usize::MAX,
    ensures
        r == coord + offset,
{
    if offset < 0 {
        let back: i64 = -(offset as i64);
        coord - (back as usize)
    } else {
        coord + (offset as usize)
    }
}

} // verus!

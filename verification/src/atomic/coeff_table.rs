//! The square table of pair coefficients that a pairwise potential keeps,
//! one cell for every ordered pair of atom types.

use vstd::arithmetic::div_mod::{
    lemma_fundamental_div_mod,
    lemma_fundamental_div_mod_converse_div,
    lemma_fundamental_div_mod_converse_mod,
    lemma_multiply_divide_lt,
};
use vstd::prelude::*;

verus! {

/// Row-major position of cell `(i, j)` in a table with `n` types.
pub open spec fn flat_index(n: nat, i: nat, j: nat) -> nat {
    n * i + j
}

/// Row-major positions of an `n` by `n` table are in range, and each one
/// determines its row and column.
pub proof fn lemma_flat_index(n: nat, i: nat, j: nat)
    requires
        i < n,
        j < n,
    ensures
        flat_index(n, i, j) < n * n,
        flat_index(n, i, j) / n == i,
        flat_index(n, i, j) % n == j,
{
    let k = flat_index(n, i, j) as int;
    assert(n * i == i * n) by (nonlinear_arith);
    lemma_fundamental_div_mod_converse_div(k, n as int, i as int, j as int);
    lemma_fundamental_div_mod_converse_mod(k, n as int, i as int, j as int);
    assert(n * i + j < n * n) by (nonlinear_arith)
        requires
            i < n,
            j < n,
    ;
}

/// Every position below `n * n` is the row-major position of the cell in row
/// `k / n` and column `k % n`.
pub proof fn lemma_flat_index_onto(n: nat, k: nat)
    requires
        k < n * n,
    ensures
        k / n < n,
        k % n < n,
        flat_index(n, k / n, k % n) == k,
{
    assert(n > 0) by (nonlinear_arith)
        requires
            k < n * n,
    ;
    lemma_fundamental_div_mod(k as int, n as int);
    lemma_multiply_divide_lt(k as int, n as int, n as int);
}

/// Coefficients for every ordered pair of `num_types` atom types. A cell is
/// either unset or holds one coefficient.
pub struct CoeffTable<C> {
    num_types: usize,
    cells: Vec<Option<C>>,
}

impl<C> CoeffTable<C> {
    /// The table has exactly one cell per ordered pair of types.
    pub closed spec fn wf(&self) -> bool {
        self.cells@.len() == self.num_types * self.num_types
    }

    pub closed spec fn spec_num_types(&self) -> nat {
        self.num_types as nat
    }

    /// What cell `(i, j)` holds: `None` while it is unset.
    pub closed spec fn spec_cell(&self, i: nat, j: nat) -> Option<C> {
        self.cells@[flat_index(self.num_types as nat, i, j) as int]
    }

    /// Whether every cell of the table holds a coefficient.
    pub open spec fn spec_all_set(&self) -> bool {
        forall|i: nat, j: nat|
            i < self.spec_num_types() && j < self.spec_num_types() ==> (
            #[trigger] self.spec_cell(i, j)) is Some
    }

    /// What cell `(i, j)` of a table holds after it was resized from `before`:
    /// the old content where the pair existed before, nothing elsewhere.
    pub open spec fn spec_carried(before: Self, i: nat, j: nat) -> Option<C> {
        if i < before.spec_num_types() && j < before.spec_num_types() {
            before.spec_cell(i, j)
        } else {
            None
        }
    }

    /// How a table `after` a resize to `n` types relates to the table `before`
    /// it: it has `n` types, every cell is carried over or unset, and a resize
    /// to the size the table already had leaves the table itself untouched.
    pub open spec fn spec_resized(before: Self, after: Self, n: nat) -> bool {
        &&& after.wf()
        &&& after.spec_num_types() == n
        &&& forall|i: nat, j: nat|
            i < n && j < n ==> #[trigger] after.spec_cell(i, j) == Self::spec_carried(before, i, j)
        &&& n == before.spec_num_types() ==> after == before
    }

    /// Resizing is idempotent: a second resize to the same number of types
    /// changes nothing.
    pub proof fn lemma_resize_idempotent(start: Self, once: Self, twice: Self, n: nat)
        requires
            Self::spec_resized(start, once, n),
            Self::spec_resized(once, twice, n),
        ensures
            twice == once,
    {
    }

    /// A table for no types at all.
    pub fn new() -> (t: Self)
        ensures
            t.wf(),
            t.spec_num_types() == 0,
    {
        CoeffTable { num_types: 0, cells: Vec::new() }
    }

    pub fn num_types(&self) -> (n: usize)
        ensures
            n == self.spec_num_types(),
    {
        self.num_types
    }

    /// Row-major position of the cell for the pair `(typei, typej)`.
    pub fn type_idx(&self, typei: usize, typej: usize) -> (idx: usize)
        requires
            self.wf(),
            typei < self.spec_num_types(),
            typej < self.spec_num_types(),
        ensures
            idx == flat_index(self.spec_num_types(), typei as nat, typej as nat),
            idx < self.spec_num_types() * self.spec_num_types(),
    {
        proof {
            lemma_flat_index(self.num_types as nat, typei as nat, typej as nat);
            assert(self.cells.len() == self.cells@.len());
            assert(0 <= self.num_types * typei <= flat_index(
                self.num_types as nat,
                typei as nat,
                typej as nat,
            )) by (nonlinear_arith);
        }
        self.num_types * typei + typej
    }
}

impl<C: Copy> CoeffTable<C> {
    /// The coefficient for the pair `(typei, typej)`, if one was set.
    pub fn coeff(&self, typei: usize, typej: usize) -> (c: Option<C>)
        requires
            self.wf(),
            typei < self.spec_num_types(),
            typej < self.spec_num_types(),
        ensures
            c == self.spec_cell(typei as nat, typej as nat),
    {
        let idx: usize = self.type_idx(typei, typej);
        self.cells[idx]
    }

    /// Grows or shrinks the table to `num_types` types. A pair of types that
    /// exists before and after keeps its cell; every other cell is unset.
    /// Asking for the size the table already has changes nothing.
    pub fn set_num_types(&mut self, num_types: usize)
        requires
            old(self).wf(),
            num_types * num_types <= usize::MAX,
        ensures
            Self::spec_resized(*old(self), *final(self), num_types as nat),
    {
        if self.num_types == num_types {
            return ;
        }
        let old_n: usize = self.num_types;
        let total: usize = num_types * num_types;
        let mut cells: Vec<Option<C>> = Vec::new();
        let mut k: usize = 0;
        while k < total
            invariant
                self.wf(),
                *self == *old(self),
                old_n == self.num_types,
                total == num_types * num_types,
                k <= total,
                cells@.len() == k,
                forall|p: int|
                    0 <= p < k ==> #[trigger] cells@[p] == Self::spec_carried(
                        *old(self),
                        (p / num_types as int) as nat,
                        (p % num_types as int) as nat,
                    ),
            decreases total - k,
        {
            proof {
                lemma_flat_index_onto(num_types as nat, k as nat);
            }
            let i: usize = k / num_types;
            let j: usize = k % num_types;
            let cell: Option<C> = if i < old_n && j < old_n {
                self.coeff(i, j)
            } else {
                None
            };
            cells.push(cell);
            k += 1;
        }
        self.num_types = num_types;
        self.cells = cells;
        proof {
            assert forall|i: nat, j: nat| i < num_types && j < num_types implies #[trigger] self
                .spec_cell(i, j) == Self::spec_carried(*old(self), i, j) by {
                lemma_flat_index(num_types as nat, i, j);
            }
        }
    }

    /// Stores `coeff` for the pair `(typei, typej)` and, by symmetry, for
    /// `(typej, typei)`. Every other cell is left as it was.
    pub fn set_coeff(&mut self, typei: usize, typej: usize, coeff: C)
        requires
            old(self).wf(),
            typei < old(self).spec_num_types(),
            typej < old(self).spec_num_types(),
        ensures
            final(self).wf(),
            final(self).spec_num_types() == old(self).spec_num_types(),
            forall|i: nat, j: nat|
                i < old(self).spec_num_types() && j < old(self).spec_num_types()
                    ==> #[trigger] final(self).spec_cell(i, j) == if (i == typei && j == typej) || (
                i == typej && j == typei) {
                    Some(coeff)
                } else {
                    old(self).spec_cell(i, j)
                },
    {
        let n: usize = self.num_types;
        let forward: usize = self.type_idx(typei, typej);
        let backward: usize = self.type_idx(typej, typei);
        self.cells.set(forward, Some(coeff));
        self.cells.set(backward, Some(coeff));
        proof {
            assert forall|i: nat, j: nat| i < n && j < n implies #[trigger] self.spec_cell(i, j)
                == if (i == typei && j == typej) || (i == typej && j == typei) {
                Some(coeff)
            } else {
                old(self).spec_cell(i, j)
            } by {
                lemma_flat_index(n as nat, i, j);
                lemma_flat_index(n as nat, typei as nat, typej as nat);
                lemma_flat_index(n as nat, typej as nat, typei as nat);
            }
        }
    }

    /// Whether every pair of types has a coefficient.
    pub fn all_set(&self) -> (b: bool)
        requires
            self.wf(),
        ensures
            b == self.spec_all_set(),
    {
        let mut k: usize = 0;
        while k < self.cells.len()
            invariant
                self.wf(),
                k <= self.cells@.len(),
                forall|p: int| 0 <= p < k ==> (#[trigger] self.cells@[p]) is Some,
            decreases self.cells@.len() - k,
        {
            if self.cells[k].is_none() {
                proof {
                    lemma_flat_index_onto(self.num_types as nat, k as nat);
                    let i = (k / self.num_types) as nat;
                    let j = (k % self.num_types) as nat;
                    assert(self.spec_cell(i, j) is None);
                }
                return false;
            }
            k += 1;
        }
        proof {
            assert forall|i: nat, j: nat|
                i < self.spec_num_types() && j < self.spec_num_types() implies (
            #[trigger] self.spec_cell(i, j)) is Some by {
                lemma_flat_index(self.num_types as nat, i, j);
            }
        }
        true
    }
}

} // verus!

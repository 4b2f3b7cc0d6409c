//! The atoms one worker knows, as parallel arrays: the atoms it owns first,
//! the ghosts, which are copies of atoms owned elsewhere, after them.
//!
//! The store does not look into positions and velocities; it carries them as
//! values of a type `V` that the caller chooses.

use crate::utils::select::{
    gather,
    lemma_picked,
    lemma_picked_prefix,
    lemma_picked_without_one,
    mark,
    pick,
    spec_gathered,
    spec_marked,
    spec_picked,
};
use vstd::prelude::*;

verus! {

/// One atom as it travels between workers.
#[derive(Clone, Copy, Debug)]
pub struct Atom<V> {
    pub id: usize,
    pub type_: usize,
    pub position: V,
    pub velocity: V,
}

/// The id that the next new atom gets: one more than the largest of `ids`,
/// zero if there is none.
pub open spec fn spec_next_id(ids: Seq<usize>) -> int
    decreases ids.len(),
{
    if ids.len() == 0 {
        0
    } else {
        let rest = spec_next_id(ids.drop_last());
        if ids.last() + 1 > rest {
            ids.last() + 1
        } else {
            rest
        }
    }
}

/// Every id is below the next id.
pub proof fn lemma_next_id(ids: Seq<usize>, k: int)
    requires
        0 <= k < ids.len(),
    ensures
        ids[k] < spec_next_id(ids),
    decreases ids.len(),
{
    if k < ids.len() - 1 {
        lemma_next_id(ids.drop_last(), k);
    }
}

/// Whether no id occurs twice.
pub open spec fn spec_distinct(ids: Seq<usize>) -> bool {
    forall|a: int, b: int| 0 <= a < b < ids.len() ==> ids[a] != ids[b]
}

/// Atom properties during a simulation, forces aside.
pub struct Atoms<T, V> {
    ids: Vec<usize>,
    types: Vec<usize>,
    positions: Vec<V>,
    velocities: Vec<V>,
    atom_types: Vec<T>,
    nlocal: usize,
    num_atoms_global: usize,
}

impl<T, V> Atoms<T, V> {
    pub closed spec fn spec_ids(&self) -> Seq<usize> {
        self.ids@
    }

    pub closed spec fn spec_types(&self) -> Seq<usize> {
        self.types@
    }

    pub closed spec fn spec_positions(&self) -> Seq<V> {
        self.positions@
    }

    pub closed spec fn spec_velocities(&self) -> Seq<V> {
        self.velocities@
    }

    pub closed spec fn spec_atom_types(&self) -> Seq<T> {
        self.atom_types@
    }

    pub closed spec fn spec_nlocal(&self) -> usize {
        self.nlocal
    }

    pub closed spec fn spec_num_atoms_global(&self) -> usize {
        self.num_atoms_global
    }

    /// The number of atoms known, owned and ghost.
    pub open spec fn spec_len(&self) -> int {
        self.spec_ids().len() as int
    }

    /// The arrays have one entry per atom, the owned atoms are among them,
    /// and no id occurs twice.
    pub open spec fn wf(&self) -> bool {
        &&& self.spec_types().len() == self.spec_ids().len()
        &&& self.spec_positions().len() == self.spec_ids().len()
        &&& self.spec_velocities().len() == self.spec_ids().len()
        &&& self.spec_nlocal() <= self.spec_ids().len()
        &&& spec_distinct(self.spec_ids())
    }

    /// The atom at position `i`.
    pub open spec fn spec_atom(&self, i: int) -> Atom<V> {
        Atom {
            id: self.spec_ids()[i],
            type_: self.spec_types()[i],
            position: self.spec_positions()[i],
            velocity: self.spec_velocities()[i],
        }
    }

    /// Whether the worker owns an atom with this id.
    pub open spec fn spec_owns(&self, id: usize) -> bool {
        exists|i: int| 0 <= i < self.spec_nlocal() && self.spec_ids()[i] == id
    }

    /// Whether the worker holds a ghost with this id.
    pub open spec fn spec_has_ghost(&self, id: usize) -> bool {
        exists|i: int| self.spec_nlocal() <= i < self.spec_len() && self.spec_ids()[i] == id
    }

    /// The position of the atom with this id, where there is one.
    pub open spec fn spec_find(&self, id: usize) -> int {
        choose|i: int| 0 <= i < self.spec_len() && self.spec_ids()[i] == id
    }

    /// Whether the four per-atom arrays of `self` are those of `before` with
    /// the entries at the positions `picks`, in that order.
    pub open spec fn spec_gathered_from(&self, before: &Self, picks: Seq<usize>) -> bool {
        &&& self.spec_ids() == spec_gathered(before.spec_ids(), picks)
        &&& self.spec_types() == spec_gathered(before.spec_types(), picks)
        &&& self.spec_positions() == spec_gathered(before.spec_positions(), picks)
        &&& self.spec_velocities() == spec_gathered(before.spec_velocities(), picks)
    }

    /// Whether the per-atom arrays and the owned count of `self` are what
    /// is left of `before` once the atoms at the positions `idxs` are taken
    /// out: the other atoms in their order, and as many owned atoms as were
    /// owned and not taken out.
    pub open spec fn spec_after_removal(&self, before: &Self, idxs: Seq<usize>) -> bool {
        let gone = spec_marked(idxs, before.spec_len());
        &&& self.spec_gathered_from(before, spec_picked(gone, false, 0, before.spec_len()))
        &&& self.spec_nlocal() == spec_picked(gone, false, 0, before.spec_nlocal() as int).len()
    }

    /// An atom that was taken out is gone: the store knows its id no more,
    /// neither as owned nor as a ghost.
    pub proof fn lemma_removed_is_gone(&self, before: &Self, idxs: Seq<usize>, i: int)
        requires
            before.wf(),
            before.spec_len() <= usize::MAX,
            self.spec_after_removal(before, idxs),
            0 <= i < before.spec_len(),
            idxs.contains(i as usize),
        ensures
            !self.spec_ids().contains(before.spec_ids()[i]),
            !self.spec_owns(before.spec_ids()[i]),
            !self.spec_has_ghost(before.spec_ids()[i]),
    {
        let gone = spec_marked(idxs, before.spec_len());
        let stay = spec_picked(gone, false, 0, before.spec_len());
        lemma_picked(gone, false, 0, before.spec_len());
        let id = before.spec_ids()[i];
        if self.spec_ids().contains(id) {
            let p = choose|p: int| 0 <= p < self.spec_ids().len() && self.spec_ids()[p] == id;
            let k = stay[p];
            assert(gone[k as int] == false);
            assert(gone[i]);
        }
        lemma_picked_prefix(gone, false, 0, before.spec_nlocal() as int, before.spec_len());
        if self.spec_owns(id) {
            let p = choose|p: int| 0 <= p < self.spec_nlocal() && self.spec_ids()[p] == id;
            assert(self.spec_ids().contains(id));
        }
        if self.spec_has_ghost(id) {
            let p = choose|p: int|
                self.spec_nlocal() <= p < self.spec_len() && self.spec_ids()[p] == id;
            assert(self.spec_ids().contains(id));
        }
    }

    /// What is owned after atoms were taken out was owned before.
    pub proof fn lemma_survivor_was_owned(&self, before: &Self, idxs: Seq<usize>, id: usize)
        requires
            before.wf(),
            before.spec_len() <= usize::MAX,
            self.spec_after_removal(before, idxs),
            self.spec_owns(id),
        ensures
            before.spec_owns(id),
    {
        let gone = spec_marked(idxs, before.spec_len());
        let n = before.spec_nlocal() as int;
        let stay = spec_picked(gone, false, 0, before.spec_len());
        let stay_owned = spec_picked(gone, false, 0, n);
        lemma_picked(gone, false, 0, n);
        lemma_picked_prefix(gone, false, 0, n, before.spec_len());
        let p = choose|p: int| 0 <= p < self.spec_nlocal() && self.spec_ids()[p] == id;
        assert(stay.take(stay_owned.len() as int)[p] == stay[p]);
        let k = stay_owned[p];
        assert(before.spec_ids()[k as int] == id);
    }

    /// Taking out one owned atom: the owned count falls by one, the atoms
    /// before it keep their places and those after it move one place down,
    /// each with its state.
    pub proof fn lemma_removed_one(&self, before: &Self, i: usize)
        requires
            before.wf(),
            before.spec_len() <= usize::MAX,
            i < before.spec_nlocal(),
            self.spec_after_removal(before, seq![i]),
        ensures
            self.spec_nlocal() == before.spec_nlocal() - 1,
            self.spec_len() == before.spec_len() - 1,
            forall|k: int| 0 <= k < i ==> #[trigger] self.spec_atom(k) == before.spec_atom(k),
            forall|k: int|
                i <= k < self.spec_len() ==> #[trigger] self.spec_atom(k) == before.spec_atom(k + 1),
    {
        lemma_picked_without_one(i, before.spec_len(), before.spec_len());
        lemma_picked_without_one(i, before.spec_len(), before.spec_nlocal() as int);
    }

    /// An owned atom that was not taken out is still owned, with the state
    /// it had.
    pub proof fn lemma_kept_stays_owned(&self, before: &Self, idxs: Seq<usize>, i: int)
        requires
            before.wf(),
            before.spec_len() <= usize::MAX,
            self.spec_after_removal(before, idxs),
            0 <= i < before.spec_nlocal(),
            !idxs.contains(i as usize),
        ensures
            self.spec_owns(before.spec_ids()[i]),
            exists|p: int|
                0 <= p < self.spec_nlocal() && #[trigger] self.spec_atom(p) == before.spec_atom(i),
    {
        let gone = spec_marked(idxs, before.spec_len());
        let n = before.spec_nlocal() as int;
        let stay = spec_picked(gone, false, 0, before.spec_len());
        let stay_owned = spec_picked(gone, false, 0, n);
        lemma_picked(gone.take(before.spec_len()), false, 0, n);
        assert(gone.take(before.spec_len()) =~= gone);
        lemma_picked_prefix(gone, false, 0, n, before.spec_len());
        assert(gone[i] == false);
        assert(stay_owned.contains(i as usize));
        let p = choose|p: int| 0 <= p < stay_owned.len() && stay_owned[p] == i as usize;
        assert(stay.take(stay_owned.len() as int)[p] == stay[p]);
        assert(self.spec_ids()[p] == before.spec_ids()[i]);
        assert(self.spec_atom(p) == before.spec_atom(i));
    }

    /// Whether the per-atom arrays and the owned count of `self` are those
    /// of `before` after `atom` was taken over. An atom owned already takes
    /// the new state in its place. Otherwise the atom stands at the end of
    /// the owned atoms: a ghost of it gives its place to the ghost that
    /// stood first, and without a ghost of it the ghost that stood first
    /// moves to the end.
    pub open spec fn spec_inserted_owned(&self, before: &Self, atom: Atom<V>) -> bool {
        let n = before.spec_nlocal() as int;
        if before.spec_owns(atom.id) {
            let i = before.spec_find(atom.id);
            &&& self.spec_nlocal() == n
            &&& self.spec_ids() == before.spec_ids()
            &&& self.spec_types() == before.spec_types().update(i, atom.type_)
            &&& self.spec_positions() == before.spec_positions().update(i, atom.position)
            &&& self.spec_velocities() == before.spec_velocities().update(i, atom.velocity)
        } else if before.spec_ids().contains(atom.id) {
            let i = before.spec_find(atom.id);
            &&& self.spec_nlocal() == n + 1
            &&& self.spec_ids() == before.spec_ids().update(i, before.spec_ids()[n]).update(
                n,
                atom.id,
            )
            &&& self.spec_types() == before.spec_types().update(i, before.spec_types()[n]).update(
                n,
                atom.type_,
            )
            &&& self.spec_positions() == before.spec_positions().update(
                i,
                before.spec_positions()[n],
            ).update(n, atom.position)
            &&& self.spec_velocities() == before.spec_velocities().update(
                i,
                before.spec_velocities()[n],
            ).update(n, atom.velocity)
        } else if n < before.spec_len() {
            &&& self.spec_nlocal() == n + 1
            &&& self.spec_ids() == before.spec_ids().push(before.spec_ids()[n]).update(n, atom.id)
            &&& self.spec_types() == before.spec_types().push(before.spec_types()[n]).update(
                n,
                atom.type_,
            )
            &&& self.spec_positions() == before.spec_positions().push(
                before.spec_positions()[n],
            ).update(n, atom.position)
            &&& self.spec_velocities() == before.spec_velocities().push(
                before.spec_velocities()[n],
            ).update(n, atom.velocity)
        } else {
            &&& self.spec_nlocal() == n + 1
            &&& self.spec_ids() == before.spec_ids().push(atom.id)
            &&& self.spec_types() == before.spec_types().push(atom.type_)
            &&& self.spec_positions() == before.spec_positions().push(atom.position)
            &&& self.spec_velocities() == before.spec_velocities().push(atom.velocity)
        }
    }

    /// Whether a ghost of `self`, at a place from `from` on, is the atom
    /// `atom`, state and all.
    pub open spec fn spec_ghost_is(&self, from: int, atom: Atom<V>) -> bool {
        exists|p: int| from <= p < self.spec_len() && #[trigger] self.spec_atom(p) == atom
    }

    /// What taking over `atom` comes to, place by place. The owned count
    /// grows by one unless the atom was owned already. The atom stands among
    /// the owned atoms with the state it came with. Every other owned atom
    /// keeps its place and state. Every ghost but a ghost of the atom is
    /// still a ghost with the same state, and no ghost is new.
    pub open spec fn spec_took_one(&self, before: &Self, atom: Atom<V>) -> bool {
        let n = before.spec_nlocal() as int;
        let m = self.spec_nlocal() as int;
        &&& m == if before.spec_owns(atom.id) {
            n
        } else {
            n + 1
        }
        &&& m <= self.spec_len()
        &&& forall|i: int| 0 <= i < n ==> #[trigger] self.spec_ids()[i] == before.spec_ids()[i]
        &&& forall|i: int|
            0 <= i < n && before.spec_ids()[i] != atom.id ==> #[trigger] self.spec_atom(i)
                == before.spec_atom(i)
        &&& exists|p: int| 0 <= p < m && #[trigger] self.spec_atom(p) == atom
        &&& !before.spec_owns(atom.id) ==> self.spec_atom(n) == atom
        &&& forall|i: int|
            n <= i < before.spec_len() && before.spec_ids()[i] != atom.id
                ==> #[trigger] self.spec_ghost_is(m, before.spec_atom(i))
        &&& forall|p: int|
            m <= p < self.spec_len() ==> #[trigger] before.spec_ghost_is(n, self.spec_atom(p))
        &&& forall|p: int| m <= p < self.spec_len() ==> #[trigger] self.spec_ids()[p] != atom.id
    }

    /// Taking over an atom comes to what `spec_took_one` says.
    pub proof fn lemma_took_one(&self, before: &Self, atom: Atom<V>)
        requires
            before.wf(),
            self.wf(),
            self.spec_inserted_owned(before, atom),
        ensures
            self.spec_took_one(before, atom),
    {
        let n = before.spec_nlocal() as int;
        let m = self.spec_nlocal() as int;
        let len = before.spec_len();
        if before.spec_ids().contains(atom.id) {
            let at = before.spec_find(atom.id);
            assert(0 <= at < len && before.spec_ids()[at] == atom.id);
            if before.spec_owns(atom.id) {
                let w = choose|w: int| 0 <= w < n && before.spec_ids()[w] == atom.id;
                assert(w == at);
                assert(self.spec_atom(at) == atom);
                assert forall|i: int|
                    n <= i < len && before.spec_ids()[i] != atom.id implies #[trigger] self.spec_ghost_is(
                    m,
                    before.spec_atom(i),
                ) by {
                    assert(self.spec_atom(i) == before.spec_atom(i));
                }
                assert forall|p: int| m <= p < self.spec_len() implies self.spec_ids()[p] != atom.id
                    && before.spec_ghost_is(n, #[trigger] self.spec_atom(p)) by {
                    assert(before.spec_atom(p) == self.spec_atom(p));
                }
            } else {
                assert(at >= n);
                assert(self.spec_atom(n) == atom);
                assert forall|i: int|
                    n <= i < len && before.spec_ids()[i] != atom.id implies #[trigger] self.spec_ghost_is(
                    m,
                    before.spec_atom(i),
                ) by {
                    if i == n {
                        assert(self.spec_atom(at) == before.spec_atom(i));
                    } else {
                        assert(self.spec_atom(i) == before.spec_atom(i));
                    }
                }
                assert forall|p: int| m <= p < self.spec_len() implies self.spec_ids()[p] != atom.id
                    && before.spec_ghost_is(n, #[trigger] self.spec_atom(p)) by {
                    if p == at {
                        assert(before.spec_atom(n) == self.spec_atom(p));
                    } else {
                        assert(before.spec_atom(p) == self.spec_atom(p));
                    }
                }
            }
        } else {
            assert(!before.spec_owns(atom.id)) by {
                if before.spec_owns(atom.id) {
                    let w = choose|w: int| 0 <= w < n && before.spec_ids()[w] == atom.id;
                    assert(before.spec_ids().contains(atom.id));
                }
            }
            assert(self.spec_atom(n) == atom);
            assert forall|i: int|
                n <= i < len && before.spec_ids()[i] != atom.id implies #[trigger] self.spec_ghost_is(
                m,
                before.spec_atom(i),
            ) by {
                if i == n {
                    assert(self.spec_atom(len) == before.spec_atom(i));
                } else {
                    assert(self.spec_atom(i) == before.spec_atom(i));
                }
            }
            assert forall|p: int| m <= p < self.spec_len() implies self.spec_ids()[p] != atom.id
                && before.spec_ghost_is(n, #[trigger] self.spec_atom(p)) by {
                if p == len {
                    assert(before.spec_atom(n) == self.spec_atom(p));
                    assert(before.spec_ids().contains(before.spec_ids()[n]));
                } else {
                    assert(before.spec_atom(p) == self.spec_atom(p));
                    assert(before.spec_ids().contains(before.spec_ids()[p]));
                }
            }
        }
    }

    /// An empty store.
    pub fn new() -> (atoms: Self)
        ensures
            atoms.wf(),
            atoms.spec_len() == 0,
            atoms.spec_nlocal() == 0,
            atoms.spec_atom_types().len() == 0,
            atoms.spec_num_atoms_global() == 0,
    {
        Atoms {
            ids: Vec::new(),
            types: Vec::new(),
            positions: Vec::new(),
            velocities: Vec::new(),
            atom_types: Vec::new(),
            nlocal: 0,
            num_atoms_global: 0,
        }
    }

    /// The number of atoms in the whole simulation.
    pub fn num_atoms_global(&self) -> (n: usize)
        ensures
            n == self.spec_num_atoms_global(),
    {
        self.num_atoms_global
    }

    /// Records the number of atoms in the whole simulation.
    pub fn set_num_atoms_global(&mut self, n: usize)
        ensures
            final(self).spec_num_atoms_global() == n,
            final(self).spec_ids() == old(self).spec_ids(),
            final(self).spec_types() == old(self).spec_types(),
            final(self).spec_positions() == old(self).spec_positions(),
            final(self).spec_velocities() == old(self).spec_velocities(),
            final(self).spec_atom_types() == old(self).spec_atom_types(),
            final(self).spec_nlocal() == old(self).spec_nlocal(),
    {
        self.num_atoms_global = n;
    }

    /// The number of atoms the worker owns.
    pub fn num_local_atoms(&self) -> (n: usize)
        ensures
            n == self.spec_nlocal(),
    {
        self.nlocal
    }

    /// The number of atoms the worker knows but does not own.
    pub fn num_ghost_atoms(&self) -> (n: usize)
        requires
            self.wf(),
        ensures
            n == self.spec_len() - self.spec_nlocal(),
    {
        self.ids.len() - self.nlocal
    }

    /// The number of atoms the worker knows.
    pub fn num_total_atoms(&self) -> (n: usize)
        ensures
            n == self.spec_len(),
    {
        self.ids.len()
    }

    pub fn ids(&self) -> (r: &Vec<usize>)
        ensures
            r@ == self.spec_ids(),
    {
        &self.ids
    }

    /// The position of the atom with the given id, if the worker knows it.
    pub fn id_to_idx(&self, id: usize) -> (r: Option<usize>)
        ensures
            match r {
                Some(i) => i < self.spec_len() && self.spec_ids()[i as int] == id && forall|k: int|
                    0 <= k < i ==> self.spec_ids()[k] != id,
                None => !self.spec_ids().contains(id),
            },
    {
        let mut i: usize = 0;
        while i < self.ids.len()
            invariant
                i <= self.ids@.len(),
                forall|k: int| 0 <= k < i ==> self.ids@[k] != id,
            decreases self.ids@.len() - i,
        {
            if self.ids[i] == id {
                return Some(i);
            }
            i += 1;
        }
        None
    }

    /// The type index of each atom.
    pub fn types(&self) -> (r: &Vec<usize>)
        ensures
            r@ == self.spec_types(),
    {
        &self.types
    }

    /// The position of each atom.
    pub fn positions(&self) -> (r: &Vec<V>)
        ensures
            r@ == self.spec_positions(),
    {
        &self.positions
    }

    /// The velocity of each atom.
    pub fn velocities(&self) -> (r: &Vec<V>)
        ensures
            r@ == self.spec_velocities(),
    {
        &self.velocities
    }

    /// The properties of each atom type.
    pub fn atom_types(&self) -> (r: &Vec<T>)
        ensures
            r@ == self.spec_atom_types(),
    {
        &self.atom_types
    }

    /// The number of atom types.
    pub fn num_types(&self) -> (n: usize)
        ensures
            n == self.spec_atom_types().len(),
    {
        self.atom_types.len()
    }

    /// Replaces the table of atom types.
    pub fn set_atom_types(&mut self, atom_types: Vec<T>)
        ensures
            final(self).spec_atom_types() == atom_types@,
            final(self).spec_ids() == old(self).spec_ids(),
            final(self).spec_types() == old(self).spec_types(),
            final(self).spec_positions() == old(self).spec_positions(),
            final(self).spec_velocities() == old(self).spec_velocities(),
            final(self).spec_nlocal() == old(self).spec_nlocal(),
            final(self).spec_num_atoms_global() == old(self).spec_num_atoms_global(),
    {
        self.atom_types = atom_types;
    }

    /// The properties of the type of the atom at position `idx`, which is
    /// where its mass is found.
    pub fn atom_type(&self, idx: usize) -> (r: &T)
        requires
            idx < self.spec_types().len(),
            self.spec_types()[idx as int] < self.spec_atom_types().len(),
        ensures
            *r == self.spec_atom_types()[self.spec_types()[idx as int] as int],
    {
        &self.atom_types[self.types[idx]]
    }
}

impl<T, V: Copy> Atoms<T, V> {
    /// Whether everything but the per-atom arrays and the owned count is as
    /// in `before`.
    pub open spec fn spec_same_tables(&self, before: &Self) -> bool {
        &&& self.spec_atom_types() == before.spec_atom_types()
        &&& self.spec_num_atoms_global() == before.spec_num_atoms_global()
    }

    /// Moves the atom at position `i` to `position`.
    pub fn set_position(&mut self, i: usize, position: V)
        requires
            old(self).wf(),
            i < old(self).spec_len(),
        ensures
            final(self).wf(),
            final(self).spec_positions() == old(self).spec_positions().update(i as int, position),
            final(self).spec_ids() == old(self).spec_ids(),
            final(self).spec_types() == old(self).spec_types(),
            final(self).spec_velocities() == old(self).spec_velocities(),
            final(self).spec_nlocal() == old(self).spec_nlocal(),
            final(self).spec_same_tables(old(self)),
    {
        self.positions.set(i, position);
    }

    /// Gives the atom at position `i` the velocity `velocity`.
    pub fn set_velocity(&mut self, i: usize, velocity: V)
        requires
            old(self).wf(),
            i < old(self).spec_len(),
        ensures
            final(self).wf(),
            final(self).spec_velocities() == old(self).spec_velocities().update(i as int, velocity),
            final(self).spec_ids() == old(self).spec_ids(),
            final(self).spec_types() == old(self).spec_types(),
            final(self).spec_positions() == old(self).spec_positions(),
            final(self).spec_nlocal() == old(self).spec_nlocal(),
            final(self).spec_same_tables(old(self)),
    {
        self.velocities.set(i, velocity);
    }

    /// Takes in an atom that another worker published: where an atom with
    /// its id is known, that atom takes over its type, position and
    /// velocity; otherwise it is appended as a ghost.
    pub fn update_or_push(&mut self, atom: Atom<V>)
        requires
            old(self).wf(),
        ensures
            final(self).wf(),
            final(self).spec_nlocal() == old(self).spec_nlocal(),
            final(self).spec_same_tables(old(self)),
            old(self).spec_ids().contains(atom.id) ==> {
                let i = old(self).spec_find(atom.id);
                &&& final(self).spec_ids() == old(self).spec_ids()
                &&& final(self).spec_types() == old(self).spec_types().update(i, atom.type_)
                &&& final(self).spec_positions() == old(self).spec_positions().update(
                    i,
                    atom.position,
                )
                &&& final(self).spec_velocities() == old(self).spec_velocities().update(
                    i,
                    atom.velocity,
                )
            },
            !old(self).spec_ids().contains(atom.id) ==> {
                &&& final(self).spec_ids() == old(self).spec_ids().push(atom.id)
                &&& final(self).spec_types() == old(self).spec_types().push(atom.type_)
                &&& final(self).spec_positions() == old(self).spec_positions().push(atom.position)
                &&& final(self).spec_velocities() == old(self).spec_velocities().push(
                    atom.velocity,
                )
            },
    {
        match self.id_to_idx(atom.id) {
            Some(i) => {
                proof {
                    let found = self.spec_find(atom.id);
                    assert(self.spec_ids()[i as int] == atom.id);
                    assert(found == i);
                }
                self.types.set(i, atom.type_);
                self.positions.set(i, atom.position);
                self.velocities.set(i, atom.velocity);
            },
            None => {
                self.ids.push(atom.id);
                self.types.push(atom.type_);
                self.positions.push(atom.position);
                self.velocities.push(atom.velocity);
            },
        }
    }

    /// Drops every ghost beyond the first `new_total` atoms.
    pub fn resize_ghost_region(&mut self, new_total: usize)
        requires
            old(self).wf(),
            old(self).spec_nlocal() <= new_total <= old(self).spec_len(),
        ensures
            final(self).wf(),
            final(self).spec_nlocal() == old(self).spec_nlocal(),
            final(self).spec_same_tables(old(self)),
            final(self).spec_ids() == old(self).spec_ids().take(new_total as int),
            final(self).spec_types() == old(self).spec_types().take(new_total as int),
            final(self).spec_positions() == old(self).spec_positions().take(new_total as int),
            final(self).spec_velocities() == old(self).spec_velocities().take(new_total as int),
    {
        self.ids.truncate(new_total);
        self.types.truncate(new_total);
        self.positions.truncate(new_total);
        self.velocities.truncate(new_total);
    }

    /// Drops all ghosts: the store keeps the atoms it owns and nothing else.
    pub fn truncate_ghosts(&mut self)
        requires
            old(self).wf(),
        ensures
            final(self).wf(),
            final(self).spec_nlocal() == old(self).spec_nlocal(),
            final(self).spec_len() == old(self).spec_nlocal(),
            final(self).spec_same_tables(old(self)),
            final(self).spec_ids() == old(self).spec_ids().take(old(self).spec_nlocal() as int),
            final(self).spec_types() == old(self).spec_types().take(old(self).spec_nlocal() as int),
            final(self).spec_positions() == old(self).spec_positions().take(
                old(self).spec_nlocal() as int,
            ),
            final(self).spec_velocities() == old(self).spec_velocities().take(
                old(self).spec_nlocal() as int,
            ),
    {
        let n: usize = self.nlocal;
        self.resize_ghost_region(n);
    }

    /// The id that `add_atoms` gives to the first of its coordinates.
    pub fn next_id(&self) -> (id: usize)
        requires
            spec_next_id(self.spec_ids()) <= usize::MAX,
        ensures
            id == spec_next_id(self.spec_ids()),
    {
        let mut next: usize = 0;
        let mut i: usize = 0;
        while i < self.ids.len()
            invariant
                i <= self.ids@.len(),
                spec_next_id(self.ids@) <= usize::MAX,
                next == spec_next_id(self.ids@.take(i as int)),
            decreases self.ids@.len() - i,
        {
            proof {
                let longer = self.ids@.take(i + 1);
                assert(longer.drop_last() =~= self.ids@.take(i as int));
                lemma_next_id(self.ids@, i as int);
            }
            if self.ids[i] + 1 > next {
                next = self.ids[i] + 1;
            }
            i += 1;
        }
        proof {
            assert(self.ids@.take(self.ids@.len() as int) =~= self.ids@);
        }
        next
    }

    /// Adds owned atoms of type `atom_type`, one for every coordinate whose
    /// flag in `keep` is set, each with the velocity `velocity`. Coordinate
    /// `k` stands for the id `next + k`, where `next` is one more than the
    /// largest id known before, or zero; coordinates that are not kept leave
    /// their ids unused here. The ghosts held before are dropped.
    pub fn add_atoms(&mut self, atom_type: usize, coords: &Vec<V>, keep: &Vec<bool>, velocity: V)
        requires
            old(self).wf(),
            coords@.len() == keep@.len(),
            spec_next_id(old(self).spec_ids()) + coords@.len() <= usize::MAX,
        ensures
            final(self).wf(),
            final(self).spec_same_tables(old(self)),
            final(self).spec_nlocal() == final(self).spec_len(),
            ({
                let owned = old(self).spec_nlocal() as int;
                let next = spec_next_id(old(self).spec_ids());
                let picks = spec_picked(keep@, true, 0, keep@.len() as int);
                &&& final(self).spec_ids() == old(self).spec_ids().take(owned) + Seq::new(
                    picks.len(),
                    |a: int| (next + picks[a]) as usize,
                )
                &&& final(self).spec_types() == old(self).spec_types().take(owned) + Seq::new(
                    picks.len(),
                    |a: int| atom_type,
                )
                &&& final(self).spec_positions() == old(self).spec_positions().take(owned)
                    + spec_gathered(coords@, picks)
                &&& final(self).spec_velocities() == old(self).spec_velocities().take(owned)
                    + Seq::new(picks.len(), |a: int| velocity)
            }),
    {
        let next: usize = self.next_id();
        let ghost all_ids = self.ids@;
        self.truncate_ghosts();
        let picks: Vec<usize> = pick(keep, true, 0, keep.len());
        let ghost owned = self.nlocal as int;
        let ghost base_ids = self.ids@;
        let ghost base_types = self.types@;
        let ghost base_positions = self.positions@;
        let ghost base_velocities = self.velocities@;
        proof {
            lemma_picked(keep@, true, 0, keep@.len() as int);
            assert forall|k: int| 0 <= k < base_ids.len() implies base_ids[k] < next by {
                lemma_next_id(all_ids, k);
            }
        }
        let mut a: usize = 0;
        while a < picks.len()
            invariant
                a <= picks@.len(),
                picks@ == spec_picked(keep@, true, 0, keep@.len() as int),
                coords@.len() == keep@.len(),
                next + coords@.len() <= usize::MAX,
                forall|p: int| 0 <= p < picks@.len() ==> (#[trigger] picks@[p]) < keep@.len(),
                forall|p: int, q: int| 0 <= p < q < picks@.len() ==> picks@[p] < picks@[q],
                forall|k: int| 0 <= k < base_ids.len() ==> base_ids[k] < next,
                spec_distinct(base_ids),
                base_ids.len() == owned,
                self.nlocal == owned,
                self.atom_types@ == old(self).atom_types@,
                self.num_atoms_global == old(self).num_atoms_global,
                self.ids@ == base_ids + Seq::new(a as nat, |p: int| (next + picks@[p]) as usize),
                self.types@ == base_types + Seq::new(a as nat, |p: int| atom_type),
                self.positions@ == base_positions + spec_gathered(coords@, picks@.take(a as int)),
                self.velocities@ == base_velocities + Seq::new(a as nat, |p: int| velocity),
            decreases picks@.len() - a,
        {
            let k: usize = picks[a];
            self.ids.push(next + k);
            self.types.push(atom_type);
            self.positions.push(coords[k]);
            self.velocities.push(velocity);
            proof {
                assert(self.ids@ =~= base_ids + Seq::new(
                    (a + 1) as nat,
                    |p: int| (next + picks@[p]) as usize,
                ));
                assert(self.types@ =~= base_types + Seq::new((a + 1) as nat, |p: int| atom_type));
                assert(self.positions@ =~= base_positions + spec_gathered(
                    coords@,
                    picks@.take(a + 1),
                ));
                assert(self.velocities@ =~= base_velocities + Seq::new(
                    (a + 1) as nat,
                    |p: int| velocity,
                ));
            }
            a += 1;
        }
        proof {
            assert(picks@.take(picks@.len() as int) =~= picks@);
        }
        self.nlocal = self.ids.len();
    }

    /// Removes the atoms at the positions `atom_idxs`. The atoms that stay
    /// keep their order, and the count of owned atoms goes down by the
    /// number of owned atoms removed.
    pub fn remove_idxs(&mut self, atom_idxs: &Vec<usize>)
        requires
            old(self).wf(),
            forall|a: int| 0 <= a < atom_idxs@.len() ==> atom_idxs@[a] < old(self).spec_len(),
        ensures
            final(self).wf(),
            final(self).spec_same_tables(old(self)),
            final(self).spec_after_removal(old(self), atom_idxs@),
    {
        let total: usize = self.ids.len();
        let gone: Vec<bool> = mark(atom_idxs, total);
        let stay: Vec<usize> = pick(&gone, false, 0, total);
        let stay_owned: Vec<usize> = pick(&gone, false, 0, self.nlocal);
        proof {
            lemma_picked(gone@, false, 0, total as int);
            lemma_picked_prefix(gone@, false, 0, self.nlocal as int, total as int);
        }
        let ids: Vec<usize> = gather(&self.ids, &stay);
        let types: Vec<usize> = gather(&self.types, &stay);
        let positions: Vec<V> = gather(&self.positions, &stay);
        let velocities: Vec<V> = gather(&self.velocities, &stay);
        self.ids = ids;
        self.types = types;
        self.positions = positions;
        self.velocities = velocities;
        self.nlocal = stay_owned.len();
    }

    /// Takes over an atom that crossed into this worker's subdomain: it
    /// becomes the last of the owned atoms. A ghost of it, if there was one,
    /// gives way; if the worker owned it already, only its state changes.
    /// The ghost that stood first makes room by moving to the place that
    /// became free, or to the end.
    pub fn insert_owned(&mut self, atom: Atom<V>)
        requires
            old(self).wf(),
        ensures
            final(self).wf(),
            final(self).spec_same_tables(old(self)),
            final(self).spec_owns(atom.id),
            forall|id: usize| old(self).spec_owns(id) ==> final(self).spec_owns(id),
            final(self).spec_inserted_owned(old(self), atom),
            final(self).spec_took_one(old(self), atom),
    {
        let n: usize = self.nlocal;
        let ghost before = *self;
        match self.id_to_idx(atom.id) {
            Some(i) => {
                proof {
                    assert(self.spec_find(atom.id) == i);
                }
                if i < n {
                    assert(self.spec_owns(atom.id));
                    self.types.set(i, atom.type_);
                    self.positions.set(i, atom.position);
                    self.velocities.set(i, atom.velocity);
                    assert(self.spec_ids()[i as int] == atom.id);
                } else {
                    assert(!self.spec_owns(atom.id));
                    let first_id: usize = self.ids[n];
                    let first_type: usize = self.types[n];
                    let first_position: V = self.positions[n];
                    let first_velocity: V = self.velocities[n];
                    self.ids.set(i, first_id);
                    self.types.set(i, first_type);
                    self.positions.set(i, first_position);
                    self.velocities.set(i, first_velocity);
                    self.ids.set(n, atom.id);
                    self.types.set(n, atom.type_);
                    self.positions.set(n, atom.position);
                    self.velocities.set(n, atom.velocity);
                    assert(n < self.ids.len());
                    self.nlocal = n + 1;
                    assert(self.spec_ids()[n as int] == atom.id);
                }
            },
            None => {
                assert(!self.spec_owns(atom.id));
                if n < self.ids.len() {
                    let first_id: usize = self.ids[n];
                    let first_type: usize = self.types[n];
                    let first_position: V = self.positions[n];
                    let first_velocity: V = self.velocities[n];
                    self.ids.push(first_id);
                    self.types.push(first_type);
                    self.positions.push(first_position);
                    self.velocities.push(first_velocity);
                    self.ids.set(n, atom.id);
                    self.types.set(n, atom.type_);
                    self.positions.set(n, atom.position);
                    self.velocities.set(n, atom.velocity);
                } else {
                    self.ids.push(atom.id);
                    self.types.push(atom.type_);
                    self.positions.push(atom.position);
                    self.velocities.push(atom.velocity);
                }
                assert(n < self.ids.len());
                self.nlocal = n + 1;
                assert(self.spec_ids()[n as int] == atom.id);
            },
        }
        proof {
            assert forall|id: usize| before.spec_owns(id) implies self.spec_owns(id) by {
                let w = choose|w: int| 0 <= w < before.spec_nlocal() && before.spec_ids()[w] == id;
                assert(self.spec_ids()[w] == id);
            }
            self.lemma_took_one(&before, atom);
        }
    }

    /// The atoms at the positions `idxs`, in that order, ready to be sent.
    pub fn pack(&self, idxs: &Vec<usize>) -> (atoms: Vec<Atom<V>>)
        requires
            self.wf(),
            forall|a: int| 0 <= a < idxs@.len() ==> idxs@[a] < self.spec_len(),
        ensures
            atoms@.len() == idxs@.len(),
            forall|a: int| 0 <= a < idxs@.len() ==> #[trigger] atoms@[a] == self.spec_atom(idxs@[a] as int),
    {
        let mut atoms: Vec<Atom<V>> = Vec::new();
        let mut a: usize = 0;
        while a < idxs.len()
            invariant
                self.wf(),
                a <= idxs@.len(),
                forall|p: int| 0 <= p < idxs@.len() ==> idxs@[p] < self.spec_len(),
                atoms@.len() == a,
                forall|p: int| 0 <= p < a ==> #[trigger] atoms@[p] == self.spec_atom(idxs@[p] as int),
            decreases idxs@.len() - a,
        {
            let i: usize = idxs[a];
            atoms.push(
                Atom {
                    id: self.ids[i],
                    type_: self.types[i],
                    position: self.positions[i],
                    velocity: self.velocities[i],
                },
            );
            a += 1;
        }
        atoms
    }

    /// The ids of the atoms at the positions `idxs`, in that order.
    pub fn ids_of(&self, idxs: &Vec<usize>) -> (ids: Vec<usize>)
        requires
            forall|a: int| 0 <= a < idxs@.len() ==> idxs@[a] < self.spec_len(),
        ensures
            ids@ == spec_gathered(self.spec_ids(), idxs@),
    {
        gather(&self.ids, idxs)
    }

    /// For every id received, the position of the atom with that id, if the
    /// worker knows it.
    pub fn locate(&self, ids: &Vec<usize>) -> (places: Vec<Option<usize>>)
        requires
            self.wf(),
        ensures
            places@.len() == ids@.len(),
            forall|a: int|
                0 <= a < ids@.len() ==> match #[trigger] places@[a] {
                    Some(i) => i < self.spec_len() && self.spec_ids()[i as int] == ids@[a],
                    None => !self.spec_ids().contains(ids@[a]),
                },
    {
        let mut places: Vec<Option<usize>> = Vec::new();
        let mut a: usize = 0;
        while a < ids.len()
            invariant
                a <= ids@.len(),
                places@.len() == a,
                forall|p: int|
                    0 <= p < a ==> match #[trigger] places@[p] {
                        Some(i) => i < self.spec_len() && self.spec_ids()[i as int] == ids@[p],
                        None => !self.spec_ids().contains(ids@[p]),
                    },
            decreases ids@.len() - a,
        {
            let place: Option<usize> = self.id_to_idx(ids[a]);
            places.push(place);
            a += 1;
        }
        places
    }

    /// The positions of the owned atoms whose flag in `inside` is set, in
    /// ascending order. `inside` has one flag per atom known.
    pub fn gather_owned_idxs(&self, inside: &Vec<bool>) -> (idxs: Vec<usize>)
        requires
            self.wf(),
            inside@.len() == self.spec_len(),
        ensures
            idxs@ == spec_picked(inside@, true, 0, self.spec_nlocal() as int),
    {
        pick(inside, true, 0, self.nlocal)
    }

    /// The positions of the ghosts whose flag in `inside` is set, in
    /// ascending order. `inside` has one flag per atom known.
    pub fn gather_ghost_idxs(&self, inside: &Vec<bool>) -> (idxs: Vec<usize>)
        requires
            self.wf(),
            inside@.len() == self.spec_len(),
        ensures
            idxs@ == spec_picked(inside@, true, self.spec_nlocal() as int, self.spec_len()),
    {
        pick(inside, true, self.nlocal, self.ids.len())
    }
}

} // verus!

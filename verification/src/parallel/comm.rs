//! The three exchanges between neighbouring workers, as far as they are
//! decisions about atoms: which faces are served in which order, what is
//! sent, and what becomes of what is received.

use crate::atoms::{Atom, Atoms};
use crate::parallel::message::AtomMessage;
use crate::utils::direction::Direction;
use crate::utils::select::{lemma_picked, spec_picked};
use vstd::prelude::*;

verus! {

/// The faces in the order in which ghosts are published and ownership is
/// exchanged.
pub open spec fn spec_forward_order() -> Seq<Direction> {
    seq![
        Direction::Xlo,
        Direction::Xhi,
        Direction::Ylo,
        Direction::Yhi,
        Direction::Zlo,
        Direction::Zhi,
    ]
}

/// The faces in the order in which ghosts are published and ownership is
/// exchanged: face `k` is the one with index `k`.
pub fn forward_order() -> (order: [Direction; 6])
    ensures
        order@ == spec_forward_order(),
        forall|k: int| 0 <= k < 6 ==> (#[trigger] order@[k]).spec_index() == k,
{
    let order: [Direction; 6] = [
        Direction::Xlo,
        Direction::Xhi,
        Direction::Ylo,
        Direction::Yhi,
        Direction::Zlo,
        Direction::Zhi,
    ];
    assert(order@ =~= spec_forward_order());
    order
}

/// The faces in the order in which forces on ghosts are returned: the order
/// of publishing, backwards.
pub fn reverse_order() -> (order: [Direction; 6])
    ensures
        order@ == spec_forward_order().reverse(),
        forall|k: int| 0 <= k < 6 ==> (#[trigger] order@[k]).spec_index() == 5 - k,
{
    let order: [Direction; 6] = [
        Direction::Zhi,
        Direction::Zlo,
        Direction::Yhi,
        Direction::Ylo,
        Direction::Xhi,
        Direction::Xlo,
    ];
    assert(order@ =~= spec_forward_order().reverse());
    order
}

/// What a worker publishes across a face: the owned atoms whose flag in
/// `inside` is set, in the order in which it holds them. With no such atom
/// the message is empty.
pub fn send_forward_comm<T, V: Copy, S>(atoms: &Atoms<T, V>, inside: &Vec<bool>) -> (message:
    AtomMessage<V, S>)
    requires
        atoms.wf(),
        inside@.len() == atoms.spec_len(),
    ensures
        message matches AtomMessage::Atom(sent) && ({
            let picks = spec_picked(inside@, true, 0, atoms.spec_nlocal() as int);
            &&& sent@.len() == picks.len()
            &&& forall|a: int|
                0 <= a < picks.len() ==> #[trigger] sent@[a] == atoms.spec_atom(picks[a] as int)
        }),
{
    let idxs: Vec<usize> = atoms.gather_owned_idxs(inside);
    proof {
        assert(inside.len() == inside@.len());
        lemma_picked(inside@, true, 0, atoms.spec_nlocal() as int);
    }
    AtomMessage::Atom(atoms.pack(&idxs))
}

/// Whether the store `after` holds what `before` held and the first `n`
/// atoms of `received` on top: no owned atom is gained or lost, the atoms
/// known before keep their places, an atom whose id is received takes the
/// state that was received for it last, every other atom keeps its state,
/// and what is new is a ghost with a received id.
pub open spec fn spec_absorbed<T, V>(
    before: &Atoms<T, V>,
    after: &Atoms<T, V>,
    received: Seq<Atom<V>>,
    n: int,
) -> bool {
    &&& after.wf()
    &&& after.spec_nlocal() == before.spec_nlocal()
    &&& after.spec_atom_types() == before.spec_atom_types()
    &&& after.spec_num_atoms_global() == before.spec_num_atoms_global()
    &&& before.spec_len() <= after.spec_len()
    &&& forall|i: int| 0 <= i < before.spec_len() ==> after.spec_ids()[i] == before.spec_ids()[i]
    &&& forall|q: int|
        0 <= q < n ==> after.spec_ids().contains(#[trigger] received[q].id)
    &&& forall|i: int, q: int|
        0 <= i < after.spec_len() && 0 <= q < n && #[trigger] received[q].id
            == #[trigger] after.spec_ids()[i] && (forall|later: int|
            q < later < n ==> received[later].id != received[q].id) ==> after.spec_atom(i)
            == received[q]
    &&& forall|i: int|
        0 <= i < before.spec_len() && (forall|q: int|
            0 <= q < n ==> received[q].id != before.spec_ids()[i]) ==> #[trigger] after.spec_atom(
            i,
        ) == before.spec_atom(i)
    &&& forall|i: int|
        #![trigger after.spec_ids()[i]]
        before.spec_len() <= i < after.spec_len() ==> exists|q: int|
            0 <= q < n && #[trigger] received[q].id == after.spec_ids()[i]
}

/// Takes in the atoms that a neighbour published: each one updates the atom
/// with its id or is appended as a ghost.
pub fn recv_forward_comm<T, V: Copy>(atoms: &mut Atoms<T, V>, received: &Vec<Atom<V>>)
    requires
        old(atoms).wf(),
    ensures
        spec_absorbed(old(atoms), final(atoms), received@, received@.len() as int),
{
    let mut k: usize = 0;
    while k < received.len()
        invariant
            k <= received@.len(),
            old(atoms).wf(),
            spec_absorbed(old(atoms), atoms, received@, k as int),
        decreases received@.len() - k,
    {
        let ghost mid = *atoms;
        let atom: Atom<V> = received[k];
        atoms.update_or_push(atom);
        proof {
            let before = *old(atoms);
            let after = *atoms;
            if mid.spec_ids().contains(atom.id) {
                let at = mid.spec_find(atom.id);
                assert(after.spec_ids()[at] == atom.id);
                assert(after.spec_atom(at) == atom);
                assert forall|i: int| 0 <= i < after.spec_len() && i != at implies after.spec_atom(
                    i,
                ) == mid.spec_atom(i) by {}
            } else {
                let at = mid.spec_len();
                assert(after.spec_ids()[at] == atom.id);
                assert(after.spec_atom(at) == atom);
                assert forall|i: int| 0 <= i < mid.spec_len() implies after.spec_atom(i)
                    == mid.spec_atom(i) by {}
            }
            assert forall|q: int| 0 <= q < k + 1 implies after.spec_ids().contains(
                #[trigger] received@[q].id,
            ) by {
                if q < k {
                    assert(mid.spec_ids().contains(received@[q].id));
                    let p = choose|p: int|
                        0 <= p < mid.spec_ids().len() && mid.spec_ids()[p] == received@[q].id;
                    assert(after.spec_ids()[p] == received@[q].id);
                }
            }
            assert forall|i: int, q: int|
                0 <= i < after.spec_len() && 0 <= q < k + 1 && #[trigger] received@[q].id
                    == #[trigger] after.spec_ids()[i] && (forall|later: int|
                    q < later < k + 1 ==> received@[later].id != received@[q].id) implies after.spec_atom(
                i,
            ) == received@[q] by {
                if q < k {
                    assert(received@[k as int].id != received@[q].id);
                    assert(after.spec_atom(i) == mid.spec_atom(i));
                    assert(mid.spec_ids()[i] == received@[q].id);
                }
            }
            assert forall|i: int|
                0 <= i < before.spec_len() && (forall|q: int|
                    0 <= q < k + 1 ==> received@[q].id != before.spec_ids()[i]) implies #[trigger] after.spec_atom(
                i,
            ) == before.spec_atom(i) by {
                assert(received@[k as int].id != before.spec_ids()[i]);
                assert(mid.spec_ids()[i] == before.spec_ids()[i]);
                assert(mid.spec_atom(i) == before.spec_atom(i));
                assert(after.spec_atom(i) == mid.spec_atom(i));
            }
            assert forall|i: int|
                #![trigger after.spec_ids()[i]]
                before.spec_len() <= i < after.spec_len() implies exists|q: int|
                0 <= q < k + 1 && #[trigger] received@[q].id == after.spec_ids()[i] by {
                if i < mid.spec_len() {
                    let q = choose|q: int|
                        0 <= q < k && #[trigger] received@[q].id == mid.spec_ids()[i];
                    assert(received@[q].id == after.spec_ids()[i]);
                } else {
                    assert(received@[k as int].id == after.spec_ids()[i]);
                }
            }
        }
        k += 1;
    }
}

/// What is published arrives. Take a worker that publishes its owned atoms
/// flagged by `inside`, and a neighbour that takes in what was sent. Every
/// such atom is then known to the neighbour with the id, type, position and
/// velocity it has at the sender, in one place and no other, and that place
/// is among the ghosts unless the neighbour owned an atom of that id. The
/// neighbour owns as many atoms as before.
pub proof fn lemma_published_appears<T, V>(
    sender: &Atoms<T, V>,
    inside: Seq<bool>,
    sent: Seq<Atom<V>>,
    before: &Atoms<T, V>,
    after: &Atoms<T, V>,
    i: int,
)
    requires
        sender.wf(),
        inside.len() == sender.spec_len() <= usize::MAX,
        ({
            let picks = spec_picked(inside, true, 0, sender.spec_nlocal() as int);
            &&& sent.len() == picks.len()
            &&& forall|a: int|
                0 <= a < picks.len() ==> #[trigger] sent[a] == sender.spec_atom(picks[a] as int)
        }),
        before.wf(),
        spec_absorbed(before, after, sent, sent.len() as int),
        0 <= i < sender.spec_nlocal(),
        inside[i],
    ensures
        after.spec_nlocal() == before.spec_nlocal(),
        exists|p: int|
            0 <= p < after.spec_len() && #[trigger] after.spec_atom(p) == sender.spec_atom(i) && (
            !before.spec_owns(sender.spec_ids()[i]) ==> p >= after.spec_nlocal()) && forall|
                other: int,
            |
                0 <= other < after.spec_len() && after.spec_ids()[other] == sender.spec_ids()[i]
                    ==> other == p,
{
    let picks = spec_picked(inside, true, 0, sender.spec_nlocal() as int);
    lemma_picked(inside, true, 0, sender.spec_nlocal() as int);
    assert(picks.contains(i as usize));
    let a = choose|a: int| 0 <= a < picks.len() && picks[a] == i as usize;
    assert(sent[a] == sender.spec_atom(i));
    assert(after.spec_ids().contains(sent[a].id));
    let p = choose|p: int| 0 <= p < after.spec_ids().len() && after.spec_ids()[p] == sent[a].id;
    assert forall|later: int| a < later < sent.len() implies sent[later].id != sent[a].id by {
        assert(sent[later] == sender.spec_atom(picks[later] as int));
        assert(picks[a] < picks[later]);
    }
    assert(after.spec_atom(p) == sent[a]);
    if p < after.spec_nlocal() {
        assert(before.spec_ids()[p] == after.spec_ids()[p]);
    }
}

/// The ghosts whose forces go back across a face: the positions, in
/// ascending order, of the ghosts whose flag in `inside` is set, and their
/// ids in the same order. The ids are the first message of the reverse
/// exchange; the forces at those positions are the second.
pub fn send_reverse_comm<T, V: Copy>(atoms: &Atoms<T, V>, inside: &Vec<bool>) -> (r: (
    Vec<usize>,
    Vec<usize>,
))
    requires
        atoms.wf(),
        inside@.len() == atoms.spec_len(),
    ensures
        r.0@ == spec_picked(inside@, true, atoms.spec_nlocal() as int, atoms.spec_len()),
        r.1@.len() == r.0@.len(),
        forall|a: int|
            0 <= a < r.0@.len() ==> r.0@[a] < atoms.spec_len() && #[trigger] r.1@[a]
                == atoms.spec_ids()[r.0@[a] as int],
{
    let idxs: Vec<usize> = atoms.gather_ghost_idxs(inside);
    proof {
        assert(inside.len() == inside@.len());
        lemma_picked(inside@, true, atoms.spec_nlocal() as int, atoms.spec_len());
    }
    let ids: Vec<usize> = atoms.ids_of(&idxs);
    (idxs, ids)
}

/// Where the forces received across a face are added: for every id
/// received, the position of the atom with that id, or nothing if the worker
/// does not know it.
pub fn recv_reverse_comm<T, V: Copy>(atoms: &Atoms<T, V>, ids: &Vec<usize>) -> (places: Vec<
    Option<usize>,
>)
    requires
        atoms.wf(),
    ensures
        places@.len() == ids@.len(),
        forall|a: int|
            0 <= a < ids@.len() ==> match #[trigger] places@[a] {
                Some(i) => i < atoms.spec_len() && atoms.spec_ids()[i as int] == ids@[a],
                None => !atoms.spec_ids().contains(ids@[a]),
            },
{
    atoms.locate(ids)
}

/// The atoms a worker hands over across a face: the positions, in ascending
/// order, of the owned atoms whose flag in `outside` is set.
pub fn collect_comm_atoms<T, V: Copy>(atoms: &Atoms<T, V>, outside: &Vec<bool>) -> (idxs: Vec<
    usize,
>)
    requires
        atoms.wf(),
        outside@.len() == atoms.spec_len(),
    ensures
        idxs@ == spec_picked(outside@, true, 0, atoms.spec_nlocal() as int),
{
    atoms.gather_owned_idxs(outside)
}

/// Hands the atoms at `idxs` over: they are packed for the neighbour and
/// taken out of the store.
pub fn send_atoms<T, V: Copy>(atoms: &mut Atoms<T, V>, idxs: &Vec<usize>) -> (sent: Vec<Atom<V>>)
    requires
        old(atoms).wf(),
        forall|a: int| 0 <= a < idxs@.len() ==> idxs@[a] < old(atoms).spec_len(),
    ensures
        final(atoms).wf(),
        final(atoms).spec_same_tables(old(atoms)),
        final(atoms).spec_after_removal(old(atoms), idxs@),
        sent@.len() == idxs@.len(),
        forall|a: int|
            0 <= a < idxs@.len() ==> #[trigger] sent@[a] == old(atoms).spec_atom(idxs@[a] as int),
{
    let sent: Vec<Atom<V>> = atoms.pack(idxs);
    atoms.remove_idxs(idxs);
    sent
}

/// An owned atom that is not flagged stays. Take a worker that hands over
/// its owned atoms flagged by `outside`. An owned atom without the flag is
/// not among them, and afterwards the worker still owns it, with the state
/// it had.
pub proof fn lemma_unflagged_stays<T, V>(
    before: &Atoms<T, V>,
    after: &Atoms<T, V>,
    outside: Seq<bool>,
    i: int,
)
    requires
        before.wf(),
        outside.len() == before.spec_len() <= usize::MAX,
        after.spec_after_removal(
            before,
            spec_picked(outside, true, 0, before.spec_nlocal() as int),
        ),
        0 <= i < before.spec_nlocal(),
        !outside[i],
    ensures
        !spec_picked(outside, true, 0, before.spec_nlocal() as int).contains(i as usize),
        after.spec_owns(before.spec_ids()[i]),
        exists|p: int|
            0 <= p < after.spec_nlocal() && #[trigger] after.spec_atom(p) == before.spec_atom(i),
{
    let idxs = spec_picked(outside, true, 0, before.spec_nlocal() as int);
    lemma_picked(outside, true, 0, before.spec_nlocal() as int);
    if idxs.contains(i as usize) {
        let a = choose|a: int| 0 <= a < idxs.len() && idxs[a] == i as usize;
        assert(outside[idxs[a] as int]);
    }
    after.lemma_kept_stays_owned(before, idxs, i);
}

/// Whether one of the first `n` atoms received that lie inside the
/// subdomain has the id `id`.
pub open spec fn spec_named<V>(received: Seq<Atom<V>>, inside: Seq<bool>, n: int, id: usize) -> bool {
    exists|q: int| 0 <= q < n && inside[q] && #[trigger] received[q].id == id
}

/// Whether `q` is, among the first `n` atoms received, the last one inside
/// the subdomain with its id.
pub open spec fn spec_last_named<V>(received: Seq<Atom<V>>, inside: Seq<bool>, n: int, q: int) -> bool {
    &&& 0 <= q < n
    &&& inside[q]
    &&& forall|later: int|
        q < later < n && inside[later] ==> (#[trigger] received[later]).id != received[q].id
}

/// Where the owned atoms stand after taking over: the atoms owned before
/// keep their places, and behind them stand atoms that were named.
pub open spec fn spec_took_places<T, V>(
    before: &Atoms<T, V>,
    after: &Atoms<T, V>,
    received: Seq<Atom<V>>,
    inside: Seq<bool>,
    n: int,
) -> bool {
    let b = before.spec_nlocal() as int;
    let a = after.spec_nlocal() as int;
    &&& b <= a <= after.spec_len()
    &&& b <= before.spec_len()
    &&& forall|i: int| 0 <= i < b ==> #[trigger] after.spec_ids()[i] == before.spec_ids()[i]
    &&& forall|p: int|
        b <= p < a ==> #[trigger] spec_named(received, inside, n, after.spec_ids()[p])
}

/// What is owned after taking over: what was owned before and what was
/// named, and nothing else.
pub open spec fn spec_took_owned<T, V>(
    before: &Atoms<T, V>,
    after: &Atoms<T, V>,
    received: Seq<Atom<V>>,
    inside: Seq<bool>,
    n: int,
) -> bool {
    &&& forall|q: int| 0 <= q < n && inside[q] ==> #[trigger] after.spec_owns(received[q].id)
    &&& forall|id: usize| before.spec_owns(id) ==> after.spec_owns(id)
    &&& forall|id: usize|
        after.spec_owns(id) ==> before.spec_owns(id) || spec_named(received, inside, n, id)
}

/// The state of the owned atoms after taking over: an atom that was named
/// has the type, position and velocity that were received for it last, and
/// an owned atom that was not named has its state of before.
pub open spec fn spec_took_state<T, V>(
    before: &Atoms<T, V>,
    after: &Atoms<T, V>,
    received: Seq<Atom<V>>,
    inside: Seq<bool>,
    n: int,
) -> bool {
    &&& forall|p: int, q: int|
        0 <= p < after.spec_nlocal() && spec_last_named(received, inside, n, q)
            && #[trigger] received[q].id == #[trigger] after.spec_ids()[p] ==> after.spec_atom(p)
            == received[q]
    &&& forall|i: int|
        0 <= i < before.spec_nlocal() && !spec_named(received, inside, n, before.spec_ids()[i])
            ==> #[trigger] after.spec_atom(i) == before.spec_atom(i)
}

/// The ghosts after taking over: a ghost that was not named is still a
/// ghost with its state, no ghost is new, and no ghost is left of an atom
/// that was named.
pub open spec fn spec_took_ghosts<T, V>(
    before: &Atoms<T, V>,
    after: &Atoms<T, V>,
    received: Seq<Atom<V>>,
    inside: Seq<bool>,
    n: int,
) -> bool {
    let b = before.spec_nlocal() as int;
    let a = after.spec_nlocal() as int;
    &&& forall|i: int|
        b <= i < before.spec_len() && !spec_named(received, inside, n, before.spec_ids()[i])
            ==> #[trigger] after.spec_ghost_is(a, before.spec_atom(i))
    &&& forall|p: int|
        a <= p < after.spec_len() ==> #[trigger] before.spec_ghost_is(b, after.spec_atom(p))
    &&& forall|p: int|
        a <= p < after.spec_len() ==> !spec_named(
            received,
            inside,
            n,
            #[trigger] after.spec_ids()[p],
        )
}

/// Whether the store `after` is what `before` becomes by taking over, of the
/// first `n` atoms `received`, those whose flag in `inside` is set.
///
/// The atoms owned before keep their places. Behind them stand the atoms
/// that were taken over and not owned before. Every atom taken over is owned
/// and has the type, position and velocity that were received for it last.
/// An atom that was not named keeps its state, an owned one in its place, a
/// ghost among the ghosts; no ghost is new, and no ghost is left of an atom
/// that was taken over.
pub open spec fn spec_took_over<T, V>(
    before: &Atoms<T, V>,
    after: &Atoms<T, V>,
    received: Seq<Atom<V>>,
    inside: Seq<bool>,
    n: int,
) -> bool {
    &&& spec_took_places(before, after, received, inside, n)
    &&& spec_took_owned(before, after, received, inside, n)
    &&& spec_took_state(before, after, received, inside, n)
    &&& spec_took_ghosts(before, after, received, inside, n)
}

/// Whether an id is named among the first `k + 1` atoms received: it is
/// named among the first `k`, or atom `k` is inside and has it.
pub proof fn lemma_named_step<V>(received: Seq<Atom<V>>, inside: Seq<bool>, k: int, id: usize)
    requires
        0 <= k < received.len(),
    ensures
        spec_named(received, inside, k + 1, id) == (spec_named(received, inside, k, id) || (
        inside[k] && received[k].id == id)),
{
    if spec_named(received, inside, k, id) {
        let q = choose|q: int| 0 <= q < k && inside[q] && #[trigger] received[q].id == id;
        assert(received[q].id == id);
    }
    if inside[k] && received[k].id == id {
        assert(received[k].id == id);
    }
}

proof fn lemma_step_places<T, V>(
    before: &Atoms<T, V>,
    mid: &Atoms<T, V>,
    after: &Atoms<T, V>,
    received: Seq<Atom<V>>,
    inside: Seq<bool>,
    k: int,
    took: bool,
)
    requires
        0 <= k < received.len(),
        inside.len() == received.len(),
        took == inside[k],
        spec_took_places(before, mid, received, inside, k),
        took ==> after.spec_took_one(mid, received[k]),
        !took ==> after == mid,
    ensures
        spec_took_places(before, after, received, inside, k + 1),
{
    let b = before.spec_nlocal() as int;
    let m = mid.spec_nlocal() as int;
    let a = after.spec_nlocal() as int;
    assert forall|i: int| 0 <= i < b implies #[trigger] after.spec_ids()[i] == before.spec_ids()[i] by {
        assert(mid.spec_ids()[i] == before.spec_ids()[i]);
    }
    assert forall|p: int| b <= p < a implies #[trigger] spec_named(
        received,
        inside,
        k + 1,
        after.spec_ids()[p],
    ) by {
        lemma_named_step(received, inside, k, after.spec_ids()[p]);
        if p < m {
            assert(after.spec_ids()[p] == mid.spec_ids()[p]);
            assert(spec_named(received, inside, k, mid.spec_ids()[p]));
        } else {
            assert(after.spec_atom(m) == received[k]);
        }
    }
}

proof fn lemma_step_owned<T, V>(
    before: &Atoms<T, V>,
    mid: &Atoms<T, V>,
    after: &Atoms<T, V>,
    received: Seq<Atom<V>>,
    inside: Seq<bool>,
    k: int,
    took: bool,
)
    requires
        0 <= k < received.len(),
        inside.len() == received.len(),
        took == inside[k],
        spec_took_owned(before, mid, received, inside, k),
        took ==> after.spec_took_one(mid, received[k]) && after.spec_owns(received[k].id),
        forall|id: usize| mid.spec_owns(id) ==> after.spec_owns(id),
        !took ==> after == mid,
    ensures
        spec_took_owned(before, after, received, inside, k + 1),
{
    let m = mid.spec_nlocal() as int;
    let a = after.spec_nlocal() as int;
    assert forall|q: int| 0 <= q < k + 1 && inside[q] implies #[trigger] after.spec_owns(
        received[q].id,
    ) by {
        if q < k {
            assert(mid.spec_owns(received[q].id));
        }
    }
    assert forall|id: usize| after.spec_owns(id) implies before.spec_owns(id) || spec_named(
        received,
        inside,
        k + 1,
        id,
    ) by {
        lemma_named_step(received, inside, k, id);
        if took {
            let w = choose|w: int| 0 <= w < a && after.spec_ids()[w] == id;
            if w < m {
                assert(after.spec_ids()[w] == mid.spec_ids()[w]);
                assert(mid.spec_owns(id));
            } else {
                assert(after.spec_atom(m) == received[k]);
            }
        }
    }
}

proof fn lemma_step_state<T, V>(
    before: &Atoms<T, V>,
    mid: &Atoms<T, V>,
    after: &Atoms<T, V>,
    received: Seq<Atom<V>>,
    inside: Seq<bool>,
    k: int,
    took: bool,
)
    requires
        after.wf(),
        0 <= k < received.len(),
        inside.len() == received.len(),
        took == inside[k],
        before.spec_nlocal() <= mid.spec_nlocal(),
        spec_took_state(before, mid, received, inside, k),
        took ==> after.spec_took_one(mid, received[k]),
        !took ==> after == mid,
    ensures
        spec_took_state(before, after, received, inside, k + 1),
{
    let atom = received[k];
    let m = mid.spec_nlocal() as int;
    let a = after.spec_nlocal() as int;
    assert forall|p: int, q: int|
        0 <= p < a && spec_last_named(received, inside, k + 1, q) && #[trigger] received[q].id
            == #[trigger] after.spec_ids()[p] implies after.spec_atom(p) == received[q] by {
        if q == k {
            let held = choose|h: int| 0 <= h < a && #[trigger] after.spec_atom(h) == atom;
            assert(after.spec_ids()[held] == atom.id);
            assert(p == held);
        } else {
            assert(spec_last_named(received, inside, k, q));
            if took {
                assert(received[k].id != received[q].id);
                if p < m {
                    assert(after.spec_ids()[p] == mid.spec_ids()[p]);
                    assert(after.spec_atom(p) == mid.spec_atom(p));
                    assert(mid.spec_atom(p) == received[q]);
                } else {
                    assert(after.spec_atom(m) == atom);
                }
            }
        }
    }
    assert forall|i: int|
        0 <= i < before.spec_nlocal() && !spec_named(
            received,
            inside,
            k + 1,
            before.spec_ids()[i],
        ) implies #[trigger] after.spec_atom(i) == before.spec_atom(i) by {
        lemma_named_step(received, inside, k, before.spec_ids()[i]);
        assert(mid.spec_atom(i) == before.spec_atom(i));
        if took {
            assert(mid.spec_ids()[i] == before.spec_ids()[i]);
            assert(after.spec_atom(i) == mid.spec_atom(i));
        }
    }
}

proof fn lemma_step_ghosts<T, V>(
    before: &Atoms<T, V>,
    mid: &Atoms<T, V>,
    after: &Atoms<T, V>,
    received: Seq<Atom<V>>,
    inside: Seq<bool>,
    k: int,
    took: bool,
)
    requires
        0 <= k < received.len(),
        inside.len() == received.len(),
        took == inside[k],
        spec_took_ghosts(before, mid, received, inside, k),
        took ==> after.spec_took_one(mid, received[k]),
        !took ==> after == mid,
    ensures
        spec_took_ghosts(before, after, received, inside, k + 1),
{
    let b = before.spec_nlocal() as int;
    let m = mid.spec_nlocal() as int;
    let a = after.spec_nlocal() as int;
    assert forall|i: int|
        b <= i < before.spec_len() && !spec_named(
            received,
            inside,
            k + 1,
            before.spec_ids()[i],
        ) implies #[trigger] after.spec_ghost_is(a, before.spec_atom(i)) by {
        lemma_named_step(received, inside, k, before.spec_ids()[i]);
        assert(mid.spec_ghost_is(m, before.spec_atom(i)));
        if took {
            let pm = choose|pm: int|
                m <= pm < mid.spec_len() && #[trigger] mid.spec_atom(pm) == before.spec_atom(i);
            assert(mid.spec_ids()[pm] == before.spec_ids()[i]);
            assert(after.spec_ghost_is(a, mid.spec_atom(pm)));
        }
    }
    assert forall|p: int| a <= p < after.spec_len() implies #[trigger] before.spec_ghost_is(
        b,
        after.spec_atom(p),
    ) by {
        if took {
            assert(mid.spec_ghost_is(m, after.spec_atom(p)));
            let pm = choose|pm: int|
                m <= pm < mid.spec_len() && #[trigger] mid.spec_atom(pm) == after.spec_atom(p);
            assert(before.spec_ghost_is(b, mid.spec_atom(pm)));
        } else {
            assert(before.spec_ghost_is(b, mid.spec_atom(p)));
        }
    }
    assert forall|p: int| a <= p < after.spec_len() implies !spec_named(
        received,
        inside,
        k + 1,
        #[trigger] after.spec_ids()[p],
    ) by {
        lemma_named_step(received, inside, k, after.spec_ids()[p]);
        if took {
            assert(mid.spec_ghost_is(m, after.spec_atom(p)));
            let pm = choose|pm: int|
                m <= pm < mid.spec_len() && #[trigger] mid.spec_atom(pm) == after.spec_atom(p);
            assert(mid.spec_ids()[pm] == after.spec_ids()[p]);
        }
    }
}

/// Going on to the next atom received extends what was taken over, whether
/// the atom is taken over or left where it is.
pub proof fn lemma_took_over_step<T, V>(
    before: &Atoms<T, V>,
    mid: &Atoms<T, V>,
    after: &Atoms<T, V>,
    received: Seq<Atom<V>>,
    inside: Seq<bool>,
    k: int,
)
    requires
        after.wf(),
        0 <= k < received.len(),
        inside.len() == received.len(),
        spec_took_over(before, mid, received, inside, k),
        inside[k] ==> after.spec_took_one(mid, received[k]) && after.spec_owns(received[k].id),
        forall|id: usize| mid.spec_owns(id) ==> after.spec_owns(id),
        !inside[k] ==> after == mid,
    ensures
        spec_took_over(before, after, received, inside, k + 1),
{
    lemma_step_places(before, mid, after, received, inside, k, inside[k]);
    lemma_step_owned(before, mid, after, received, inside, k, inside[k]);
    lemma_step_state(before, mid, after, received, inside, k, inside[k]);
    lemma_step_ghosts(before, mid, after, received, inside, k, inside[k]);
}

/// An atom taken over is owned with the state that was received for it
/// last.
pub proof fn lemma_taken_state<T, V>(
    before: &Atoms<T, V>,
    after: &Atoms<T, V>,
    received: Seq<Atom<V>>,
    inside: Seq<bool>,
    q: int,
)
    requires
        spec_took_over(before, after, received, inside, received.len() as int),
        spec_last_named(received, inside, received.len() as int, q),
    ensures
        after.spec_owns(received[q].id),
        exists|p: int| 0 <= p < after.spec_nlocal() && #[trigger] after.spec_atom(p) == received[q],
{
    assert(after.spec_owns(received[q].id));
    let w = choose|w: int| 0 <= w < after.spec_nlocal() && after.spec_ids()[w] == received[q].id;
    assert(received[q].id == after.spec_ids()[w]);
    assert(after.spec_atom(w) == received[q]);
}

/// One atom taken over that was not owned before makes the owned count
/// grow by exactly one, and the atom stands right behind the atoms owned
/// before, with the state it came with.
pub proof fn lemma_taken_one<T, V>(
    before: &Atoms<T, V>,
    after: &Atoms<T, V>,
    received: Seq<Atom<V>>,
    inside: Seq<bool>,
    q: int,
)
    requires
        after.wf(),
        inside.len() == received.len(),
        spec_took_over(before, after, received, inside, received.len() as int),
        0 <= q < received.len(),
        inside[q],
        forall|other: int| 0 <= other < received.len() && other != q ==> !inside[other],
        !before.spec_owns(received[q].id),
    ensures
        after.spec_nlocal() == before.spec_nlocal() + 1,
        after.spec_atom(before.spec_nlocal() as int) == received[q],
{
    let b = before.spec_nlocal() as int;
    let a = after.spec_nlocal() as int;
    let id = received[q].id;
    let len = received.len() as int;
    assert(spec_last_named(received, inside, len, q));
    lemma_taken_state(before, after, received, inside, q);
    let w = choose|w: int| 0 <= w < a && #[trigger] after.spec_atom(w) == received[q];
    assert(after.spec_ids()[w] == id);
    if w < b {
        assert(before.spec_ids()[w] == id);
        assert(before.spec_owns(id));
    }
    assert(b <= w);
    if a >= b + 2 {
        let first = after.spec_ids()[b];
        let second = after.spec_ids()[b + 1];
        assert(spec_named(received, inside, len, first));
        assert(spec_named(received, inside, len, second));
        let r1 = choose|r: int| 0 <= r < len && inside[r] && #[trigger] received[r].id == first;
        let r2 = choose|r: int| 0 <= r < len && inside[r] && #[trigger] received[r].id == second;
        assert(r1 == q && r2 == q);
        assert(first == second);
    }
    if w > b {
        let first = after.spec_ids()[b];
        assert(spec_named(received, inside, len, first));
        let r1 = choose|r: int| 0 <= r < len && inside[r] && #[trigger] received[r].id == first;
        assert(r1 == q);
        assert(first == after.spec_ids()[w]);
    }
}

/// An atom that is handed over changes its owner and keeps its state. Take
/// a worker that hands over the atoms at the distinct places `idxs`, and a
/// neighbour that receives them and finds the atom from place `idxs[q]`
/// inside its subdomain. Afterwards the neighbour owns that atom, with the
/// type, position and velocity it had at the worker, and the worker knows it
/// no more.
pub proof fn lemma_handover<T, V>(
    giver_before: &Atoms<T, V>,
    giver_after: &Atoms<T, V>,
    taker_before: &Atoms<T, V>,
    taker_after: &Atoms<T, V>,
    idxs: Seq<usize>,
    sent: Seq<Atom<V>>,
    inside: Seq<bool>,
    q: int,
)
    requires
        giver_before.wf(),
        giver_before.spec_len() <= usize::MAX,
        0 <= q < idxs.len(),
        forall|a: int| 0 <= a < idxs.len() ==> idxs[a] < giver_before.spec_nlocal(),
        forall|a: int, b: int| 0 <= a < b < idxs.len() ==> idxs[a] != idxs[b],
        giver_after.spec_after_removal(giver_before, idxs),
        sent.len() == idxs.len(),
        forall|a: int|
            0 <= a < idxs.len() ==> #[trigger] sent[a] == giver_before.spec_atom(idxs[a] as int),
        inside.len() == sent.len(),
        inside[q],
        spec_took_over(taker_before, taker_after, sent, inside, sent.len() as int),
    ensures
        giver_before.spec_owns(sent[q].id),
        !giver_after.spec_owns(sent[q].id),
        !giver_after.spec_has_ghost(sent[q].id),
        taker_after.spec_owns(sent[q].id),
        exists|p: int|
            0 <= p < taker_after.spec_nlocal() && #[trigger] taker_after.spec_atom(p)
                == giver_before.spec_atom(idxs[q] as int),
{
    let i = idxs[q] as int;
    assert(idxs.contains(idxs[q]));
    giver_after.lemma_removed_is_gone(giver_before, idxs, i);
    assert(sent[q] == giver_before.spec_atom(i));
    assert(giver_before.spec_ids()[i] == sent[q].id);
    assert forall|later: int| q < later < sent.len() && inside[later] implies (#[trigger] sent[later]).id
        != sent[q].id by {
        assert(sent[later] == giver_before.spec_atom(idxs[later] as int));
        assert(idxs[q] != idxs[later]);
    }
    lemma_taken_state(taker_before, taker_after, sent, inside, q);
}

/// Whether no atom is owned by two of the stores.
pub open spec fn spec_single_owner<T, V>(stores: Seq<Atoms<T, V>>) -> bool {
    forall|v: int, w: int, id: usize|
        0 <= v < w < stores.len() && #[trigger] stores[v].spec_owns(id) ==> !#[trigger] stores[w].spec_owns(
            id,
        )
}

/// An exchange of ownership keeps every atom with one owner. Take any
/// number of workers none of whose atoms has two owners, let worker `giver`
/// hand over owned atoms to worker `taker`, which takes over those it finds
/// inside its subdomain, and let the others be. Afterwards still no atom has
/// two owners.
pub proof fn lemma_exchange_keeps_single_owner<T, V>(
    before: Seq<Atoms<T, V>>,
    after: Seq<Atoms<T, V>>,
    giver: int,
    taker: int,
    idxs: Seq<usize>,
    sent: Seq<Atom<V>>,
    inside: Seq<bool>,
)
    requires
        spec_single_owner(before),
        after.len() == before.len(),
        0 <= giver < before.len(),
        0 <= taker < before.len(),
        giver != taker,
        forall|w: int|
            0 <= w < before.len() && w != giver && w != taker ==> #[trigger] after[w] == before[w],
        before[giver].wf(),
        before[giver].spec_len() <= usize::MAX,
        forall|a: int| 0 <= a < idxs.len() ==> idxs[a] < before[giver].spec_nlocal(),
        after[giver].spec_after_removal(&before[giver], idxs),
        sent.len() == idxs.len(),
        forall|a: int|
            0 <= a < idxs.len() ==> (#[trigger] sent[a]).id == before[giver].spec_ids()[idxs[a] as int],
        inside.len() == sent.len(),
        spec_took_over(&before[taker], &after[taker], sent, inside, sent.len() as int),
    ensures
        spec_single_owner(after),
{
    assert forall|v: int, w: int, id: usize|
        0 <= v < w < after.len() && #[trigger] after[v].spec_owns(id) implies !#[trigger] after[w].spec_owns(
        id,
    ) by {
        if after[w].spec_owns(id) {
            lemma_owned_before_or_given(before, after, giver, taker, idxs, sent, inside, v, id);
            lemma_owned_before_or_given(before, after, giver, taker, idxs, sent, inside, w, id);
            // who owned the atom before: the same worker, or the giver
            let from_v = if before[v].spec_owns(id) {
                v
            } else {
                giver
            };
            let from_w = if before[w].spec_owns(id) {
                w
            } else {
                giver
            };
            assert(before[from_v].spec_owns(id));
            assert(before[from_w].spec_owns(id));
            if from_v < from_w {
                assert(!before[from_w].spec_owns(id));
            } else if from_w < from_v {
                assert(!before[from_v].spec_owns(id));
            }
        }
    }
}

/// After an exchange a worker owns an atom only if it owned it before, or if
/// it is the taker and the giver owned the atom before and has given it
/// away.
proof fn lemma_owned_before_or_given<T, V>(
    before: Seq<Atoms<T, V>>,
    after: Seq<Atoms<T, V>>,
    giver: int,
    taker: int,
    idxs: Seq<usize>,
    sent: Seq<Atom<V>>,
    inside: Seq<bool>,
    w: int,
    id: usize,
)
    requires
        after.len() == before.len(),
        0 <= giver < before.len(),
        0 <= taker < before.len(),
        giver != taker,
        forall|u: int|
            0 <= u < before.len() && u != giver && u != taker ==> #[trigger] after[u] == before[u],
        before[giver].wf(),
        before[giver].spec_len() <= usize::MAX,
        forall|a: int| 0 <= a < idxs.len() ==> idxs[a] < before[giver].spec_nlocal(),
        after[giver].spec_after_removal(&before[giver], idxs),
        sent.len() == idxs.len(),
        forall|a: int|
            0 <= a < idxs.len() ==> (#[trigger] sent[a]).id == before[giver].spec_ids()[idxs[a] as int],
        inside.len() == sent.len(),
        spec_took_over(&before[taker], &after[taker], sent, inside, sent.len() as int),
        0 <= w < after.len(),
        after[w].spec_owns(id),
    ensures
        before[w].spec_owns(id) || (w == taker && before[giver].spec_owns(id)
            && !after[giver].spec_owns(id)),
        w == giver ==> before[w].spec_owns(id),
{
    if w == giver {
        after[giver].lemma_survivor_was_owned(&before[giver], idxs, id);
    } else if w == taker {
        if !before[taker].spec_owns(id) {
            assert(spec_named(sent, inside, sent.len() as int, id));
            let q = choose|q: int| 0 <= q < sent.len() && inside[q] && #[trigger] sent[q].id == id;
            let i = idxs[q] as int;
            assert(before[giver].spec_ids()[i] == id);
            assert(idxs.contains(idxs[q]));
            after[giver].lemma_removed_is_gone(&before[giver], idxs, i);
        }
    } else {
        assert(after[w] == before[w]);
    }
}

/// Takes over the atoms a neighbour handed over, as far as they lie in this
/// worker's subdomain, which the flags in `inside` say, one per atom
/// received. Every atom taken over is owned afterwards, with the type,
/// position and velocity it came with; what the worker owned before it still
/// owns, in the same places; nothing else changes its state.
pub fn recv_atoms<T, V: Copy>(atoms: &mut Atoms<T, V>, received: &Vec<Atom<V>>, inside: &Vec<bool>)
    requires
        old(atoms).wf(),
        inside@.len() == received@.len(),
    ensures
        final(atoms).wf(),
        final(atoms).spec_same_tables(old(atoms)),
        spec_took_over(old(atoms), final(atoms), received@, inside@, received@.len() as int),
{
    proof {
        lemma_took_over_start(atoms, received@, inside@);
    }
    let mut k: usize = 0;
    while k < received.len()
        invariant
            k <= received@.len(),
            inside@.len() == received@.len(),
            atoms.wf(),
            atoms.spec_same_tables(old(atoms)),
            spec_took_over(old(atoms), atoms, received@, inside@, k as int),
        decreases received@.len() - k,
    {
        if inside[k] {
            let ghost mid = *atoms;
            let atom: Atom<V> = received[k];
            atoms.insert_owned(atom);
            proof {
                lemma_took_over_step(old(atoms), &mid, atoms, received@, inside@, k as int);
            }
        } else {
            proof {
                lemma_took_over_step(old(atoms), atoms, atoms, received@, inside@, k as int);
            }
        }
        k += 1;
    }
}

/// Before anything is taken over, nothing has changed.
pub proof fn lemma_took_over_start<T, V>(
    atoms: &Atoms<T, V>,
    received: Seq<Atom<V>>,
    inside: Seq<bool>,
)
    requires
        atoms.wf(),
    ensures
        spec_took_over(atoms, atoms, received, inside, 0),
{
    let n = atoms.spec_nlocal() as int;
    assert forall|i: int|
        n <= i < atoms.spec_len() && !spec_named(
            received,
            inside,
            0,
            atoms.spec_ids()[i],
        ) implies #[trigger] atoms.spec_ghost_is(n, atoms.spec_atom(i)) by {
        assert(atoms.spec_atom(i) == atoms.spec_atom(i));
    }
    assert forall|p: int| n <= p < atoms.spec_len() implies #[trigger] atoms.spec_ghost_is(
        n,
        atoms.spec_atom(p),
    ) by {
        assert(atoms.spec_atom(p) == atoms.spec_atom(p));
    }
}

} // verus!

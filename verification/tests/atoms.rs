use jmd::atoms::{Atom, Atoms};
use jmd::parallel::comm::{
    collect_comm_atoms, forward_order, recv_atoms, recv_forward_comm, recv_reverse_comm,
    reverse_order, send_atoms, send_forward_comm, send_reverse_comm,
};
use jmd::parallel::message::{expect_atoms, expect_forces, expect_idxs};
use jmd::parallel::AtomMessage;
use jmd::utils::Direction;

type Store = Atoms<f64, [f64; 3]>;
type Message = AtomMessage<[f64; 3], f64>;

fn store_of(coords: Vec<[f64; 3]>) -> Store {
    let mut atoms: Store = Atoms::new();
    let keep = vec![true; coords.len()];
    atoms.add_atoms(0, &coords, &keep, [0.0; 3]);
    atoms
}

fn atom(id: usize, x: f64) -> Atom<[f64; 3]> {
    Atom {
        id,
        type_: 1,
        position: [x, 0.0, 0.0],
        velocity: [0.0, x, 0.0],
    }
}

#[test]
fn a_new_store_is_empty() {
    let atoms: Store = Atoms::new();
    assert_eq!(atoms.num_total_atoms(), 0);
    assert_eq!(atoms.num_local_atoms(), 0);
    assert_eq!(atoms.num_ghost_atoms(), 0);
    assert_eq!(atoms.num_types(), 0);
    assert_eq!(atoms.num_atoms_global(), 0);
    assert_eq!(atoms.next_id(), 0);
    assert_eq!(atoms.id_to_idx(0), None);
}

#[test]
fn added_atoms_get_dense_ids_after_the_largest() {
    let mut atoms = store_of(vec![[0.0; 3], [1.0; 3], [2.0; 3]]);
    assert_eq!(*atoms.ids(), vec![0, 1, 2]);
    assert_eq!(atoms.next_id(), 3);
    atoms.add_atoms(2, &vec![[5.0; 3], [6.0; 3]], &vec![true, true], [1.0; 3]);
    assert_eq!(*atoms.ids(), vec![0, 1, 2, 3, 4]);
    assert_eq!(*atoms.types(), vec![0, 0, 0, 2, 2]);
    assert_eq!(atoms.positions()[3], [5.0; 3]);
    assert_eq!(atoms.velocities()[4], [1.0; 3]);
    assert_eq!(atoms.velocities()[0], [0.0; 3]);
    assert_eq!(atoms.num_local_atoms(), 5);
    assert_eq!(atoms.num_ghost_atoms(), 0);
}

#[test]
fn coordinates_that_are_not_kept_leave_their_ids_unused() {
    let mut atoms: Store = Atoms::new();
    let coords = vec![[0.0; 3], [1.0; 3], [2.0; 3], [3.0; 3]];
    atoms.add_atoms(0, &coords, &vec![false, true, false, true], [0.0; 3]);
    assert_eq!(*atoms.ids(), vec![1, 3]);
    assert_eq!(*atoms.positions(), vec![[1.0; 3], [3.0; 3]]);
    assert_eq!(atoms.num_local_atoms(), 2);
    assert_eq!(atoms.next_id(), 4);
}

#[test]
fn adding_atoms_drops_the_ghosts() {
    let mut atoms = store_of(vec![[0.0; 3], [1.0; 3]]);
    atoms.update_or_push(atom(9, 9.0));
    assert_eq!(atoms.num_ghost_atoms(), 1);
    atoms.add_atoms(0, &vec![[2.0; 3]], &vec![true], [0.0; 3]);
    assert_eq!(*atoms.ids(), vec![0, 1, 10]);
    assert_eq!(atoms.num_local_atoms(), 3);
    assert_eq!(atoms.num_ghost_atoms(), 0);
}

#[test]
fn update_or_push_replaces_by_id_or_appends_a_ghost() {
    let mut atoms = store_of(vec![[0.0; 3], [1.0; 3]]);
    atoms.update_or_push(atom(1, 4.0));
    assert_eq!(*atoms.ids(), vec![0, 1]);
    assert_eq!(*atoms.types(), vec![0, 1]);
    assert_eq!(atoms.positions()[1], [4.0, 0.0, 0.0]);
    assert_eq!(atoms.velocities()[1], [0.0, 4.0, 0.0]);
    assert_eq!(atoms.num_local_atoms(), 2);
    atoms.update_or_push(atom(7, 5.0));
    assert_eq!(*atoms.ids(), vec![0, 1, 7]);
    assert_eq!(atoms.num_local_atoms(), 2);
    assert_eq!(atoms.num_ghost_atoms(), 1);
    assert_eq!(atoms.num_total_atoms(), 3);
    assert_eq!(atoms.id_to_idx(7), Some(2));
    assert_eq!(atoms.id_to_idx(8), None);
}

#[test]
fn removing_lowers_the_owned_count_by_the_owned_atoms_removed() {
    let mut atoms = store_of(vec![[0.0; 3], [1.0; 3], [2.0; 3], [3.0; 3]]);
    atoms.update_or_push(atom(10, 10.0));
    atoms.update_or_push(atom(11, 11.0));
    atoms.remove_idxs(&vec![1, 4, 1]);
    assert_eq!(*atoms.ids(), vec![0, 2, 3, 11]);
    assert_eq!(atoms.num_local_atoms(), 3);
    assert_eq!(atoms.num_ghost_atoms(), 1);
    assert_eq!(atoms.positions()[1], [2.0; 3]);
    assert_eq!(atoms.positions()[3], [11.0, 0.0, 0.0]);
    assert_eq!(*atoms.types(), vec![0, 0, 0, 1]);
    atoms.remove_idxs(&vec![]);
    assert_eq!(*atoms.ids(), vec![0, 2, 3, 11]);
    atoms.remove_idxs(&vec![3, 2, 1, 0]);
    assert_eq!(atoms.num_total_atoms(), 0);
    assert_eq!(atoms.num_local_atoms(), 0);
}

#[test]
fn ghosts_are_cut_from_the_end() {
    let mut atoms = store_of(vec![[0.0; 3], [1.0; 3]]);
    atoms.update_or_push(atom(5, 5.0));
    atoms.update_or_push(atom(6, 6.0));
    atoms.update_or_push(atom(7, 7.0));
    atoms.resize_ghost_region(4);
    assert_eq!(*atoms.ids(), vec![0, 1, 5, 6]);
    assert_eq!(atoms.num_local_atoms(), 2);
    atoms.truncate_ghosts();
    assert_eq!(*atoms.ids(), vec![0, 1]);
    assert_eq!(atoms.positions().len(), 2);
    assert_eq!(atoms.velocities().len(), 2);
    assert_eq!(atoms.types().len(), 2);
    assert_eq!(atoms.num_ghost_atoms(), 0);
}

#[test]
fn an_atom_taken_over_joins_the_owned_atoms() {
    let mut atoms = store_of(vec![[0.0; 3], [1.0; 3]]);
    atoms.update_or_push(atom(5, 5.0));
    atoms.update_or_push(atom(6, 6.0));
    // new to the store: the first ghost moves to the end
    atoms.insert_owned(atom(8, 8.0));
    assert_eq!(*atoms.ids(), vec![0, 1, 8, 6, 5]);
    assert_eq!(atoms.num_local_atoms(), 3);
    assert_eq!(atoms.positions()[4], [5.0, 0.0, 0.0]);
    // known as a ghost: the first ghost takes its place
    atoms.insert_owned(atom(5, 5.5));
    assert_eq!(*atoms.ids(), vec![0, 1, 8, 5, 6]);
    assert_eq!(atoms.num_local_atoms(), 4);
    assert_eq!(atoms.positions()[3], [5.5, 0.0, 0.0]);
    assert_eq!(atoms.positions()[4], [6.0, 0.0, 0.0]);
    // owned already: only its state changes
    atoms.insert_owned(atom(1, 1.5));
    assert_eq!(*atoms.ids(), vec![0, 1, 8, 5, 6]);
    assert_eq!(atoms.num_local_atoms(), 4);
    assert_eq!(atoms.positions()[1], [1.5, 0.0, 0.0]);
    // no ghosts in the way
    let mut plain = store_of(vec![[0.0; 3]]);
    plain.insert_owned(atom(3, 3.0));
    assert_eq!(*plain.ids(), vec![0, 3]);
    assert_eq!(plain.num_local_atoms(), 2);
}

#[test]
fn state_setters_and_type_table() {
    let mut atoms = store_of(vec![[0.0; 3], [1.0; 3]]);
    atoms.set_position(1, [7.0; 3]);
    atoms.set_velocity(0, [8.0; 3]);
    assert_eq!(*atoms.positions(), vec![[0.0; 3], [7.0; 3]]);
    assert_eq!(*atoms.velocities(), vec![[8.0; 3], [0.0; 3]]);
    atoms.set_atom_types(vec![1.0, 2.5]);
    assert_eq!(atoms.num_types(), 2);
    assert_eq!(*atoms.atom_types(), vec![1.0, 2.5]);
    assert_eq!(*atoms.atom_type(1), 1.0);
    atoms.update_or_push(atom(0, 0.0));
    assert_eq!(*atoms.atom_type(0), 2.5);
    atoms.set_num_atoms_global(1000);
    assert_eq!(atoms.num_atoms_global(), 1000);
}

#[test]
fn faces_are_served_in_a_fixed_order() {
    let forward = forward_order();
    assert_eq!(
        forward,
        [
            Direction::Xlo,
            Direction::Xhi,
            Direction::Ylo,
            Direction::Yhi,
            Direction::Zlo,
            Direction::Zhi
        ]
    );
    let mut backwards = forward;
    backwards.reverse();
    assert_eq!(reverse_order(), backwards);
}

#[test]
fn forward_comm_publishes_the_owned_atoms_inside() {
    let mut atoms = store_of(vec![[0.5; 3], [5.0; 3], [9.5; 3]]);
    atoms.update_or_push(atom(20, 0.2));
    let inside = vec![true, false, true, true];
    let message: Message = send_forward_comm(&atoms, &inside);
    let sent = expect_atoms(message).unwrap();
    assert_eq!(sent.len(), 2);
    assert_eq!(sent[0].id, 0);
    assert_eq!(sent[0].position, [0.5; 3]);
    assert_eq!(sent[1].id, 2);
    assert_eq!(sent[1].type_, 0);
    assert_eq!(sent[1].velocity, [0.0; 3]);
    let nothing: Message = send_forward_comm(&atoms, &vec![false; 4]);
    assert!(expect_atoms(nothing).unwrap().is_empty());
}

#[test]
fn published_atoms_appear_as_ghosts_with_matching_state() {
    let sender = store_of(vec![[0.5; 3], [5.0; 3], [9.5; 3]]);
    let mut receiver: Store = Atoms::new();
    receiver.add_atoms(0, &vec![[20.0; 3]; 2], &vec![true, true], [0.0; 3]);
    receiver.remove_idxs(&vec![0]);
    receiver.insert_owned(atom(40, 40.0));
    let owned_before = receiver.num_local_atoms();
    let message: Message = send_forward_comm(&sender, &vec![true, false, true]);
    let received = expect_atoms(message).unwrap();
    recv_forward_comm(&mut receiver, &received);
    assert_eq!(receiver.num_local_atoms(), owned_before);
    assert_eq!(*receiver.ids(), vec![1, 40, 0, 2]);
    for a in &received {
        let i = receiver.id_to_idx(a.id).unwrap();
        assert!(i >= receiver.num_local_atoms());
        assert_eq!(receiver.types()[i], a.type_);
        assert_eq!(receiver.positions()[i], a.position);
        assert_eq!(receiver.velocities()[i], a.velocity);
    }
    // a second publication updates in place; the last state wins
    recv_forward_comm(&mut receiver, &vec![atom(2, 1.0), atom(2, 2.0)]);
    assert_eq!(*receiver.ids(), vec![1, 40, 0, 2]);
    assert_eq!(receiver.positions()[3], [2.0, 0.0, 0.0]);
}

#[test]
fn reverse_comm_names_ghosts_and_places_forces() {
    let mut atoms = store_of(vec![[0.5; 3], [5.0; 3]]);
    atoms.update_or_push(atom(20, -0.5));
    atoms.update_or_push(atom(21, 10.5));
    atoms.update_or_push(atom(22, -0.7));
    let (idxs, ids) = send_reverse_comm(&atoms, &vec![true, true, true, false, true]);
    assert_eq!(idxs, vec![2, 4]);
    assert_eq!(ids, vec![20, 22]);
    let places = recv_reverse_comm(&atoms, &vec![22, 1, 99, 0]);
    assert_eq!(places, vec![Some(4), Some(1), None, Some(0)]);
}

#[test]
fn messages_of_the_wrong_shape_are_errors() {
    let ids: Message = AtomMessage::Idxs(vec![1, 2]);
    assert!(expect_atoms(ids).is_err());
    let atoms: Message = AtomMessage::Atom(vec![atom(1, 1.0)]);
    assert!(expect_idxs(atoms).is_err());
    let ids: Message = AtomMessage::Idxs(vec![1, 2]);
    assert_eq!(expect_idxs(ids).unwrap(), vec![1, 2]);

    let pair = expect_forces::<[f64; 3], f64>(
        AtomMessage::Idxs(vec![1, 2]),
        AtomMessage::Float3(vec![[1.0; 3], [2.0; 3]]),
    );
    assert_eq!(pair.unwrap(), (vec![1, 2], vec![[1.0; 3], [2.0; 3]]));
    let swapped = expect_forces::<[f64; 3], f64>(
        AtomMessage::Float3(vec![[1.0; 3]]),
        AtomMessage::Idxs(vec![1]),
    );
    assert!(swapped.is_err());
    let uneven = expect_forces::<[f64; 3], f64>(
        AtomMessage::Idxs(vec![1, 2]),
        AtomMessage::Float3(vec![[1.0; 3]]),
    );
    assert!(uneven.is_err());
    let wrong = expect_forces::<[f64; 3], f64>(
        AtomMessage::Idxs(vec![1]),
        AtomMessage::Float(vec![1.0]),
    );
    assert!(wrong.is_err());
    let types = expect_forces::<[f64; 3], f64>(
        AtomMessage::Types(vec![1]),
        AtomMessage::Int3(vec![[1, 2, 3]]),
    );
    assert!(types.is_err());
}

#[test]
fn an_atom_on_the_low_bound_stays_with_its_worker() {
    // half-open subdomain [2, 4) along x
    let (lo, hi) = (2.0f64, 4.0f64);
    let atoms = store_of(vec![[2.0, 0.0, 0.0], [4.0, 0.0, 0.0], [1.9, 0.0, 0.0]]);
    let below: Vec<bool> = atoms.positions().iter().map(|p| p[0] < lo).collect();
    let above: Vec<bool> = atoms.positions().iter().map(|p| p[0] >= hi).collect();
    assert_eq!(collect_comm_atoms(&atoms, &below), vec![2]);
    assert_eq!(collect_comm_atoms(&atoms, &above), vec![1]);
}

#[test]
fn migration() {
    // the worker owns [0, 5) along x; its neighbour across Xlo owns [-5, 0)
    let dt = 0.005;
    let mut owner = store_of(vec![[0.001, 1.0, 1.0], [2.5, 1.0, 1.0]]);
    let mut peer: Store = Atoms::new();
    peer.add_atoms(0, &vec![[-2.0, 1.0, 1.0]; 3], &vec![false, false, true], [0.0; 3]);
    owner.set_velocity(0, [-1.0, 0.0, 0.0]);
    let p = owner.positions()[0];
    let v = owner.velocities()[0];
    owner.set_position(0, [p[0] + dt * v[0], p[1] + dt * v[1], p[2] + dt * v[2]]);

    let outside: Vec<bool> = owner.positions().iter().map(|p| p[0] < 0.0).collect();
    let leaving = collect_comm_atoms(&owner, &outside);
    assert_eq!(leaving, vec![0]);
    let sent = send_atoms(&mut owner, &leaving);
    assert_eq!(sent.len(), 1);
    assert_eq!(sent[0].id, 0);
    assert_eq!(*owner.ids(), vec![1]);
    assert_eq!(owner.num_local_atoms(), 1);
    assert_eq!(owner.id_to_idx(0), None);

    let inside: Vec<bool> = sent
        .iter()
        .map(|a| -5.0 <= a.position[0] && a.position[0] < 0.0)
        .collect();
    recv_atoms(&mut peer, &sent, &inside);
    assert_eq!(*peer.ids(), vec![2, 0]);
    assert_eq!(peer.num_local_atoms(), 2);
    let i = peer.id_to_idx(0).unwrap();
    assert!(i < peer.num_local_atoms());
    assert_eq!(peer.types()[i], 0);
    assert_eq!(peer.positions()[i], [0.001 - dt, 1.0, 1.0]);
    assert_eq!(peer.velocities()[i], [-1.0, 0.0, 0.0]);
    // what the two owned before is as it was
    assert_eq!(owner.positions()[0], [2.5, 1.0, 1.0]);
    assert_eq!(owner.velocities()[0], [0.0; 3]);
    assert_eq!(peer.positions()[0], [-2.0, 1.0, 1.0]);
}

#[test]
fn removing_one_owned_atom_moves_the_later_ones_down() {
    let mut atoms = store_of(vec![[0.0; 3], [1.0; 3], [2.0; 3], [3.0; 3]]);
    atoms.update_or_push(atom(9, 9.0));
    atoms.set_velocity(2, [5.0; 3]);
    let sent = send_atoms(&mut atoms, &vec![1]);
    assert_eq!(sent.len(), 1);
    assert_eq!(sent[0].position, [1.0; 3]);
    assert_eq!(atoms.num_local_atoms(), 3);
    assert_eq!(atoms.num_total_atoms(), 4);
    assert_eq!(*atoms.ids(), vec![0, 2, 3, 9]);
    assert_eq!(*atoms.positions(), vec![[0.0; 3], [2.0; 3], [3.0; 3], [9.0, 0.0, 0.0]]);
    assert_eq!(atoms.velocities()[1], [5.0; 3]);
    assert_eq!(*atoms.types(), vec![0, 0, 0, 1]);
}

#[test]
fn atoms_taken_over_come_with_their_state() {
    let mut peer = store_of(vec![[1.0; 3], [2.0; 3]]);
    peer.update_or_push(atom(7, 7.0));
    peer.update_or_push(atom(8, 8.0));
    let received = vec![
        Atom { id: 8, type_: 4, position: [8.5, 1.0, 2.0], velocity: [0.1, 0.2, 0.3] },
        Atom { id: 5, type_: 3, position: [5.0, 6.0, 7.0], velocity: [-1.0, -2.0, -3.0] },
        Atom { id: 6, type_: 2, position: [6.0; 3], velocity: [6.5; 3] },
        Atom { id: 1, type_: 9, position: [1.5, 0.0, 0.0], velocity: [0.0, 1.5, 0.0] },
        Atom { id: 5, type_: 3, position: [5.5, 6.5, 7.5], velocity: [1.0, 2.0, 3.0] },
    ];
    let inside = vec![true, true, false, true, true];
    recv_atoms(&mut peer, &received, &inside);
    // the two owned before keep their places; 8 and 5 stand behind them
    assert_eq!(peer.num_local_atoms(), 4);
    assert_eq!(peer.ids()[..2], [0, 1]);
    assert_eq!(peer.num_total_atoms(), 5);
    let state = |id: usize| {
        let i = peer.id_to_idx(id).unwrap();
        (i, peer.types()[i], peer.positions()[i], peer.velocities()[i])
    };
    let (i8, t8, p8, v8) = state(8);
    assert!((2..4).contains(&i8));
    assert_eq!((t8, p8, v8), (4, [8.5, 1.0, 2.0], [0.1, 0.2, 0.3]));
    // received twice: the last state stands
    let (i5, t5, p5, v5) = state(5);
    assert!((2..4).contains(&i5));
    assert_eq!((t5, p5, v5), (3, [5.5, 6.5, 7.5], [1.0, 2.0, 3.0]));
    // owned already: the state changes in its place
    assert_eq!(state(1), (1, 9, [1.5, 0.0, 0.0], [0.0, 1.5, 0.0]));
    // not named: as before, the ghost still a ghost
    assert_eq!(state(0), (0, 0, [1.0; 3], [0.0; 3]));
    let (i7, t7, p7, v7) = state(7);
    assert_eq!(i7, 4);
    assert_eq!((t7, p7, v7), (1, [7.0, 0.0, 0.0], [0.0, 7.0, 0.0]));
    // left outside: not known at all
    assert_eq!(peer.id_to_idx(6), None);
}

#[test]
fn atoms_that_do_not_fall_in_the_subdomain_are_not_taken_over() {
    let mut peer = store_of(vec![[1.0; 3]]);
    recv_atoms(
        &mut peer,
        &vec![atom(5, 5.0), atom(6, 6.0), atom(7, 7.0)],
        &vec![false, true, false],
    );
    assert_eq!(*peer.ids(), vec![0, 6]);
    assert_eq!(peer.num_local_atoms(), 2);
}

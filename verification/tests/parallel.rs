use jmd::parallel::communication::{receive_outcome, NoMessage};
use jmd::parallel::domain::{inner_bound, outer_bound, takes_extra_atom, Pad, SlabBound};
use jmd::parallel::{get_neighbor, proc_grid_candidates, Communicator, NeighborDirection, NeighborProcs};
use jmd::utils::{Axis, Direction, Index};

#[test]
fn every_grid_for_four_workers() {
    assert_eq!(
        proc_grid_candidates(4),
        vec![[1, 1, 4], [1, 2, 2], [1, 4, 1], [2, 1, 2], [2, 2, 1], [4, 1, 1]]
    );
    assert_eq!(proc_grid_candidates(1), vec![[1, 1, 1]]);
    assert_eq!(proc_grid_candidates(0), Vec::<[usize; 3]>::new());
    assert_eq!(proc_grid_candidates(7), vec![[1, 1, 7], [1, 7, 1], [7, 1, 1]]);
}

#[test]
fn every_grid_multiplies_to_the_number_of_workers() {
    for n in 1..40usize {
        let grids = proc_grid_candidates(n);
        let mut expected: Vec<[usize; 3]> = Vec::new();
        for nx in 1..=n {
            for ny in 1..=n {
                for nz in 1..=n {
                    if nx * ny * nz == n {
                        expected.push([nx, ny, nz]);
                    }
                }
            }
        }
        assert_eq!(grids, expected);
    }
}

#[test]
fn the_grid_with_the_least_surface_is_among_the_candidates() {
    let (lx, ly, lz) = (10.0f64, 10.0, 10.0);
    let score = |g: &[usize; 3]| {
        lx * ly / (g[0] * g[1]) as f64 + ly * lz / (g[1] * g[2]) as f64 + lx * lz / (g[0] * g[2]) as f64
    };
    let best = proc_grid_candidates(8)
        .into_iter()
        .reduce(|x, y| if score(&x) < score(&y) { x } else { y })
        .unwrap();
    assert_eq!(best, [2, 2, 2]);
}

#[test]
fn neighbors_inside_the_grid() {
    let me = Index::from_3d(&[1, 1, 0], &[3, 3, 2]);
    let at = |d: Direction| get_neighbor(&me, d, false).map(|ix| ix.to_3d());
    assert_eq!(at(Direction::Xlo), Some(vec![0, 1, 0]));
    assert_eq!(at(Direction::Xhi), Some(vec![2, 1, 0]));
    assert_eq!(at(Direction::Ylo), Some(vec![1, 0, 0]));
    assert_eq!(at(Direction::Yhi), Some(vec![1, 2, 0]));
    assert_eq!(at(Direction::Zlo), None);
    assert_eq!(at(Direction::Zhi), Some(vec![1, 1, 1]));
    let there = get_neighbor(&me, Direction::Xhi, false).unwrap();
    assert_eq!(there.idx(), 2 * 6 + 1 * 2);
    assert_eq!(there.bounds(), vec![3, 3, 2]);
}

#[test]
fn neighbors_across_the_box() {
    let me = Index::from_3d(&[0, 2, 1], &[3, 3, 2]);
    let wrapped = |d: Direction| get_neighbor(&me, d, true).map(|ix| ix.to_3d());
    let fixed = |d: Direction| get_neighbor(&me, d, false).map(|ix| ix.to_3d());
    assert_eq!(wrapped(Direction::Xlo), Some(vec![2, 2, 1]));
    assert_eq!(fixed(Direction::Xlo), None);
    assert_eq!(wrapped(Direction::Yhi), Some(vec![0, 0, 1]));
    assert_eq!(fixed(Direction::Yhi), None);
    assert_eq!(wrapped(Direction::Zhi), Some(vec![0, 2, 0]));
    assert_eq!(fixed(Direction::Zhi), None);
    assert_eq!(fixed(Direction::Zlo), Some(vec![0, 2, 0]));
}

#[test]
fn across_a_face_and_back() {
    let bounds = [2usize, 3, 1];
    let all = [
        Direction::Xlo,
        Direction::Xhi,
        Direction::Ylo,
        Direction::Yhi,
        Direction::Zlo,
        Direction::Zhi,
    ];
    for idx in 0..6 {
        let me = Index::from_1d(idx, &bounds);
        for d in all {
            let there = get_neighbor(&me, d, true).unwrap();
            let back = get_neighbor(&there, d.opposite(), true).unwrap();
            assert_eq!(back.idx(), idx);
        }
    }
    let alone = Index::from_1d(0, &[1, 1, 1]);
    for d in all {
        assert_eq!(get_neighbor(&alone, d, true).unwrap().idx(), 0);
        assert!(get_neighbor(&alone, d, false).is_none());
    }
}

#[test]
fn the_first_workers_take_the_atoms_left_over() {
    // 10 atoms over 4 workers with shares 2, 2, 2, 2
    assert!(takes_extra_atom(0, 10, 8));
    assert!(takes_extra_atom(1, 10, 8));
    assert!(!takes_extra_atom(2, 10, 8));
    assert!(!takes_extra_atom(0, 8, 8));
}

#[test]
fn neighbor_slots() {
    let mut procs: NeighborProcs<u32> = NeighborProcs::new();
    assert_eq!(procs.count(), 0);
    assert!(procs.as_vec().iter().all(|s| s.is_none()));
    let (tx, rx) = std::sync::mpsc::channel();
    procs.set(NeighborDirection::Yhi, tx);
    assert_eq!(procs.count(), 1);
    let slots = procs.as_vec();
    assert_eq!(slots.len(), 6);
    for (k, slot) in slots.iter().enumerate() {
        assert_eq!(slot.is_some(), k == 3);
    }
    assert!(procs.get(NeighborDirection::Ylo).is_none());
    procs.get(NeighborDirection::Yhi).as_ref().unwrap().send(7).unwrap();
    assert_eq!(rx.recv().unwrap(), 7);
}

#[test]
fn a_communicator_sends_to_the_neighbor_it_was_given() {
    let mut a: Communicator<u32, usize> = Communicator::new();
    let b: Communicator<u32, usize> = Communicator::new();
    assert_eq!(a.num_neighbors(), 0);
    assert!(a.thread_ids().is_empty());
    assert!(matches!(b.receive(), Ok(None)));

    a.set_neighbor_proc(NeighborDirection::Xlo, b.clone_sender());
    a.set_thread_ids(vec![10, 11]);
    assert_eq!(a.num_neighbors(), 1);
    assert_eq!(*a.thread_ids(), vec![10, 11]);
    assert!(a.neighbor_procs().get(NeighborDirection::Xlo).is_some());

    assert!(a.send(5, NeighborDirection::Xlo).is_ok());
    assert!(a.send(6, NeighborDirection::Xlo).is_ok());
    // no neighbour across Zhi: the value is dropped
    assert!(a.send(9, NeighborDirection::Zhi).is_ok());
    assert!(matches!(b.receive(), Ok(Some(5))));
    assert!(matches!(b.receive(), Ok(Some(6))));
    assert!(matches!(b.receive(), Ok(None)));
    assert!(matches!(a.receive(), Ok(None)));
    assert!(b.receiver().try_recv().is_err());
}

#[test]
fn sending_to_a_worker_that_is_gone_fails() {
    let mut a: Communicator<u32, usize> = Communicator::new();
    {
        let b: Communicator<u32, usize> = Communicator::new();
        a.set_neighbor_proc(NeighborDirection::Zlo, b.clone_sender());
    }
    assert!(a.send(1, NeighborDirection::Zlo).is_err());
}

#[test]
fn what_receive_makes_of_an_attempt() {
    assert!(matches!(receive_outcome(Ok(3u8)), Ok(Some(3))));
    assert!(matches!(receive_outcome::<u8>(Err(NoMessage::Empty)), Ok(None)));
    assert!(receive_outcome::<u8>(Err(NoMessage::Disconnected)).is_err());
}

#[test]
fn receiving_after_every_sender_is_gone_fails() {
    let (tx, rx) = std::sync::mpsc::channel::<u8>();
    let mut procs: NeighborProcs<u8> = NeighborProcs::new();
    procs.set(NeighborDirection::Xlo, tx);
    assert!(rx.try_recv().is_err());
    drop(procs);
    assert_eq!(rx.try_recv(), Err(std::sync::mpsc::TryRecvError::Disconnected));
}

fn value(b: SlabBound, lo: f64, hi: f64, dist: f64, half_skin: f64) -> f64 {
    let from = if b.from_hi { hi } else { lo };
    let pad = match b.pad {
        Pad::Zero => 0.0,
        Pad::NeighborDistance => dist,
        Pad::HalfSkin => half_skin,
    };
    if b.plus {
        from + pad
    } else {
        from - pad
    }
}

fn slab(bound: fn(Direction, Axis, bool) -> SlabBound, d: Direction) -> [f64; 6] {
    // subdomain [0, 10) x [20, 30) x [40, 50), neighbour distance 3, skin 1
    let lo = [0.0, 20.0, 40.0];
    let hi = [10.0, 30.0, 50.0];
    let mut out = [0.0; 6];
    for (a, axis) in [Axis::X, Axis::Y, Axis::Z].into_iter().enumerate() {
        out[2 * a] = value(bound(d, axis, false), lo[a], hi[a], 3.0, 0.5);
        out[2 * a + 1] = value(bound(d, axis, true), lo[a], hi[a], 3.0, 0.5);
    }
    out
}

#[test]
fn inner_slabs() {
    assert_eq!(slab(inner_bound, Direction::Xlo), [0.0, 3.0, 19.5, 30.5, 39.5, 50.5]);
    assert_eq!(slab(inner_bound, Direction::Xhi), [7.0, 10.0, 19.5, 30.5, 39.5, 50.5]);
    assert_eq!(slab(inner_bound, Direction::Ylo), [-0.5, 10.5, 20.0, 23.0, 39.5, 50.5]);
    assert_eq!(slab(inner_bound, Direction::Yhi), [-0.5, 10.5, 27.0, 30.0, 39.5, 50.5]);
    assert_eq!(slab(inner_bound, Direction::Zlo), [-0.5, 10.5, 19.5, 30.5, 40.0, 43.0]);
    assert_eq!(slab(inner_bound, Direction::Zhi), [-0.5, 10.5, 19.5, 30.5, 47.0, 50.0]);
}

#[test]
fn outer_slabs() {
    assert_eq!(slab(outer_bound, Direction::Xlo), [-3.0, 0.0, 19.5, 30.5, 39.5, 50.5]);
    assert_eq!(slab(outer_bound, Direction::Xhi), [10.0, 13.0, 19.5, 30.5, 39.5, 50.5]);
    assert_eq!(slab(outer_bound, Direction::Ylo), [-0.5, 10.5, 17.0, 20.0, 39.5, 50.5]);
    assert_eq!(slab(outer_bound, Direction::Yhi), [-0.5, 10.5, 30.0, 33.0, 39.5, 50.5]);
    assert_eq!(slab(outer_bound, Direction::Zlo), [-0.5, 10.5, 19.5, 30.5, 37.0, 40.0]);
    assert_eq!(slab(outer_bound, Direction::Zhi), [-0.5, 10.5, 19.5, 30.5, 50.0, 53.0]);
}

#[test]
fn the_inner_slab_of_a_worker_is_the_outer_slab_of_its_neighbour() {
    // the neighbour across Xlo owns [-10, 0) along x and the same range across
    let all = [
        (Direction::Xlo, 0usize),
        (Direction::Xhi, 0),
        (Direction::Ylo, 1),
        (Direction::Yhi, 1),
        (Direction::Zlo, 2),
        (Direction::Zhi, 2),
    ];
    let lo = [0.0, 20.0, 40.0];
    let hi = [10.0, 30.0, 50.0];
    for (d, a) in all {
        let shift = if d.is_lo() { -10.0 } else { 10.0 };
        for (k, axis) in [Axis::X, Axis::Y, Axis::Z].into_iter().enumerate() {
            let (nlo, nhi) = if k == a {
                (lo[k] + shift, hi[k] + shift)
            } else {
                (lo[k], hi[k])
            };
            for hi_side in [false, true] {
                let mine = value(inner_bound(d, axis, hi_side), lo[k], hi[k], 3.0, 0.5);
                let theirs = value(outer_bound(d.opposite(), axis, hi_side), nlo, nhi, 3.0, 0.5);
                assert_eq!(mine, theirs);
            }
        }
    }
}

#[test]
fn a_duplicate_of_the_sender_feeds_the_inbox() {
    let mut c: Communicator<u32, usize> = Communicator::new();
    let first = c.clone_sender();
    let (other, _keep) = std::sync::mpsc::channel();
    c.set_neighbor_proc(NeighborDirection::Ylo, other);
    c.set_thread_ids(vec![1]);
    let second = c.clone_sender();
    first.send(1).unwrap();
    second.send(2).unwrap();
    assert_eq!(c.receiver().try_recv(), Ok(1));
    assert!(matches!(c.receive(), Ok(Some(2))));
    assert!(matches!(c.receive(), Ok(None)));
}

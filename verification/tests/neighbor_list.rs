use jmd::neighbor::{compute_stencil, NeighborList};
use jmd::utils::Index;

const FORCE_DISTANCE: f64 = 2.0;
const SKIN_DISTANCE: f64 = 1.0;
const BOX_LO: f64 = 0.0;
const BOX_HI: f64 = 10.0;

struct Setup {
    lo_corner: f64,
    bin_size: f64,
    neighbor_distance: f64,
    num_bins: [usize; 3],
    reach: i32,
    limit: u64,
}

fn setup() -> Setup {
    let neighbor_distance = FORCE_DISTANCE + SKIN_DISTANCE;
    let bin_size = neighbor_distance * 0.5;
    let buffer = 2.0 * neighbor_distance;
    let n = ((BOX_HI - BOX_LO + 2.0 * buffer) / bin_size).ceil() as usize;
    let ratio = neighbor_distance / bin_size;
    Setup {
        lo_corner: BOX_LO - buffer,
        bin_size,
        neighbor_distance,
        num_bins: [n, n, n],
        reach: ratio.ceil() as i32,
        limit: (ratio * ratio).ceil() as u64,
    }
}

fn setup_nl() -> NeighborList {
    let s = setup();
    NeighborList::new(s.num_bins, s.reach, s.limit)
}

fn bins_of(positions: &Vec<[f64; 3]>) -> Vec<[usize; 3]> {
    let s = setup();
    positions
        .iter()
        .map(|p| {
            [
                ((p[0] - s.lo_corner) / s.bin_size).floor() as usize,
                ((p[1] - s.lo_corner) / s.bin_size).floor() as usize,
                ((p[2] - s.lo_corner) / s.bin_size).floor() as usize,
            ]
        })
        .collect()
}

fn update(nl: &mut NeighborList, positions: &Vec<[f64; 3]>) {
    let s = setup();
    let cut = s.neighbor_distance * s.neighbor_distance;
    let bins = bins_of(positions);
    nl.update(&bins, |i: usize, j: usize| {
        let a = positions[i];
        let b = positions[j];
        let d = [a[0] - b[0], a[1] - b[1], a[2] - b[2]];
        d[0] * d[0] + d[1] * d[1] + d[2] * d[2] < cut
    });
}

fn empty() -> Vec<usize> {
    Vec::new()
}

#[test]
fn test_coord_in_grid() {
    let container_lo = 0.0f64;
    let bin_size = 2.0f64;
    let neighbor_distance = 3.0f64;
    let lo_corner = container_lo - 2.0 * neighbor_distance;
    let num_bins = [11usize, 11, 11];
    let bin = |c: f64| ((c - lo_corner) / bin_size).floor() as usize;
    let at = |p: [f64; 3]| Index::from_3d(&[bin(p[0]), bin(p[1]), bin(p[2])], &num_bins);
    assert_eq!(at([1.0, 1.0, 1.0]).to_3d(), vec![3usize, 3, 3]);
    assert_eq!(at([-5.0, -5.0, -5.0]).to_3d(), vec![0usize, 0, 0]);
}

#[test]
fn test_single_atom() {
    let mut nl = setup_nl();
    update(&mut nl, &vec![[1.0, 1.0, 1.0]]);
    assert_eq!(nl.neighbors()[0], empty());
}

#[test]
fn test_two_atoms() {
    let mut nl = setup_nl();
    update(&mut nl, &vec![[1.0, 1.0, 1.0], [1.0, 1.0, 2.0]]);
    let neighbors = nl.neighbors();
    assert_eq!(neighbors[0], vec![1]);
    assert_eq!(neighbors[1], empty());
}

#[test]
fn test_two_atoms_far() {
    let mut nl = setup_nl();
    update(&mut nl, &vec![[1.0, 1.0, 1.0], [1.0, 1.0, 9.0]]);
    let neighbors = nl.neighbors();
    assert_eq!(neighbors[0], empty());
    assert_eq!(neighbors[1], empty());
}

#[test]
fn test_four_atoms() {
    let mut nl = setup_nl();
    let pos = vec![
        [1.0, 1.0, 1.0],
        [1.0, 1.0, 9.0],
        [1.0, 2.0, 1.0],
        [1.0, 3.0, 9.0],
    ];
    update(&mut nl, &pos);
    let neighbors = nl.neighbors();
    assert_eq!(neighbors[0], vec![2]);
    assert_eq!(neighbors[1], vec![3]);
    assert_eq!(neighbors[2], empty());
    assert_eq!(neighbors[3], empty());

    let bins = nl.bin_atoms(&bins_of(&pos));
    let occupied_bins = vec![
        (4usize * 225 + 4 * 15 + 4, 0usize),
        (4usize * 225 + 4 * 15 + 10, 1usize),
        (4usize * 225 + 5 * 15 + 4, 2usize),
        (4usize * 225 + 6 * 15 + 10, 3usize),
    ];
    assert_eq!(bins.len(), 15 * 15 * 15);
    bins.iter().enumerate().for_each(|(i, b)| {
        let res = occupied_bins.iter().find(|(j, _idx)| i == *j);
        let v = match res {
            Some((_j, idx)) => vec![*idx],
            None => vec![],
        };
        assert_eq!(v, *b);
    });
}

#[test]
fn grid_of_the_test_box() {
    let s = setup();
    assert_eq!(s.num_bins, [15, 15, 15]);
    assert_eq!(s.reach, 2);
    assert_eq!(s.limit, 4);
    let nl = setup_nl();
    assert_eq!(nl.num_bins(), [15, 15, 15]);
    assert_eq!(nl.total_num_bins(), 3375);
    assert!(!nl.is_built());
    assert!(nl.neighbors().is_empty());
}

#[test]
fn atoms_in_one_bin_are_listed_in_ascending_order() {
    let nl = setup_nl();
    let bins = vec![[4usize, 4, 4], [5, 4, 4], [4, 4, 4], [4, 4, 4]];
    let per_bin = nl.bin_atoms(&bins);
    assert_eq!(per_bin[4 * 225 + 4 * 15 + 4], vec![0, 2, 3]);
    assert_eq!(per_bin[5 * 225 + 4 * 15 + 4], vec![1]);
    assert_eq!(per_bin.iter().map(|b| b.len()).sum::<usize>(), 4);
}

#[test]
fn far_atoms_in_a_box_that_does_not_wrap_have_no_neighbors() {
    // cutoff 3: the atoms are 8 apart and no ghost stands in for either
    let mut nl = setup_nl();
    update(&mut nl, &vec![[1.0, 1.0, 1.0], [1.0, 1.0, 9.0]]);
    assert!(nl.is_built());
    assert!(nl.neighbors().iter().all(|n| n.is_empty()));
}

#[test]
fn far_atoms_in_a_periodic_box_pair_through_the_ghost() {
    // the ghost of the atom at z = 9 stands at z = -1, two away from z = 1
    let mut nl = setup_nl();
    let pos = vec![[1.0, 1.0, 1.0], [1.0, 1.0, 9.0], [1.0, 1.0, -1.0]];
    update(&mut nl, &pos);
    let neighbors = nl.neighbors();
    let pairs: usize = neighbors.iter().map(|n| n.len()).sum();
    assert_eq!(pairs, 1);
    assert_eq!(neighbors[0], empty());
    assert_eq!(neighbors[1], empty());
    assert_eq!(neighbors[2], vec![0]);
}

#[test]
fn two_atom_placement() {
    let mut nl = NeighborList::new([15, 15, 15], 2, 4);
    update(&mut nl, &vec![[1.0, 1.0, 1.0], [1.0, 1.0, 2.0]]);
    assert_eq!(nl.neighbors()[0], vec![1]);
    assert_eq!(nl.neighbors()[1], empty());
}

#[test]
fn close_atoms_are_listed_once() {
    let mut nl = setup_nl();
    let mut pos: Vec<[f64; 3]> = Vec::new();
    for i in 0..4 {
        for j in 0..4 {
            for k in 0..4 {
                pos.push([
                    0.3 + 1.7 * i as f64,
                    0.9 + 1.3 * j as f64,
                    0.1 + 2.1 * k as f64,
                ]);
            }
        }
    }
    // some atoms that share a bin with an atom of the lattice
    pos.push([0.35, 0.95, 0.15]);
    pos.push([0.4, 1.0, 0.2]);
    pos.push([2.1, 2.3, 2.3]);
    update(&mut nl, &pos);
    let bins = bins_of(&pos);
    let neighbors = nl.neighbors();
    let mut close_pairs = 0;
    let mut shared_bin = 0;
    for i in 0..pos.len() {
        for j in 0..pos.len() {
            if i == j {
                continue;
            }
            let d = [
                pos[i][0] - pos[j][0],
                pos[i][1] - pos[j][1],
                pos[i][2] - pos[j][2],
            ];
            let close = d[0] * d[0] + d[1] * d[1] + d[2] * d[2] < 9.0;
            let listed = neighbors[i].contains(&j);
            let listed_back = neighbors[j].contains(&i);
            if !close {
                assert!(!listed);
            } else {
                close_pairs += 1;
                if bins[i] == bins[j] {
                    shared_bin += 1;
                    assert_eq!(listed, i < j);
                }
                assert!(listed != listed_back);
            }
            assert!(neighbors[i].iter().filter(|&&n| n == j).count() <= 1);
        }
    }
    assert!(close_pairs > 0);
    assert!(shared_bin > 0);
}

#[test]
fn rebuilding_without_motion_gives_the_same_lists() {
    let mut nl = setup_nl();
    let pos = vec![
        [1.0, 1.0, 1.0],
        [1.0, 1.0, 2.0],
        [2.0, 1.5, 1.0],
        [9.0, 9.0, 9.0],
        [8.5, 9.5, 7.0],
    ];
    update(&mut nl, &pos);
    let first: Vec<Vec<usize>> = nl.neighbors().clone();
    update(&mut nl, &pos);
    assert_eq!(*nl.neighbors(), first);
    let mut other = setup_nl();
    update(&mut other, &vec![[5.0, 5.0, 5.0]]);
    update(&mut other, &pos);
    assert_eq!(*other.neighbors(), first);
}

#[test]
fn reset_drops_the_lists() {
    let mut nl = setup_nl();
    update(&mut nl, &vec![[1.0, 1.0, 1.0], [1.0, 1.0, 2.0]]);
    assert!(nl.is_built());
    nl.reset([4, 5, 6], 1, 1);
    assert!(!nl.is_built());
    assert!(nl.neighbors().is_empty());
    assert_eq!(nl.num_bins(), [4, 5, 6]);
    assert_eq!(nl.total_num_bins(), 120);
    assert_eq!(*nl.stencil(), compute_stencil(1, 1));
}

fn enumerated(reach: i32, limit: i64) -> Vec<[i32; 3]> {
    let gap = |d: i32| {
        let g = ((d.abs() - 1).max(0)) as i64;
        g * g
    };
    let near = |i: i32, j: i32, k: i32| gap(i) + gap(j) + gap(k) < limit;
    let mut expected: Vec<[i32; 3]> = Vec::new();
    for i in 0..=reach {
        if near(i, 0, 0) {
            expected.push([i, 0, 0]);
        }
    }
    for i in -reach..=reach {
        for j in 1..=reach {
            if near(i, j, 0) {
                expected.push([i, j, 0]);
            }
        }
    }
    for i in -reach..=reach {
        for j in -reach..=reach {
            for k in 1..=reach {
                if near(i, j, k) {
                    expected.push([i, j, k]);
                }
            }
        }
    }
    expected
}

#[test]
fn stencil_count() {
    // bin_size = neighbor_distance / 2: every corner gap is at most one bin
    let stencil = compute_stencil(2, 4);
    assert_eq!(stencil.len(), 3 + 5 * 2 + 5 * 5 * 2);
    assert_eq!(stencil, enumerated(2, 4));
    assert_eq!(&stencil[..4], &[[0, 0, 0], [1, 0, 0], [2, 0, 0], [-2, 1, 0]]);
    assert_eq!(stencil[stencil.len() - 1], [2, 2, 2]);
    for o in &stencil {
        let opposite = [-o[0], -o[1], -o[2]];
        assert_eq!(stencil.contains(&opposite), *o == [0, 0, 0]);
    }
}

#[test]
fn stencil_leaves_out_offsets_that_are_too_far() {
    // squared gaps: 0 for |d| <= 1, 1 for 2, 4 for 3
    let stencil = compute_stencil(3, 5);
    assert_eq!(stencil, enumerated(3, 5));
    assert!(stencil.contains(&[3, 0, 0]));
    assert!(stencil.contains(&[2, 2, 2]));
    assert!(!stencil.contains(&[3, 2, 0]));
    assert!(!stencil.contains(&[3, 3, 3]));
    assert!(compute_stencil(2, 0).is_empty());
    assert_eq!(compute_stencil(0, 1), vec![[0, 0, 0]]);
}

#[test]
fn two_atoms_in_one_bin_are_listed_by_the_earlier() {
    let mut nl = setup_nl();
    let pos = vec![[1.0, 1.0, 1.0], [1.2, 1.1, 1.0], [1.1, 1.0, 1.2]];
    assert_eq!(bins_of(&pos), vec![[4, 4, 4]; 3]);
    update(&mut nl, &pos);
    let neighbors = nl.neighbors();
    assert_eq!(neighbors[0], vec![1, 2]);
    assert_eq!(neighbors[1], vec![2]);
    assert_eq!(neighbors[2], empty());
}

use jmd::utils::indices::linear_index;
use jmd::utils::Index;

#[test]
fn linear_index_is_row_major() {
    assert_eq!(linear_index(&[0, 0, 0], &[2, 3, 4]), 0);
    assert_eq!(linear_index(&[0, 0, 1], &[2, 3, 4]), 1);
    assert_eq!(linear_index(&[0, 1, 0], &[2, 3, 4]), 4);
    assert_eq!(linear_index(&[1, 0, 0], &[2, 3, 4]), 12);
    assert_eq!(linear_index(&[1, 2, 3], &[2, 3, 4]), 23);
    assert_eq!(Index::from_3d(&[3, 3, 7], &[11, 11, 11]).idx(), 3 * 121 + 3 * 11 + 7);
}

#[test]
fn from_3d_then_to_3d_is_the_identity() {
    let bounds = [3usize, 4, 5];
    for x in 0..3 {
        for y in 0..4 {
            for z in 0..5 {
                let index = Index::from_3d(&[x, y, z], &bounds);
                assert_eq!(index.to_3d(), vec![x, y, z]);
                assert_eq!(index.bounds(), vec![3, 4, 5]);
            }
        }
    }
}

#[test]
fn from_1d_then_to_3d_then_from_3d_is_the_identity() {
    let bounds = [2usize, 3, 2];
    let mut seen: Vec<Vec<usize>> = Vec::new();
    for idx in 0..12 {
        let coords = Index::from_1d(idx, &bounds).to_3d();
        assert!(coords[0] < 2 && coords[1] < 3 && coords[2] < 2);
        assert_eq!(Index::from_3d(&coords, &bounds).idx(), idx);
        assert!(!seen.contains(&coords));
        seen.push(coords);
    }
    assert_eq!(Index::from_1d(7, &bounds).to_3d(), vec![1, 0, 1]);
}

#[test]
fn grids_of_other_dimensions() {
    assert_eq!(Index::from_3d(&[5], &[9]).idx(), 5);
    assert_eq!(Index::from_1d(5, &[9]).to_3d(), vec![5]);
    let index = Index::from_3d(&[1, 2, 3, 4], &[2, 3, 4, 5]);
    assert_eq!(index.idx(), ((1 * 3 + 2) * 4 + 3) * 5 + 4);
    assert_eq!(index.to_3d(), vec![1, 2, 3, 4]);
}

#[test]
fn a_new_index_is_zero_in_a_grid_of_zeros() {
    let index = Index::new(3);
    assert_eq!(index.idx(), 0);
    assert_eq!(index.bounds(), vec![0, 0, 0]);
    assert_eq!(Index::new(0).bounds(), Vec::<usize>::new());
}

#[test]
fn setters_replace_one_part() {
    let mut index = Index::from_3d(&[1, 1, 1], &[2, 2, 2]);
    assert_eq!(index.idx(), 7);
    index.set_bounds(&[3, 3, 3]);
    assert_eq!(index.idx(), 7);
    assert_eq!(index.bounds(), vec![3, 3, 3]);
    assert_eq!(index.to_3d(), vec![0, 2, 1]);
    index.set_idx(26);
    assert_eq!(index.to_3d(), vec![2, 2, 2]);
}

use jmd::utils::{get_sort_indices, sort_atoms};

#[test]
fn sort_indices_of_three_keys() {
    let unsorted_vec = vec![2, 0, 1];
    let indices = get_sort_indices(&unsorted_vec);
    assert_eq!(indices, vec![1, 2, 0]);
    assert_eq!(0, unsorted_vec[indices[0]]);
    assert_eq!(1, unsorted_vec[indices[1]]);
    assert_eq!(2, unsorted_vec[indices[2]]);
}

#[test]
fn sort_atoms_by_indices() {
    let mut sort_keys = vec![2usize, 0, 1];
    let indices = get_sort_indices(&sort_keys);
    let mut other_prop = vec![1.0, 2.0, 3.0];
    let mut other_prop2 = vec![[1.0, 1.0, 1.0], [3.0, 3.0, 3.0], [2.0, 2.0, 2.0]];
    sort_atoms(&indices, &mut sort_keys);
    sort_atoms(&indices, &mut other_prop);
    sort_atoms(&indices, &mut other_prop2);
    assert_eq!(sort_keys, vec![0usize, 1, 2]);
    assert_eq!(other_prop, vec![2.0, 3.0, 1.0]);
    assert_eq!(
        other_prop2,
        vec![[3.0, 3.0, 3.0], [2.0, 2.0, 2.0], [1.0, 1.0, 1.0]]
    );
}

#[test]
fn equal_keys_keep_their_order() {
    let keys = vec![3usize, 1, 3, 0, 1, 3, 0];
    let indices = get_sort_indices(&keys);
    assert_eq!(indices, vec![3, 6, 1, 4, 0, 2, 5]);
    let mut expected: Vec<usize> = (0..keys.len()).collect();
    expected.sort_by_key(|&i| keys[i]);
    assert_eq!(indices, expected);
}

#[test]
fn nothing_to_sort() {
    assert_eq!(get_sort_indices(&Vec::new()), Vec::<usize>::new());
    assert_eq!(get_sort_indices(&vec![5]), vec![0]);
    let mut nothing: Vec<u8> = Vec::new();
    sort_atoms(&Vec::new(), &mut nothing);
    assert!(nothing.is_empty());
}

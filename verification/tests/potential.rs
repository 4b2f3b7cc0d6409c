use jmd::atomic::{CoeffTable, None_};

#[test]
fn a_new_table_has_no_types() {
    let table: CoeffTable<f64> = CoeffTable::new();
    assert_eq!(table.num_types(), 0);
    assert!(table.all_set());
}

#[test]
fn set_coeff_fills_both_orders_of_a_pair() {
    let mut table: CoeffTable<f64> = CoeffTable::new();
    table.set_num_types(3);
    assert_eq!(table.num_types(), 3);
    assert!(!table.all_set());
    table.set_coeff(0, 2, 1.5);
    assert_eq!(table.coeff(0, 2), Some(1.5));
    assert_eq!(table.coeff(2, 0), Some(1.5));
    assert_eq!(table.coeff(0, 0), None);
    assert_eq!(table.coeff(2, 2), None);
    assert_eq!(table.type_idx(0, 2), 2);
    assert_eq!(table.type_idx(2, 0), 6);
    assert_eq!(table.type_idx(1, 1), 4);
}

#[test]
fn all_set_needs_every_pair() {
    let mut table: CoeffTable<u8> = CoeffTable::new();
    table.set_num_types(2);
    table.set_coeff(0, 0, 1);
    table.set_coeff(0, 1, 2);
    assert!(!table.all_set());
    table.set_coeff(1, 1, 3);
    assert!(table.all_set());
}

#[test]
fn growing_keeps_what_was_set() {
    let mut table: CoeffTable<u32> = CoeffTable::new();
    table.set_num_types(2);
    table.set_coeff(0, 0, 10);
    table.set_coeff(0, 1, 11);
    table.set_coeff(1, 1, 13);
    table.set_num_types(4);
    assert_eq!(table.num_types(), 4);
    assert_eq!(table.coeff(0, 0), Some(10));
    assert_eq!(table.coeff(0, 1), Some(11));
    assert_eq!(table.coeff(1, 0), Some(11));
    assert_eq!(table.coeff(1, 1), Some(13));
    for i in 0..4 {
        for j in 0..4 {
            if i >= 2 || j >= 2 {
                assert_eq!(table.coeff(i, j), None);
            }
        }
    }
    assert!(!table.all_set());
}

#[test]
fn shrinking_keeps_the_pairs_that_remain() {
    let mut table: CoeffTable<u32> = CoeffTable::new();
    table.set_num_types(3);
    for i in 0..3usize {
        for j in i..3usize {
            table.set_coeff(i, j, (10 * i + j) as u32);
        }
    }
    assert!(table.all_set());
    table.set_num_types(2);
    assert_eq!(table.num_types(), 2);
    assert_eq!(table.coeff(0, 0), Some(0));
    assert_eq!(table.coeff(0, 1), Some(1));
    assert_eq!(table.coeff(1, 0), Some(1));
    assert_eq!(table.coeff(1, 1), Some(11));
    assert!(table.all_set());
    table.set_num_types(0);
    assert_eq!(table.num_types(), 0);
}

#[test]
fn setting_the_same_number_of_types_twice_changes_nothing() {
    let mut table: CoeffTable<u32> = CoeffTable::new();
    table.set_num_types(3);
    table.set_coeff(1, 2, 7);
    let cells = |t: &CoeffTable<u32>| -> Vec<Option<u32>> {
        let mut all = Vec::new();
        for i in 0..3 {
            for j in 0..3 {
                all.push(t.coeff(i, j));
            }
        }
        all
    };
    let once = cells(&table);
    table.set_num_types(3);
    assert_eq!(cells(&table), once);
    table.set_num_types(3);
    assert_eq!(cells(&table), once);
    assert_eq!(table.num_types(), 3);
}

#[test]
fn the_potential_without_forces_needs_no_coefficients() {
    let mut none = None_::new();
    none.set_num_types(4);
    none.set_coeff(1, 2);
    assert_eq!(none.num_types(), 0);
    assert!(none.all_set());
}

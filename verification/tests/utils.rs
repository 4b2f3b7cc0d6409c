use jmd::container::{Container, BC};
use jmd::utils::select::{gather, mark, pick};
use jmd::utils::{Axis, CoeffType, KeyedVec, TypeRange, Types};

#[test]
fn a_keyed_vec_keeps_the_order_of_insertion() {
    let mut table: KeyedVec<String, u32> = KeyedVec::new();
    assert_eq!(table.len(), 0);
    table.add(String::from("b"), 2);
    table.add(String::from("a"), 1);
    assert_eq!(table.len(), 2);
    assert_eq!(*table.get(&String::from("a")).unwrap(), 1);
    assert_eq!(*table.get(&String::from("b")).unwrap(), 2);
    assert!(table.get(&String::from("c")).is_err());
    assert!(table.contains(&String::from("b")));
    assert!(!table.contains(&String::from("c")));
    assert_eq!(table.position(&String::from("a")), Some(1));
    assert_eq!(*table.index(0), 2);
    assert_eq!(*table.keys(), vec![String::from("b"), String::from("a")]);
    assert_eq!(*table.values(), vec![2, 1]);
    let (keys, values) = table.into_parts();
    assert_eq!(keys.len(), 2);
    assert_eq!(values, vec![2, 1]);
}

#[test]
fn types_as_vectors_and_ranges() {
    assert_eq!(Types::One(4).to_vec(), vec![4]);
    assert_eq!(Types::Range(2..5).to_vec(), vec![2, 3, 4]);
    assert_eq!(Types::Range(5..5).to_vec(), Vec::<usize>::new());
    assert_eq!(Types::Range(5..2).to_vec(), Vec::<usize>::new());
    assert_eq!(Types::One(4).to_range(), 4..5);
    assert_eq!(Types::Range(2..5).to_range(), 2..5);
    assert_eq!(Types::from(3usize).to_vec(), vec![3]);
    assert_eq!(Types::from(1..3).to_vec(), vec![1, 2]);
}

#[test]
fn type_ranges_may_be_open() {
    let closed = TypeRange::new(Some(2), Some(4));
    assert!(!closed.contains(1));
    assert!(closed.contains(2));
    assert!(closed.contains(4));
    assert!(!closed.contains(5));
    assert_eq!(closed.min(), Some(2));
    assert_eq!(closed.max(), Some(4));
    let from = TypeRange::new(Some(3), None);
    assert!(!from.contains(2));
    assert!(from.contains(u32::MAX));
    assert_eq!(from.max(), None);
    let up_to = TypeRange::new(None, Some(3));
    assert!(up_to.contains(0));
    assert!(!up_to.contains(4));
    assert_eq!(up_to.min(), None);
    let all = TypeRange::new(None, None);
    assert!(all.contains(0) && all.contains(u32::MAX));
    assert!(!TypeRange::new(Some(4), Some(2)).contains(3));
    assert_ne!(CoeffType::Value(1), CoeffType::Span);
}

#[test]
fn only_pp_is_periodic() {
    let all = [
        BC::PP,
        BC::FF,
        BC::FM,
        BC::FS,
        BC::MF,
        BC::MM,
        BC::MS,
        BC::SF,
        BC::SM,
        BC::SS,
    ];
    for bc in all {
        assert_eq!(bc.is_periodic(), bc == BC::PP);
    }
}

#[test]
fn a_container_has_a_condition_per_axis() {
    let mut container = Container::new([0.0f64, 10.0], BC::PP, BC::FF, BC::SS);
    assert!(container.is_periodic(Axis::X));
    assert!(!container.is_periodic(Axis::Y));
    assert!(!container.is_periodic(Axis::Z));
    assert_eq!(*container.rect(), [0.0, 10.0]);
    container.set_boundary_condition(Axis::Y, BC::PP);
    container.set_boundary_condition(Axis::X, BC::MM);
    assert!(!container.is_periodic(Axis::X));
    assert!(container.is_periodic(Axis::Y));
    assert!(!container.is_periodic(Axis::Z));
    container.set_rect([1.0, 2.0]);
    assert_eq!(*container.rect(), [1.0, 2.0]);
    let periodic = Container::from_rect_periodic(7u8);
    assert!(periodic.is_periodic(Axis::X));
    assert!(periodic.is_periodic(Axis::Y));
    assert!(periodic.is_periodic(Axis::Z));
    assert_eq!(*periodic.rect(), 7);
}

#[test]
fn picking_by_flags() {
    let flags = vec![true, false, true, true, false];
    assert_eq!(pick(&flags, true, 0, 5), vec![0, 2, 3]);
    assert_eq!(pick(&flags, false, 0, 5), vec![1, 4]);
    assert_eq!(pick(&flags, true, 1, 3), vec![2]);
    assert_eq!(pick(&flags, true, 3, 3), Vec::<usize>::new());
    assert_eq!(pick(&flags, true, 4, 2), Vec::<usize>::new());
    assert_eq!(mark(&vec![3, 0, 3], 5), vec![true, false, false, true, false]);
    assert_eq!(mark(&vec![], 2), vec![false, false]);
    assert_eq!(gather(&vec!['a', 'b', 'c'], &vec![2, 0, 2]), vec!['c', 'a', 'c']);
}

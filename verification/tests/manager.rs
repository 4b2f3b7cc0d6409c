use jmd::compute::Compute;
use jmd::error::Error;
use jmd::jmd::{Manager, RowCollector, SumCollective};
use jmd::output::{reduce, resolve_column, resolve_columns, Operatable, Operation, Output, OutputSpec};
use jmd::utils::KeyedVec;

#[test]
fn the_manager_counts_workers_that_are_done() {
    let mut manager = Manager::new(2);
    assert_eq!(manager.num_workers(), 2);
    assert_eq!(manager.complete(), Ok(false));
    assert_eq!(manager.complete(), Ok(true));
    assert_eq!(manager.complete(), Err(Error::OtherError));
}

#[test]
fn the_first_header_stays() {
    let mut manager = Manager::new(2);
    assert!(manager.header().is_empty());
    manager.setup_output(vec![OutputSpec::Step, OutputSpec::Compute(Compute::TotalE)]);
    manager.setup_output(vec![OutputSpec::Step]);
    assert_eq!(
        *manager.header(),
        vec![OutputSpec::Step, OutputSpec::Compute(Compute::TotalE)]
    );
    let titles: Vec<&str> = manager.header().iter().map(|c| c.name()).collect();
    assert_eq!(titles, vec!["step", "TotalE"]);
}

#[test]
fn a_posted_sender_goes_to_the_peer() {
    let manager = Manager::new(4);
    assert_eq!(manager.route_sender(true, 3), Some(3));
    assert_eq!(manager.route_sender(false, 3), None);
    assert_eq!(manager.route_sender(false, 0), None);
    assert_eq!(manager.route_sender(true, 4), None);
}

#[test]
fn a_row_is_complete_when_every_worker_reported_every_column() {
    let mut row: RowCollector<f64> = RowCollector::new(2, 2);
    assert_eq!(row.expected_messages(), Some(4));
    assert!(!row.is_complete());
    assert_eq!(row.push(1, 10.0), Ok(()));
    assert_eq!(row.push(0, 0.0), Ok(()));
    assert_eq!(row.push(1, 11.0), Ok(()));
    assert!(!row.is_complete());
    assert_eq!(row.push(1, 12.0), Err(Error::OtherError));
    assert_eq!(row.push(2, 1.0), Err(Error::OtherError));
    assert_eq!(row.push(0, 1.0), Ok(()));
    assert!(row.is_complete());
    assert_eq!(row.column(0), vec![0.0, 10.0]);
    assert_eq!(row.column(1), vec![1.0, 11.0]);
    let huge: RowCollector<u8> = RowCollector::new(3, usize::MAX);
    assert_eq!(huge.expected_messages(), None);
}

#[test]
fn manager_reduction() {
    let n_global = 1000.0f64;
    let kinetic = [3.1f64, 4.2];
    let mut row: RowCollector<f64> = RowCollector::new(2, 2);
    for (worker, ke) in kinetic.iter().enumerate() {
        row.push(worker, 50.0).unwrap();
        row.push(worker, 2.0 / 3.0 * ke / n_global).unwrap();
    }
    assert!(row.is_complete());
    let columns = [OutputSpec::Step, OutputSpec::Compute(Compute::Temperature)];
    let step = reduce(columns[0].operation(), &row.column(0), |a: f64, b: f64| a + b);
    assert_eq!(step, 50.0);
    let temperature = reduce(columns[1].operation(), &row.column(1), |a: f64, b: f64| a + b);
    let expected = (3.1 + 4.2) * (2.0 / 3.0) / n_global;
    assert!((temperature - expected).abs() < 1e-15);
}

#[test]
fn values_are_combined_from_the_left() {
    let values = vec![8i64, 3, 5, 1];
    assert_eq!(reduce(Operation::First, &values, |a: i64, b: i64| a + b), 8);
    assert_eq!(reduce(Operation::Sum, &values, |a: i64, b: i64| a + b), 17);
    assert_eq!(reduce(Operation::Max, &values, |a: i64, b: i64| a.max(b)), 8);
    assert_eq!(reduce(Operation::Min, &values, |a: i64, b: i64| a.min(b)), 1);
    assert_eq!(reduce(Operation::Sum, &values, |a: i64, b: i64| a - b), -1);
    assert_eq!(reduce(Operation::Sum, &vec![4i64], |a: i64, b: i64| a + b), 4);
}

#[test]
fn a_collective_sum_completes_with_the_last_worker() {
    let mut sum = SumCollective::new(3);
    assert_eq!(sum.add(4), None);
    assert_eq!((sum.received(), sum.total()), (1, 4));
    assert_eq!(sum.add(0), None);
    assert_eq!(sum.add(7), Some(11));
    assert_eq!((sum.received(), sum.total()), (0, 0));
    assert_eq!(sum.add(1), None);
    assert_eq!(sum.add(1), None);
    assert_eq!(sum.add(1), Some(3));
    let mut alone = SumCollective::new(1);
    assert_eq!(alone.add(9), Some(9));
    assert_eq!(alone.add(2), Some(2));
}

#[test]
fn computes_have_names_and_are_summed() {
    let all = [
        (Compute::AvgVsq, "AvgVsq"),
        (Compute::KineticE, "KineticE"),
        (Compute::PotentialE, "PotentialE"),
        (Compute::Temperature, "Temperature"),
        (Compute::TotalE, "TotalE"),
    ];
    for (compute, name) in all {
        assert_eq!(compute.name(), name);
        assert_eq!(compute.op(), Operation::Sum);
        assert_eq!(OutputSpec::Compute(compute).name(), name);
        assert_eq!(OutputSpec::Compute(compute).operation(), Operation::Sum);
    }
    assert_eq!(OutputSpec::Step.name(), "step");
    assert_eq!(OutputSpec::Step.operation(), Operation::First);
}

#[test]
fn output_is_due_on_multiples() {
    let mut output = Output::new();
    assert_eq!(output.every, 100);
    assert!(output.values.is_empty());
    assert!(output.is_due(0));
    assert!(!output.is_due(50));
    assert!(output.is_due(200));
    output.every = 50;
    assert!(output.is_due(50));
    assert!(!output.is_due(51));
}

#[test]
fn column_names_are_resolved_in_order() {
    let mut computes: KeyedVec<String, Compute> = KeyedVec::new();
    computes.add(String::from("T"), Compute::Temperature);
    computes.add(String::from("KineticE"), Compute::KineticE);
    let keys = vec![
        String::from("KineticE"),
        String::from("step"),
        String::from("T"),
    ];
    let columns = resolve_columns(&keys, &computes).unwrap();
    assert_eq!(
        columns,
        vec![
            OutputSpec::Compute(Compute::KineticE),
            OutputSpec::Step,
            OutputSpec::Compute(Compute::Temperature)
        ]
    );
    assert!(resolve_columns(&Vec::new(), &computes).unwrap().is_empty());
}

#[test]
fn an_unknown_column_name_is_an_error() {
    let mut computes: KeyedVec<String, Compute> = KeyedVec::new();
    computes.add(String::from("T"), Compute::Temperature);
    assert!(resolve_column(&String::from("Temperature"), &computes).is_err());
    assert!(resolve_column(&String::from("Step"), &computes).is_err());
    assert!(resolve_column(&String::from("T"), &computes).is_ok());
    let keys = vec![String::from("step"), String::from("PotentialE")];
    assert!(resolve_columns(&keys, &computes).is_err());
}

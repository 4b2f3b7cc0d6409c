use jmd::neighbor::UpdateSettings;
use jmd::simulation::{Action, Driver, Phase};

#[test]
fn update_policy_counts_from_the_last_rebuild() {
    let mut settings = UpdateSettings::new(10, 20, true);
    assert_eq!(settings.every, 10);
    assert_eq!(settings.delay, 20);
    assert!(settings.check);
    assert_eq!(settings.last_update_step(), 0);
    assert!(!settings.should_update_neighbors(5));
    assert!(!settings.should_update_neighbors(10));
    assert!(settings.should_update_neighbors(20));
    assert!(settings.should_update_neighbors(30));
    assert!(!settings.should_update(30, false));
    assert!(settings.should_update(30, true));
    assert!(!settings.should_update(25, true));
    settings.record_update(33);
    assert_eq!(settings.last_update_step(), 33);
    assert!(!settings.should_update_neighbors(40));
    assert!(!settings.should_update_neighbors(43));
    assert!(settings.should_update_neighbors(53));
    assert!(settings.should_update_neighbors(63));
}

#[test]
fn update_policy_without_check_does_not_look_at_the_atoms() {
    let settings = UpdateSettings::new(1, 0, false);
    assert!(settings.should_update(0, false));
    assert!(settings.should_update(7, false));
    let delayed = UpdateSettings::new(2, 3, false);
    assert!(!delayed.should_update(2, true));
    assert!(delayed.should_update(4, false));
    assert!(!delayed.should_update(5, true));
}

#[test]
fn the_stages_of_a_step_come_in_order() {
    let mut phase = Phase::PreForward;
    let expected = [
        Phase::ForwardComm,
        Phase::PostForward,
        Phase::RebuildCheck,
        Phase::PreForce,
        Phase::ForceCompute,
        Phase::PreReverse,
        Phase::ReverseComm,
        Phase::PostReverse,
        Phase::OutputCheck,
        Phase::PreForward,
    ];
    for e in expected {
        phase = phase.next();
        assert_eq!(phase, e);
    }
}

fn run_step(driver: &mut Driver, nl_built: bool, moved: bool) -> Vec<Action> {
    (0..10).map(|_| driver.next(nl_built, moved)).collect()
}

#[test]
fn a_run_of_three_steps() {
    let mut driver = Driver::new(2, 1, 0, true, 2);
    assert_eq!(driver.step(), 0);
    assert_eq!(driver.phase(), Phase::PreForward);
    let first = run_step(&mut driver, false, false);
    assert_eq!(
        first,
        vec![
            Action::KickAndDrift,
            Action::ForwardComm,
            Action::PostForward,
            Action::Rebuild,
            Action::PreForce,
            Action::ComputeForces,
            Action::PreReverse,
            Action::ReverseComm,
            Action::Kick,
            Action::WriteRow,
        ]
    );
    assert_eq!(driver.step(), 1);
    assert!(!driver.is_finished());
    let second = run_step(&mut driver, true, false);
    assert_eq!(second[3], Action::KeepNeighbors);
    assert_eq!(second[9], Action::SkipRow);
    assert_eq!(driver.step(), 2);
    let third = run_step(&mut driver, true, true);
    assert_eq!(third[3], Action::Rebuild);
    assert_eq!(third[9], Action::WriteRow);
    assert!(driver.is_finished());
    assert_eq!(driver.step(), 2);
    assert_eq!(driver.next(true, true), Action::Finished);
    assert_eq!(driver.next(false, false), Action::Finished);
    assert!(driver.is_finished());
}

#[test]
fn rebuilds_follow_the_policy() {
    let mut driver = Driver::new(12, 2, 4, false, 100);
    let mut rebuilt: Vec<usize> = Vec::new();
    while !driver.is_finished() {
        let step = driver.step();
        if driver.next(step > 0, false) == Action::Rebuild {
            rebuilt.push(step);
        }
    }
    // step 0: never built; then four steps after each rebuild
    assert_eq!(rebuilt, vec![0, 4, 8, 12]);
}

#[test]
fn a_run_of_no_steps_still_does_step_zero() {
    let mut driver = Driver::new(0, 1, 0, false, 1);
    let actions = run_step(&mut driver, false, false);
    assert_eq!(actions[0], Action::KickAndDrift);
    assert_eq!(actions[9], Action::WriteRow);
    assert!(driver.is_finished());
}

use wham::driver::{Action, Driver, Outcome, Phase, StepReport, CHECK_INTERVAL};

const CALM: StepReport = StepReport { finite: true, within_tolerance: true };
const MOVING: StepReport = StepReport { finite: true, within_tolerance: false };
const BROKEN: StepReport = StepReport { finite: false, within_tolerance: false };

// Runs the driver to the end; `report` is what the caller observes of each iteration.
fn drive(max_iterations: usize, report: &dyn Fn(usize, bool) -> StepReport) -> (Outcome, usize) {
    let mut driver = Driver::new(max_iterations);
    let mut performed: usize = 0;
    loop {
        match driver.next_action() {
            Action::Iterate { iteration, check_convergence } => {
                performed += 1;
                assert_eq!(iteration, performed);
                assert_eq!(check_convergence, iteration % 10 == 0);
                driver.record(report(iteration, check_convergence));
                assert_eq!(driver.iteration(), performed);
            }
            Action::Finish { outcome } => return (outcome, performed),
        }
    }
}

#[test]
fn the_check_interval_is_ten() {
    assert_eq!(CHECK_INTERVAL, 10);
}

#[test]
fn a_fresh_run_asks_for_the_first_iteration() {
    let driver = Driver::new(100);
    assert_eq!(driver.iteration(), 0);
    assert_eq!(driver.max_iterations(), 100);
    assert_eq!(driver.phase(), Phase::Running);
    assert_eq!(
        driver.next_action(),
        Action::Iterate { iteration: 1, check_convergence: false }
    );
}

#[test]
fn convergence_is_declared_at_the_first_check() {
    let (outcome, performed) = drive(1000, &|_, _| CALM);
    assert_eq!(outcome, Outcome::Converged { iterations: 10 });
    assert_eq!(performed, 10);
}

#[test]
fn convergence_is_declared_at_the_first_successful_check() {
    let (outcome, performed) = drive(1000, &|n, _| if n >= 25 { CALM } else { MOVING });
    assert_eq!(outcome, Outcome::Converged { iterations: 30 });
    assert_eq!(performed, 30);
}

#[test]
fn convergence_is_not_declared_between_checks() {
    // Within tolerance on every iteration but the checked ones.
    let (outcome, performed) = drive(35, &|_, check| if check { MOVING } else { CALM });
    assert_eq!(outcome, Outcome::MaxIterationsReached { iterations: 35 });
    assert_eq!(performed, 35);
}

#[test]
fn the_budget_ends_a_run_that_does_not_converge() {
    let (outcome, performed) = drive(42, &|_, _| MOVING);
    assert_eq!(outcome, Outcome::MaxIterationsReached { iterations: 42 });
    assert_eq!(performed, 42);
}

#[test]
fn a_budget_below_the_interval_never_converges() {
    let (outcome, performed) = drive(9, &|_, _| CALM);
    assert_eq!(outcome, Outcome::MaxIterationsReached { iterations: 9 });
    assert_eq!(performed, 9);
}

#[test]
fn an_empty_budget_ends_the_run_at_once() {
    let driver = Driver::new(0);
    assert_eq!(driver.phase(), Phase::MaxIterationsReached);
    assert_eq!(
        driver.next_action(),
        Action::Finish { outcome: Outcome::MaxIterationsReached { iterations: 0 } }
    );
    let (outcome, performed) = drive(0, &|_, _| CALM);
    assert_eq!(outcome, Outcome::MaxIterationsReached { iterations: 0 });
    assert_eq!(performed, 0);
}

#[test]
fn convergence_on_the_last_iteration_counts_as_convergence() {
    let (outcome, performed) = drive(20, &|n, _| if n == 20 { CALM } else { MOVING });
    assert_eq!(outcome, Outcome::Converged { iterations: 20 });
    assert_eq!(performed, 20);
}

#[test]
fn values_that_are_not_finite_end_the_run() {
    let (outcome, performed) = drive(1000, &|n, _| if n == 3 { BROKEN } else { MOVING });
    assert_eq!(outcome, Outcome::NumericalFailure { iteration: 3 });
    assert_eq!(performed, 3);
}

#[test]
fn a_numerical_failure_outranks_a_successful_check() {
    let both = StepReport { finite: false, within_tolerance: true };
    let (outcome, _) = drive(1000, &|n, _| if n == 10 { both } else { MOVING });
    assert_eq!(outcome, Outcome::NumericalFailure { iteration: 10 });
}

#[test]
fn a_numerical_failure_outranks_the_end_of_the_budget() {
    let (outcome, _) = drive(7, &|n, _| if n == 7 { BROKEN } else { MOVING });
    assert_eq!(outcome, Outcome::NumericalFailure { iteration: 7 });
}

#[test]
fn a_finished_run_ignores_further_reports() {
    let mut driver = Driver::new(10);
    for _ in 0..10 {
        driver.record(CALM);
    }
    assert_eq!(driver.phase(), Phase::Converged);
    assert_eq!(driver.iteration(), 10);
    driver.record(BROKEN);
    driver.record(MOVING);
    assert_eq!(driver.phase(), Phase::Converged);
    assert_eq!(driver.iteration(), 10);
    assert_eq!(
        driver.next_action(),
        Action::Finish { outcome: Outcome::Converged { iterations: 10 } }
    );
}

#[test]
fn the_largest_budget_does_not_overflow() {
    let mut driver = Driver::new(usize::MAX);
    for _ in 0..9 {
        driver.record(MOVING);
    }
    assert_eq!(
        driver.next_action(),
        Action::Iterate { iteration: 10, check_convergence: true }
    );
    driver.record(CALM);
    assert_eq!(driver.phase(), Phase::Converged);
}

#[test]
fn a_driver_can_be_copied() {
    let mut driver = Driver::new(30);
    driver.record(MOVING);
    let copy = driver;
    driver.record(MOVING);
    assert_eq!(copy.iteration(), 1);
    assert_eq!(driver.iteration(), 2);
}

#[test]
fn only_a_numerical_failure_leaves_nothing_to_write() {
    assert!(Outcome::Converged { iterations: 10 }.emits_estimate());
    assert!(Outcome::MaxIterationsReached { iterations: 7 }.emits_estimate());
    assert!(!Outcome::NumericalFailure { iteration: 3 }.emits_estimate());
}

#[test]
fn only_an_exhausted_budget_warns() {
    assert!(!Outcome::Converged { iterations: 10 }.warns());
    assert!(Outcome::MaxIterationsReached { iterations: 7 }.warns());
    assert!(!Outcome::NumericalFailure { iteration: 3 }.warns());
}

use rating_period::binary64::{Binary64, INFINITY_BITS, SIGN_BIT};
use rating_period::engine::UpdateFailure;
use rating_period::solver::{accept_variance, IterationBudget, SearchStep, SolverSettings};

fn number(x: f64) -> Binary64 {
    Binary64::from_bits(x.to_bits())
}

#[test]
fn bit_patterns_pass_through_unchanged() {
    assert_eq!(number(1.0).to_bits(), 0x3FF0_0000_0000_0000);
    assert_eq!(number(-1.0).to_bits(), 0xBFF0_0000_0000_0000);
    assert_eq!(Binary64::from_bits(7).bits, 7);
    assert_eq!(SIGN_BIT, (-0.0f64).to_bits());
    assert_eq!(INFINITY_BITS, f64::INFINITY.to_bits());
}

#[test]
fn finite_is_what_the_machine_calls_finite() {
    for x in [0.0, -0.0, 1.0, -1.0, 0.06, f64::MAX, f64::MIN, f64::MIN_POSITIVE, 5e-324, -5e-324] {
        assert!(number(x).is_finite());
    }
    for x in [f64::INFINITY, f64::NEG_INFINITY, f64::NAN, -f64::NAN] {
        assert!(!number(x).is_finite());
    }
    assert!(!Binary64::from_bits(0x7FF0_0000_0000_0001).is_finite());
    assert!(!Binary64::from_bits(0xFFFF_FFFF_FFFF_FFFF).is_finite());
    assert!(Binary64::from_bits(0x7FEF_FFFF_FFFF_FFFF).is_finite());
}

#[test]
fn positive_is_finite_and_greater_than_zero() {
    for x in [1.0, 0.06, f64::MAX, f64::MIN_POSITIVE, 5e-324] {
        assert!(number(x).is_positive());
    }
    for x in [0.0, -0.0, -1.0, -5e-324, f64::MIN, f64::INFINITY, f64::NEG_INFINITY, f64::NAN] {
        assert!(!number(x).is_positive());
    }
}

#[test]
fn a_variance_must_be_finite_and_greater_than_zero() {
    assert_eq!(accept_variance(number(1.7785)), Ok(number(1.7785)));
    assert_eq!(accept_variance(number(5e-324)), Ok(number(5e-324)));
    for x in [0.0, -0.0, -1.5, f64::INFINITY, f64::NEG_INFINITY, f64::NAN] {
        assert_eq!(accept_variance(number(x)), Err(UpdateFailure::DegenerateVariance));
    }
}

#[test]
fn settings_need_a_positive_constant_and_tolerance() {
    let settings = SolverSettings { tau: number(0.5), tolerance: number(0.000001), max_iterations: 100 };
    assert!(settings.is_valid());
    assert!(SolverSettings { max_iterations: 0, ..settings }.is_valid());
    assert!(!SolverSettings { tau: number(0.0), ..settings }.is_valid());
    assert!(!SolverSettings { tau: number(-0.5), ..settings }.is_valid());
    assert!(!SolverSettings { tau: number(f64::NAN), ..settings }.is_valid());
    assert!(!SolverSettings { tolerance: number(0.0), ..settings }.is_valid());
    assert!(!SolverSettings { tolerance: number(f64::INFINITY), ..settings }.is_valid());
}

#[test]
fn a_search_that_converges_is_over() {
    let mut budget = IterationBudget::new(100);
    assert_eq!(budget.step(false), SearchStep::Iterate);
    assert_eq!(budget.step(false), SearchStep::Iterate);
    assert_eq!(budget.step(true), SearchStep::Converged);
    assert_eq!(budget, IterationBudget { used: 2, limit: 100 });
}

#[test]
fn a_search_that_never_converges_is_given_up() {
    let mut budget = IterationBudget::new(3);
    assert_eq!(budget.step(false), SearchStep::Iterate);
    assert_eq!(budget.step(false), SearchStep::Iterate);
    assert_eq!(budget.step(false), SearchStep::Iterate);
    assert_eq!(budget.step(false), SearchStep::Exhausted);
    assert_eq!(budget.step(false), SearchStep::Exhausted);
    assert_eq!(budget, IterationBudget { used: 3, limit: 3 });
}

#[test]
fn a_search_may_converge_on_its_last_iteration() {
    let mut budget = IterationBudget::new(1);
    assert_eq!(budget.step(false), SearchStep::Iterate);
    assert_eq!(budget.step(true), SearchStep::Converged);
}

#[test]
fn a_budget_of_nothing_allows_no_iteration() {
    let mut budget = IterationBudget::new(0);
    assert_eq!(budget.step(false), SearchStep::Exhausted);
    assert_eq!(budget.step(true), SearchStep::Converged);
    assert_eq!(budget, IterationBudget { used: 0, limit: 0 });
}

#[test]
fn the_largest_budget_does_not_overflow() {
    let mut budget = IterationBudget { used: u32::MAX - 1, limit: u32::MAX };
    assert_eq!(budget.step(false), SearchStep::Iterate);
    assert_eq!(budget.step(false), SearchStep::Exhausted);
    assert_eq!(budget.used, u32::MAX);
}

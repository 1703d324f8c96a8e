use nefor_mag::error::MagError;
use nefor_mag::fuel::{
    ensure, enter_call, enter_expr, install, leave_call, leave_expr, release, remaining, step,
    Budget,
};
use nefor_mag::limits::{CompilerLimits, CompilerOptions};

#[test]
fn default_evaluation_budget_allows_exactly_1_000_000_steps() {
    let limit = CompilerLimits::default().evaluation_steps;
    assert_eq!(limit, 1_000_000);
    let mut budget = Budget::new();
    let _fuel = install(&mut budget, CompilerLimits::from(limit));

    for _ in 0..limit {
        step(&mut budget).unwrap();
    }

    assert_eq!(remaining(&budget), Some(0));
    assert!(matches!(step(&mut budget), Err(MagError::Budget(_))));
}

#[test]
fn a_step_needs_an_installed_budget() {
    let mut budget = Budget::new();
    match step(&mut budget) {
        Err(MagError::Budget(m)) => {
            assert_eq!(m, "evaluation started without an installed budget")
        }
        other => panic!("{other:?}"),
    }
}

#[test]
fn the_step_limit_is_named_in_its_error() {
    let mut budget = Budget::new();
    install(&mut budget, CompilerLimits::from(0));
    match step(&mut budget) {
        Err(MagError::Budget(m)) => assert_eq!(m, "expression step limit reached"),
        other => panic!("{other:?}"),
    }
}

#[test]
fn ensure_keeps_an_installed_budget_and_release_puts_back() {
    let mut budget = Budget::new();
    let outer = ensure(&mut budget, CompilerLimits::from(5));
    assert_eq!(remaining(&budget), Some(5));
    let inner = ensure(&mut budget, CompilerLimits::from(9));
    assert_eq!(remaining(&budget), Some(5));
    release(&mut budget, inner);
    assert_eq!(remaining(&budget), Some(5));
    release(&mut budget, outer);
    assert_eq!(remaining(&budget), None);
}

#[test]
fn nesting_limits_are_reached_exactly_and_left_again() {
    let mut budget = Budget::new();
    install(
        &mut budget,
        CompilerLimits { evaluation_steps: 1, call_depth: 1, expression_depth: 2, memoized_calls: 0 },
    );
    let call = enter_call(&mut budget).unwrap();
    match enter_call(&mut budget) {
        Err(MagError::Budget(m)) => assert_eq!(m, "function call depth limit reached"),
        _ => panic!("one call is the limit"),
    }
    leave_call(&mut budget, call);
    assert!(enter_call(&mut budget).is_ok());

    let first = enter_expr(&mut budget).unwrap();
    let second = enter_expr(&mut budget).unwrap();
    match enter_expr(&mut budget) {
        Err(MagError::Budget(m)) => assert_eq!(m, "expression nesting limit reached"),
        _ => panic!("two expressions are the limit"),
    }
    leave_expr(&mut budget, second);
    leave_expr(&mut budget, first);
    assert_eq!(budget.exprs, 0);
}

#[test]
fn default_limits() {
    let limits = CompilerOptions::default().limits;
    assert_eq!(limits.call_depth, 64);
    assert_eq!(limits.expression_depth, 128);
    assert_eq!(limits.memoized_calls, 16_384);
}

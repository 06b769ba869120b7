use simplebool::arith::Term::{False, If, IsZero, Pred, Succ, True, Zero};
use simplebool::arith::{big_step_eval, eval, eval1, is_numeric_val, is_val, EvalError, Term};

#[test]
fn is_numeric_val_test() {
    let t = Zero;
    assert!(is_numeric_val(&t));

    let t = Box::new(Succ(Box::new(Succ(Box::new(Zero)))));
    assert!(is_numeric_val(&t));

    let t = Box::new(Pred(Box::new(Zero)));
    assert!(!is_numeric_val(&t));
}

#[test]
fn is_val_test() {
    let t = True;
    assert!(is_val(&t));

    let t = False;
    assert!(is_val(&t));

    let t = Box::new(Succ(Box::new(Succ(Box::new(Zero)))));
    assert!(is_val(&t));

    let t = Box::new(If(Box::new(True), Box::new(True), Box::new(True)));
    assert!(!is_val(&t));
}

fn sample() -> Term {
    If(
        Box::new(IsZero(Box::new(Zero))),
        Box::new(If(Box::new(False), Box::new(True), Box::new(Succ(Box::new(Zero))))),
        Box::new(False),
    )
}

#[test]
fn eval_test() {
    let t = Box::new(sample());
    assert_eq!(eval(&t), Ok(Succ(Box::new(Zero))));
}

#[test]
fn big_step_eval_test() {
    let t = Box::new(sample());
    assert_eq!(big_step_eval(&t), Ok(Succ(Box::new(Zero))));
}

#[test]
fn arith_single_steps() {
    assert_eq!(eval1(&Pred(Box::new(Zero))), Ok(Zero));
    assert_eq!(eval1(&Pred(Box::new(Succ(Box::new(Zero))))), Ok(Zero));
    assert_eq!(eval1(&IsZero(Box::new(Succ(Box::new(Zero))))), Ok(False));
    assert_eq!(eval1(&IsZero(Box::new(Zero))), Ok(True));
    assert_eq!(eval1(&Zero), Err(EvalError::StuckTerm));
}

#[test]
fn arith_stuck_terms() {
    assert_eq!(eval(&Succ(Box::new(True))), Err(EvalError::StuckTerm));
    assert_eq!(big_step_eval(&Succ(Box::new(True))), Err(EvalError::StuckTerm));
    assert_eq!(eval(&If(Box::new(Zero), Box::new(True), Box::new(False))), Err(EvalError::StuckTerm));
    assert_eq!(big_step_eval(&IsZero(Box::new(False))), Err(EvalError::StuckTerm));
}

#[test]
fn arith_small_and_big_step_agree() {
    let t = Pred(Box::new(Succ(Box::new(Pred(Box::new(Succ(Box::new(Succ(Box::new(Zero))))))))));
    assert_eq!(eval(&t), Ok(Succ(Box::new(Zero))));
    assert_eq!(big_step_eval(&t), eval(&t));
}

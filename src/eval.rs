use vstd::prelude::*;
use crate::shift::{subst_top, term_subst_top};
use crate::syntax::{is_val, is_value, Term};

verus! {

/// Why evaluation stopped short of a value.
#[derive(Debug, PartialEq, Eq, Structural, Clone, Copy)]
pub enum EvalError {
    StuckTerm,
}

/// One step of call-by-value, left-to-right reduction; the first rule that
/// matches applies. A value, a variable, an application of a boolean and a
/// conditional on an abstraction are stuck.
pub open spec fn step(t: Term) -> Result<Term, EvalError>
    decreases t,
{
    match t {
        Term::App(t1, t2) => if *t1 is Abs && is_value(*t2) {
            Ok(subst_top(*t2, *(*t1)->Abs_2))
        } else if is_value(*t1) {
            if is_value(*t2) {
                Err(EvalError::StuckTerm)
            } else {
                match step(*t2) {
                    Ok(u2) => Ok(Term::App(t1, Box::new(u2))),
                    Err(e) => Err(e),
                }
            }
        } else {
            match step(*t1) {
                Ok(u1) => Ok(Term::App(Box::new(u1), t2)),
                Err(e) => Err(e),
            }
        },
        Term::If(t1, t2, t3) => match *t1 {
            Term::True => Ok(*t2),
            Term::False => Ok(*t3),
            _ => if is_value(*t1) {
                Err(EvalError::StuckTerm)
            } else {
                match step(*t1) {
                    Ok(u1) => Ok(Term::If(Box::new(u1), t2, t3)),
                    Err(e) => Err(e),
                }
            },
        },
        _ => Err(EvalError::StuckTerm),
    }
}

/// The reduction rules as a relation, each rule with its own side conditions and
/// no order among them: `t` reduces to `u` by some rule.
pub open spec fn reduces(t: Term, u: Term) -> bool
    decreases t,
{
    match t {
        Term::App(t1, t2) => {
            let beta = *t1 is Abs && is_value(*t2) && u == subst_top(*t2, *(*t1)->Abs_2);
            let right = is_value(*t1) && !is_value(*t2) && u is App && *u->App_0 == *t1
                && reduces(*t2, *u->App_1);
            let left = !is_value(*t1) && u is App && reduces(*t1, *u->App_0) && *u->App_1 == *t2;
            beta || right || left
        },
        Term::If(t1, t2, t3) => {
            let then_branch = *t1 is True && u == *t2;
            let else_branch = *t1 is False && u == *t3;
            let guard = !is_value(*t1) && u is If && reduces(*t1, *u->If_0) && *u->If_1 == *t2
                && *u->If_2 == *t3;
            then_branch || else_branch || guard
        },
        _ => false,
    }
}

/// `step` yields exactly the terms that the rules allow.
pub proof fn lemma_step_is_reduces(t: Term, u: Term)
    ensures
        step(t) == Ok::<Term, EvalError>(u) <==> reduces(t, u),
    decreases t,
{
    match t {
        Term::App(t1, t2) => {
            lemma_step_is_reduces(*t2, *u->App_1);
            lemma_step_is_reduces(*t1, *u->App_0);
        },
        Term::If(t1, _, _) => {
            lemma_step_is_reduces(*t1, *u->If_0);
        },
        _ => {},
    }
}

/// Determinism: the rules never overlap, so a term reduces to at most one term,
/// and a value to none.
pub proof fn lemma_step_deterministic(t: Term, u1: Term, u2: Term)
    requires
        reduces(t, u1),
        reduces(t, u2),
    ensures
        u1 == u2,
        !is_value(t),
        step(t) == Ok::<Term, EvalError>(u1),
{
    lemma_step_is_reduces(t, u1);
    lemma_step_is_reduces(t, u2);
}

/// The outcome of stepping `t` until it is a value or stuck, if that takes at
/// most `fuel` successful steps.
pub open spec fn run(t: Term, fuel: nat) -> Option<Result<Term, EvalError>>
    decreases fuel,
{
    if is_value(t) {
        Some(Ok(t))
    } else {
        match step(t) {
            Err(e) => Some(Err(e)),
            Ok(u) => if fuel == 0 {
                None
            } else {
                run(u, (fuel - 1) as nat)
            },
        }
    }
}

/// Stepping from `t` reaches a value or a stuck term.
pub open spec fn halts(t: Term) -> bool {
    exists|n: nat| #[trigger] run(t, n) is Some
}

/// More fuel does not change an outcome once there is one.
pub proof fn lemma_run_more_fuel(t: Term, n: nat, m: nat)
    requires
        run(t, n) is Some,
        n <= m,
    ensures
        run(t, m) == run(t, n),
    decreases n,
{
    if !is_value(t) {
        if let Ok(u) = step(t) {
            lemma_run_more_fuel(u, (n - 1) as nat, (m - 1) as nat);
        }
    }
}

/// Performs one reduction step.
pub fn eval1(t: &Term) -> (r: Result<Term, EvalError>)
    ensures
        r == step(*t),
    decreases t,
{
    match t {
        Term::App(t1, t2) => {
            if let Term::Abs(_, _, body) = &**t1 {
                if is_val(t2) {
                    return Ok(term_subst_top(t2, body));
                }
            }
            if is_val(t1) {
                if is_val(t2) {
                    Err(EvalError::StuckTerm)
                } else {
                    match eval1(t2) {
                        Ok(u2) => Ok(Term::App(Box::new((**t1).clone()), Box::new(u2))),
                        Err(e) => Err(e),
                    }
                }
            } else {
                match eval1(t1) {
                    Ok(u1) => Ok(Term::App(Box::new(u1), Box::new((**t2).clone()))),
                    Err(e) => Err(e),
                }
            }
        },
        Term::If(t1, t2, t3) => match &**t1 {
            Term::True => Ok((**t2).clone()),
            Term::False => Ok((**t3).clone()),
            _ => if is_val(t1) {
                Err(EvalError::StuckTerm)
            } else {
                match eval1(t1) {
                    Ok(u1) => Ok(
                        Term::If(Box::new(u1), Box::new((**t2).clone()), Box::new((**t3).clone())),
                    ),
                    Err(e) => Err(e),
                }
            },
        },
        _ => Err(EvalError::StuckTerm),
    }
}

/// Steps `t` until it is a value. Every outcome that stepping reaches is this one.
pub fn eval(t: &Term) -> (r: Result<Term, EvalError>)
    requires
        halts(*t),
    ensures
        forall|n: nat| #[trigger] run(*t, n) is Some ==> run(*t, n) == Some(r),
{
    let ghost fuel: nat = choose|n: nat| #[trigger] run(*t, n) is Some;
    let ghost mut k: nat = fuel;
    let mut u = t.clone();
    let mut r: Result<Term, EvalError> = Err(EvalError::StuckTerm);
    let mut done = false;
    while !done
        invariant
            done ==> run(*t, fuel) == Some(r),
            !done ==> run(u, k) is Some && run(*t, fuel) == run(u, k),
        decreases k + if done { 0nat } else { 1nat },
    {
        if is_val(&u) {
            r = Ok(u.clone());
            done = true;
        } else {
            match eval1(&u) {
                Ok(u2) => {
                    u = u2;
                    proof {
                        k = (k - 1) as nat;
                    }
                },
                Err(e) => {
                    r = Err(e);
                    done = true;
                },
            }
        }
    }
    assert forall|n: nat| #[trigger] run(*t, n) is Some implies run(*t, n) == Some(r) by {
        if n <= fuel {
            lemma_run_more_fuel(*t, n, fuel);
        } else {
            lemma_run_more_fuel(*t, fuel, n);
        }
    }
    r
}

/// Big-step evaluation with at most `fuel` nested evaluations: subterms become
/// values first (function, then argument, then the body after substitution;
/// guard, then the branch taken). `None` when the fuel runs out.
pub open spec fn big(t: Term, fuel: nat) -> Option<Result<Term, EvalError>>
    decreases fuel,
{
    if is_value(t) {
        Some(Ok(t))
    } else if fuel == 0 {
        None
    } else {
        let f = (fuel - 1) as nat;
        match t {
            Term::App(t1, t2) => match big(*t1, f) {
                Some(Ok(v1)) => match big(*t2, f) {
                    Some(Ok(v2)) => match v1 {
                        Term::Abs(_, _, body) => big(subst_top(v2, *body), f),
                        _ => Some(Err(EvalError::StuckTerm)),
                    },
                    other => other,
                },
                other => other,
            },
            Term::If(t1, t2, t3) => match big(*t1, f) {
                Some(Ok(Term::True)) => big(*t2, f),
                Some(Ok(Term::False)) => big(*t3, f),
                Some(Ok(_)) => Some(Err(EvalError::StuckTerm)),
                other => other,
            },
            _ => Some(Err(EvalError::StuckTerm)),
        }
    }
}

/// More fuel does not change a big-step outcome once there is one.
pub proof fn lemma_big_more_fuel(t: Term, n: nat, m: nat)
    requires
        big(t, n) is Some,
        n <= m,
    ensures
        big(t, m) == big(t, n),
    decreases n,
{
    if !is_value(t) && n > 0 {
        let f = (n - 1) as nat;
        let g = (m - 1) as nat;
        match t {
            Term::App(t1, t2) => {
                lemma_big_more_fuel(*t1, f, g);
                if let Some(Ok(v1)) = big(*t1, f) {
                    lemma_big_more_fuel(*t2, f, g);
                    if let Some(Ok(v2)) = big(*t2, f) {
                        if let Term::Abs(_, _, body) = v1 {
                            lemma_big_more_fuel(subst_top(v2, *body), f, g);
                        }
                    }
                }
            },
            Term::If(t1, t2, t3) => {
                lemma_big_more_fuel(*t1, f, g);
                match big(*t1, f) {
                    Some(Ok(Term::True)) => lemma_big_more_fuel(*t2, f, g),
                    Some(Ok(Term::False)) => lemma_big_more_fuel(*t3, f, g),
                    _ => {},
                }
            },
            _ => {},
        }
    }
}

fn big_walk(t: &Term, Ghost(fuel): Ghost<nat>) -> (r: Result<Term, EvalError>)
    requires
        big(*t, fuel) is Some,
    ensures
        big(*t, fuel) == Some(r),
    decreases fuel,
{
    if is_val(t) {
        return Ok(t.clone());
    }
    let ghost f = (fuel - 1) as nat;
    match t {
        Term::App(t1, t2) => {
            let v1 = match big_walk(t1, Ghost(f)) {
                Ok(v) => v,
                Err(e) => return Err(e),
            };
            let v2 = match big_walk(t2, Ghost(f)) {
                Ok(v) => v,
                Err(e) => return Err(e),
            };
            match v1 {
                Term::Abs(_, _, body) => {
                    let u = term_subst_top(&v2, &body);
                    big_walk(&u, Ghost(f))
                },
                _ => Err(EvalError::StuckTerm),
            }
        },
        Term::If(t1, t2, t3) => match big_walk(t1, Ghost(f)) {
            Ok(Term::True) => big_walk(t2, Ghost(f)),
            Ok(Term::False) => big_walk(t3, Ghost(f)),
            Ok(_) => Err(EvalError::StuckTerm),
            Err(e) => Err(e),
        },
        _ => Err(EvalError::StuckTerm),
    }
}

/// Big-step evaluation: the outcome that every sufficient fuel gives.
pub fn big_step_eval(t: &Term) -> (r: Result<Term, EvalError>)
    requires
        exists|n: nat| #[trigger] big(*t, n) is Some,
    ensures
        forall|n: nat| #[trigger] big(*t, n) is Some ==> big(*t, n) == Some(r),
{
    let ghost fuel: nat = choose|n: nat| #[trigger] big(*t, n) is Some;
    let r = big_walk(t, Ghost(fuel));
    assert forall|n: nat| #[trigger] big(*t, n) is Some implies big(*t, n) == Some(r) by {
        if n <= fuel {
            lemma_big_more_fuel(*t, n, fuel);
        } else {
            lemma_big_more_fuel(*t, fuel, n);
        }
    }
    r
}

} // verus!

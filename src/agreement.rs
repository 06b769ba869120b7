use vstd::prelude::*;
use crate::eval::{big, halts, lemma_big_more_fuel, lemma_run_more_fuel, run, step, EvalError};
use crate::shift::subst_top;
use crate::syntax::{is_value, Term};

verus! {

/// The term reached after `k` successful steps from `t`, if there are that many.
pub open spec fn steps(t: Term, k: nat) -> Option<Term>
    decreases k,
{
    if k == 0 {
        Some(t)
    } else {
        match step(t) {
            Ok(u) => steps(u, (k - 1) as nat),
            Err(_) => None,
        }
    }
}

/// How stepping ends at `u`: a value, or stuck; `None` while `u` still steps.
pub open spec fn ending(u: Term) -> Option<Result<Term, EvalError>> {
    if is_value(u) {
        Some(Ok(u))
    } else {
        match step(u) {
            Err(e) => Some(Err(e)),
            Ok(_) => None,
        }
    }
}

/// Stepping from `t` ends with `r` after `k` steps.
pub open spec fn ends(t: Term, k: nat, r: Result<Term, EvalError>) -> bool {
    steps(t, k) is Some && ending(steps(t, k)->Some_0) == Some(r)
}

proof fn lemma_ends_run(t: Term, k: nat, r: Result<Term, EvalError>)
    requires
        ends(t, k, r),
    ensures
        run(t, k) == Some(r),
    decreases k,
{
    if k > 0 {
        lemma_ends_run(step(t)->Ok_0, (k - 1) as nat, r);
    }
}

proof fn lemma_steps_trans(a: Term, k1: nat, k2: nat)
    requires
        steps(a, k1) is Some,
    ensures
        steps(a, k1 + k2) == steps(steps(a, k1)->Some_0, k2),
    decreases k1,
{
    if k1 > 0 {
        lemma_steps_trans(step(a)->Ok_0, (k1 - 1) as nat, k2);
    }
}

proof fn lemma_steps_app_left(t1: Term, t2: Term, k: nat)
    requires
        steps(t1, k) is Some,
    ensures
        steps(Term::App(Box::new(t1), Box::new(t2)), k) == Some(
            Term::App(Box::new(steps(t1, k)->Some_0), Box::new(t2)),
        ),
    decreases k,
{
    if k > 0 {
        lemma_steps_app_left(step(t1)->Ok_0, t2, (k - 1) as nat);
    }
}

proof fn lemma_steps_app_right(v1: Term, t2: Term, k: nat)
    requires
        is_value(v1),
        steps(t2, k) is Some,
    ensures
        steps(Term::App(Box::new(v1), Box::new(t2)), k) == Some(
            Term::App(Box::new(v1), Box::new(steps(t2, k)->Some_0)),
        ),
    decreases k,
{
    if k > 0 {
        lemma_steps_app_right(v1, step(t2)->Ok_0, (k - 1) as nat);
    }
}

proof fn lemma_steps_if(t1: Term, t2: Term, t3: Term, k: nat)
    requires
        steps(t1, k) is Some,
    ensures
        steps(Term::If(Box::new(t1), Box::new(t2), Box::new(t3)), k) == Some(
            Term::If(Box::new(steps(t1, k)->Some_0), Box::new(t2), Box::new(t3)),
        ),
    decreases k,
{
    if k > 0 {
        lemma_steps_if(step(t1)->Ok_0, t2, t3, (k - 1) as nat);
    }
}

proof fn lemma_big_ends(t: Term, n: nat) -> (k: nat)
    requires
        big(t, n) is Some,
    ensures
        ends(t, k, big(t, n)->Some_0),
    decreases n,
{
    if is_value(t) {
        return 0;
    }
    let f = (n - 1) as nat;
    match t {
        Term::App(t1, t2) => {
            let k1 = lemma_big_ends(*t1, f);
            let u1 = steps(*t1, k1)->Some_0;
            lemma_steps_app_left(*t1, *t2, k1);
            if !is_value(u1) {
                return k1;
            }
            let k2 = lemma_big_ends(*t2, f);
            let u2 = steps(*t2, k2)->Some_0;
            lemma_steps_app_right(u1, *t2, k2);
            lemma_steps_trans(t, k1, k2);
            if !is_value(u2) {
                return k1 + k2;
            }
            let mid = Term::App(Box::new(u1), Box::new(u2));
            if let Term::Abs(_, _, body) = u1 {
                let s = subst_top(u2, *body);
                let k3 = lemma_big_ends(s, f);
                assert(step(mid) == Ok::<Term, EvalError>(s));
                assert(steps(s, 0) == Some(s));
                lemma_steps_trans(mid, 1, k3);
                lemma_steps_trans(t, k1 + k2, 1 + k3);
                k1 + k2 + 1 + k3
            } else {
                k1 + k2
            }
        },
        Term::If(t1, t2, t3) => {
            let k1 = lemma_big_ends(*t1, f);
            let u1 = steps(*t1, k1)->Some_0;
            lemma_steps_if(*t1, *t2, *t3, k1);
            let mid = Term::If(Box::new(u1), t2, t3);
            match u1 {
                Term::True => {
                    let k2 = lemma_big_ends(*t2, f);
                    assert(step(mid) == Ok::<Term, EvalError>(*t2));
                    assert(steps(*t2, 0) == Some(*t2));
                    lemma_steps_trans(mid, 1, k2);
                    lemma_steps_trans(t, k1, 1 + k2);
                    k1 + 1 + k2
                },
                Term::False => {
                    let k2 = lemma_big_ends(*t3, f);
                    assert(step(mid) == Ok::<Term, EvalError>(*t3));
                    assert(steps(*t3, 0) == Some(*t3));
                    lemma_steps_trans(mid, 1, k2);
                    lemma_steps_trans(t, k1, 1 + k2);
                    k1 + 1 + k2
                },
                _ => k1,
            }
        },
        _ => 0,
    }
}

proof fn lemma_stuck_big(t: Term) -> (n: nat)
    requires
        !is_value(t),
        step(t) is Err,
    ensures
        big(t, n) == Some(step(t)),
    decreases t,
{
    match t {
        Term::App(t1, t2) => {
            if is_value(*t1) && is_value(*t2) {
                assert(big(*t1, 0) == Some(Ok::<Term, EvalError>(*t1)));
                assert(big(*t2, 0) == Some(Ok::<Term, EvalError>(*t2)));
                1
            } else if is_value(*t1) {
                let n2 = lemma_stuck_big(*t2);
                assert(big(*t1, n2) == Some(Ok::<Term, EvalError>(*t1)));
                n2 + 1
            } else {
                let n1 = lemma_stuck_big(*t1);
                n1 + 1
            }
        },
        Term::If(t1, _, _) => {
            if is_value(*t1) {
                assert(big(*t1, 0) == Some(Ok::<Term, EvalError>(*t1)));
                1
            } else {
                let n1 = lemma_stuck_big(*t1);
                n1 + 1
            }
        },
        _ => 1,
    }
}

/// A step backwards keeps a big-step outcome: if `t` steps to `u` and `u` evaluates
/// by big steps, `t` evaluates to the same.
proof fn lemma_expand(t: Term, n: nat) -> (n2: nat)
    requires
        step(t) is Ok,
        big(step(t)->Ok_0, n) is Some,
    ensures
        big(t, n2) == big(step(t)->Ok_0, n),
    decreases t,
{
    let u = step(t)->Ok_0;
    match t {
        Term::App(t1, t2) => {
            if *t1 is Abs && is_value(*t2) {
                assert(big(*t1, n) == Some(Ok::<Term, EvalError>(*t1)));
                assert(big(*t2, n) == Some(Ok::<Term, EvalError>(*t2)));
                n + 1
            } else if is_value(*t1) {
                let f = (n - 1) as nat;
                let u2 = step(*t2)->Ok_0;
                assert(u == Term::App(t1, Box::new(u2)));
                assert(big(*t1, f) == Some(Ok::<Term, EvalError>(*t1)));
                let m2 = lemma_expand(*t2, f);
                let big_f = if m2 > f { m2 } else { f };
                lemma_big_more_fuel(*t2, m2, big_f);
                lemma_big_more_fuel(u2, f, big_f);
                assert(big(*t1, big_f) == Some(Ok::<Term, EvalError>(*t1)));
                if let Some(Ok(v2)) = big(u2, f) {
                    if let Term::Abs(_, _, body) = *t1 {
                        lemma_big_more_fuel(subst_top(v2, *body), f, big_f);
                    }
                }
                big_f + 1
            } else {
                let f = (n - 1) as nat;
                let u1 = step(*t1)->Ok_0;
                assert(u == Term::App(Box::new(u1), t2));
                let m1 = lemma_expand(*t1, f);
                let big_f = if m1 > f { m1 } else { f };
                lemma_big_more_fuel(*t1, m1, big_f);
                lemma_big_more_fuel(u1, f, big_f);
                if let Some(Ok(v1)) = big(u1, f) {
                    lemma_big_more_fuel(*t2, f, big_f);
                    if let Some(Ok(v2)) = big(*t2, f) {
                        if let Term::Abs(_, _, body) = v1 {
                            lemma_big_more_fuel(subst_top(v2, *body), f, big_f);
                        }
                    }
                }
                big_f + 1
            }
        },
        Term::If(t1, t2, t3) => {
            if *t1 is True || *t1 is False {
                assert(big(*t1, n) == Some(Ok::<Term, EvalError>(*t1)));
                n + 1
            } else {
                let f = (n - 1) as nat;
                let u1 = step(*t1)->Ok_0;
                assert(u == Term::If(Box::new(u1), t2, t3));
                let m1 = lemma_expand(*t1, f);
                let big_f = if m1 > f { m1 } else { f };
                lemma_big_more_fuel(*t1, m1, big_f);
                lemma_big_more_fuel(u1, f, big_f);
                match big(u1, f) {
                    Some(Ok(Term::True)) => lemma_big_more_fuel(*t2, f, big_f),
                    Some(Ok(Term::False)) => lemma_big_more_fuel(*t3, f, big_f),
                    _ => {},
                }
                big_f + 1
            }
        },
        _ => 0,
    }
}

proof fn lemma_run_big(t: Term, m: nat) -> (n: nat)
    requires
        run(t, m) is Some,
    ensures
        big(t, n) == run(t, m),
    decreases m,
{
    if is_value(t) {
        0
    } else if step(t) is Err {
        lemma_stuck_big(t)
    } else {
        let nu = lemma_run_big(step(t)->Ok_0, (m - 1) as nat);
        lemma_expand(t, nu)
    }
}

/// Where stepping ends, big-step evaluation ends too, with the same outcome.
pub proof fn lemma_small_step_agrees(t: Term, m: nat)
    requires
        run(t, m) is Some,
    ensures
        exists|n: nat| #[trigger] big(t, n) == run(t, m),
{
    let n = lemma_run_big(t, m);
    assert(big(t, n) == run(t, m));
}

/// Big-step and small-step evaluation agree: where big-step evaluation ends,
/// stepping ends too, with the same value or error.
pub proof fn lemma_big_step_agrees(t: Term, n: nat)
    requires
        big(t, n) is Some,
    ensures
        halts(t),
        forall|m: nat| #[trigger] run(t, m) is Some ==> run(t, m) == big(t, n),
{
    let k = lemma_big_ends(t, n);
    lemma_ends_run(t, k, big(t, n)->Some_0);
    assert(run(t, k) is Some);
    assert forall|m: nat| #[trigger] run(t, m) is Some implies run(t, m) == big(t, n) by {
        if m <= k {
            lemma_run_more_fuel(t, m, k);
        } else {
            lemma_run_more_fuel(t, k, m);
        }
    }
}

} // verus!
